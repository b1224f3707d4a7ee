use crate_sync::analysis::AnalysisStatus;
use crate_sync::audio::{
    compare_device_lists, default_name, describe_devices, device_names, is_built_in_device,
    loss_applies, loss_rebuild_allowed, newest_epoch, AudioDevice, DeviceListChange, FadeOutEnding, FadeState, HostOs,
};

#[test]
fn fade_covers_the_last_five_milliseconds() {
    // 48 kHz stereo: 96 samples per millisecond.
    let mut f = FadeOutEnding::new((), 48_000, 2, 1000);
    let mut positions = Vec::new();
    for _ in 0..96_000 {
        positions.push(f.next_position());
    }
    let fade_start = 96_000 - 5 * 96;
    assert_eq!(positions[fade_start - 1], None);
    assert_eq!(positions[fade_start], Some((0, 480)));
    assert_eq!(positions[95_999], Some((479, 480)));
}

#[test]
fn zero_duration_passes_through_and_seek_resumes() {
    let mut f = FadeOutEnding::new(7u8, 44_100, 1, 0);
    assert_eq!(f.next_position(), None);
    assert_eq!(*f.inner_mut(), 7);
    let mut g = FadeOutEnding::new((), 1000, 1, 10);
    g.seeked_to(9);
    assert_eq!(g.next_position(), Some((4, 5)));
}

#[test]
fn short_tracks_fade_over_their_whole_length() {
    let mut f = FadeOutEnding::new((), 1000, 1, 3);
    assert_eq!(f.next_position(), Some((0, 3)));
}

#[test]
fn fade_state_codes_roundtrip() {
    for s in [FadeState::Playing, FadeState::FadingOut, FadeState::Silent, FadeState::FadingIn] {
        assert_eq!(FadeState::from_u8(s.to_u8()), s);
    }
    assert_eq!(FadeState::from_u8(2), FadeState::Silent);
    assert_eq!(FadeState::from_u8(200), FadeState::Playing);
}

#[test]
fn device_names_and_default() {
    let devs = vec![
        AudioDevice { name: "Speakers".into(), is_default: false, is_built_in: true },
        AudioDevice { name: "Headphones".into(), is_default: true, is_built_in: false },
        AudioDevice { name: "HDMI".into(), is_default: true, is_built_in: false },
    ];
    assert_eq!(device_names(&devs), vec!["Speakers", "Headphones", "HDMI"]);
    assert_eq!(default_name(&devs), Some("Headphones"));
    assert_eq!(default_name(&devs[..1]), None);
    assert_ne!(AnalysisStatus::Pending, AnalysisStatus::Completed);
}

#[test]
fn built_in_heuristics_per_os() {
    assert!(is_built_in_device(HostOs::MacOs, "MacBook Pro Speakers"));
    assert!(is_built_in_device(HostOs::MacOs, "Mac mini Speakers"));
    assert!(!is_built_in_device(HostOs::MacOs, "Bluetooth Speakers"));
    assert!(!is_built_in_device(HostOs::MacOs, "AirPods Pro"));
    assert!(is_built_in_device(HostOs::Windows, "Speakers (Realtek(R) Audio)"));
    assert!(is_built_in_device(HostOs::Windows, "HIGH DEFINITION AUDIO Device"));
    assert!(!is_built_in_device(HostOs::Windows, "USB DAC"));
    assert!(is_built_in_device(HostOs::Linux, "Built-in Audio Analog Stereo"));
    assert!(!is_built_in_device(HostOs::Linux, "USB Audio Analog Stereo"));
    assert!(is_built_in_device(HostOs::Linux, "HDA Intel PCH"));
    assert!(is_built_in_device(HostOs::Other, "Internal Speaker"));
    assert!(!is_built_in_device(HostOs::Other, "Speakers"));
}

#[test]
fn describing_devices_marks_default_and_built_in() {
    let devs = describe_devices(
        HostOs::MacOs,
        vec!["MacBook Pro Speakers".into(), "AirPods".into()],
        Some("AirPods".into()),
    );
    assert_eq!(
        devs,
        vec![
            AudioDevice { name: "MacBook Pro Speakers".into(), is_default: false, is_built_in: true },
            AudioDevice { name: "AirPods".into(), is_default: true, is_built_in: false },
        ]
    );
    assert!(describe_devices(HostOs::Linux, vec!["x".into()], None).iter().all(|d| !d.is_default));
}

#[test]
fn poll_comparison_of_device_lists() {
    let dev = |n: &str, d: bool| AudioDevice { name: n.into(), is_default: d, is_built_in: false };
    let known = vec![dev("A", true), dev("B", false)];
    assert_eq!(
        compare_device_lists(&known, &known),
        DeviceListChange { list_changed: false, default_moved: false }
    );
    assert_eq!(
        compare_device_lists(&known, &[dev("A", false), dev("B", true)]),
        DeviceListChange { list_changed: false, default_moved: true }
    );
    assert_eq!(
        compare_device_lists(&known, &[dev("A", true), dev("C", false)]),
        DeviceListChange { list_changed: true, default_moved: false }
    );
    assert_eq!(
        compare_device_lists(&known, &[dev("A", true)]),
        DeviceListChange { list_changed: true, default_moved: false }
    );
    assert_eq!(
        compare_device_lists(&known, &[]),
        DeviceListChange { list_changed: true, default_moved: true }
    );
}

#[test]
fn loss_debounce_and_cooldown() {
    assert!(loss_rebuild_allowed(None));
    assert!(!loss_rebuild_allowed(Some(999)));
    assert!(loss_rebuild_allowed(Some(1000)));
    assert_eq!(newest_epoch(3, &[1, 7, 5]), 7);
    assert_eq!(newest_epoch(9, &[1, 7]), 9);
    assert_eq!(newest_epoch(2, &[]), 2);
}

#[test]
fn stale_device_losses_are_ignored() {
    assert!(loss_applies(Some(4), 4));
    assert!(!loss_applies(Some(5), 4));
    assert!(!loss_applies(None, 4));
}
