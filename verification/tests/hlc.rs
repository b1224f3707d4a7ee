use crate_sync::error::SyncError;
use crate_sync::hlc::{bump, new_node_id, node_id_from_bits, Hlc};

#[test]
fn tick_advances_wall_then_counter() {
    let mut h = Hlc::new(0, 0, 0xabcd);
    h.tick(1000);
    assert_eq!((h.wall_ms, h.counter), (1000, 0));
    // Same millisecond -> counter increments.
    h.tick(1000);
    assert_eq!((h.wall_ms, h.counter), (1000, 1));
    // Clock moved forward -> counter resets.
    h.tick(2000);
    assert_eq!((h.wall_ms, h.counter), (2000, 0));
}

#[test]
fn format_is_lex_sortable() {
    let a = Hlc::new(1000, 0, 1).format();
    let b = Hlc::new(1000, 1, 1).format();
    let c = Hlc::new(1001, 0, 1).format();
    assert!(a < b);
    assert!(b < c);
    assert_eq!(Hlc::parse(&a).unwrap(), Hlc::new(1000, 0, 1));
}

#[test]
fn empty_sentinel_sorts_below_real() {
    assert!("" < Hlc::new(0, 0, 0).format().as_str());
}

#[test]
fn receive_is_monotonic() {
    let mut local = Hlc::new(1000, 5, 1);
    let remote = Hlc::new(1000, 9, 2);
    local.receive(&remote, 900);
    // Same wall on both, now_ms behind: counter = max(5,9)+1.
    assert_eq!((local.wall_ms, local.counter), (1000, 10));
}

#[test]
fn format_is_fixed_width_hex() {
    assert_eq!(Hlc::new(0x1234, 0xab, 0xdeadbeef).format(), "0000000000001234-000000ab-deadbeef");
    assert_eq!(Hlc::new(0, 0, 0).format(), "0000000000000000-00000000-00000000");
}

#[test]
fn parse_rejects_malformed_stamps() {
    assert!(Hlc::parse("").is_err());
    assert!(Hlc::parse("0000000000001234-000000ab").is_err());
    assert!(Hlc::parse("000000000000123g-000000ab-deadbeef").is_err());
    assert!(Hlc::parse("0000000000001234-000000ab-deadbeef-00").is_err());
    assert_eq!(
        Hlc::parse("0000000000001234-000000ab-deadbeef").unwrap(),
        Hlc::new(0x1234, 0xab, 0xdeadbeef)
    );
}

#[test]
fn parse_error_is_a_cloud_sync_error_quoting_the_input() {
    assert_eq!(Hlc::parse("1-2"), Err(SyncError::CloudSync("invalid HLC: \"1-2\"".into())));
    assert_eq!(Hlc::parse(""), Err(SyncError::CloudSync("invalid HLC: \"\"".into())));
    assert_eq!(
        Hlc::parse("zz-0-0"),
        Err(SyncError::CloudSync("invalid HLC: \"zz-0-0\"".into()))
    );
}

#[test]
fn parse_inverts_format() {
    for h in [Hlc::new(0, 0, 0), Hlc::new(u64::MAX >> 1, 7, 9), Hlc::new(5, u32::MAX, u32::MAX)] {
        assert_eq!(Hlc::parse(&h.format()).unwrap(), h);
    }
}

#[test]
fn tick_never_goes_backwards() {
    let mut h = Hlc::new(5000, 3, 1);
    let before = h;
    h.tick(10);
    assert!(before.precedes(&h));
    assert_eq!((h.wall_ms, h.counter), (5000, 4));
}

#[test]
fn receive_adopts_a_newer_remote_wall() {
    let mut local = Hlc::new(1000, 5, 1);
    let remote = Hlc::new(3000, 2, 2);
    local.receive(&remote, 900);
    assert_eq!((local.wall_ms, local.counter, local.node), (3000, 3, 1));
    let mut l2 = Hlc::new(1000, 5, 1);
    l2.receive(&remote, 4000);
    assert_eq!((l2.wall_ms, l2.counter), (4000, 0));
}

#[test]
fn bump_is_greater_and_falls_back_on_garbage() {
    let h = Hlc::new(10, 0, 0xA).format();
    let b = bump(&h);
    assert!(b > h);
    assert_eq!(b, Hlc::new(10, 1, 0xA).format());
    assert_eq!(bump("garbage"), Hlc::new(0, 0, 0).format());
}

#[test]
fn node_id_keeps_the_low_bits_and_sets_the_lowest() {
    assert_eq!(node_id_from_bits(0), 1);
    assert_eq!(node_id_from_bits(0x1234_5678_9abc_def0_1122_3344_5566_7788), 0x5566_7789);
    assert_eq!(node_id_from_bits(0xffff_ffff_0000_0003), 3);
    assert_eq!(node_id_from_bits(u128::MAX), u32::MAX);
    let n = new_node_id();
    assert_eq!(n & 1, 1);
}
