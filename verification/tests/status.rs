use crate_sync::error::SyncError;
use crate_sync::merge::OverrideEvent;
use crate_sync::status::{
    classify_error, is_already_deleted_auth_error, is_unauthorized, merged_bucket_names,
    onboarding_for, phase_for_error, remember_overrides, resolve_overrides, visible_devices,
    OnboardingKind, OverrideNotice, Profile, SyncErrorKind, SyncPhase, SyncStatus,
};
use crate_sync::types::{restore_profile, AuthSession, DeviceRecord};
use crate_sync::status::{diagnostics_report, phase_name};
use crate_sync::status::error_log_line;

fn http(status: u16, code: &str) -> SyncError {
    SyncError::CloudSyncHttp { context: "c".into(), status, code: code.into() }
}

#[test]
fn errors_are_classified() {
    assert_eq!(classify_error(&SyncError::CloudSyncNetwork("x".into())), SyncErrorKind::Network);
    assert_eq!(classify_error(&SyncError::CloudSyncAuth("x".into())), SyncErrorKind::Auth);
    assert_eq!(classify_error(&http(401, "")), SyncErrorKind::Auth);
    assert_eq!(classify_error(&http(403, "")), SyncErrorKind::Permission);
    assert_eq!(classify_error(&http(413, "")), SyncErrorKind::TooLarge);
    assert_eq!(classify_error(&http(429, "")), SyncErrorKind::Quota);
    assert_eq!(classify_error(&http(503, "QUOTA")), SyncErrorKind::Server);
    assert_eq!(classify_error(&http(400, "RESOURCE_QUOTA_EXCEEDED")), SyncErrorKind::Quota);
    assert_eq!(classify_error(&http(400, "BAD")), SyncErrorKind::Unknown);
    assert_eq!(classify_error(&SyncError::CloudSyncConflict), SyncErrorKind::Conflict);
    assert_eq!(classify_error(&SyncError::Database("x".into())), SyncErrorKind::Merge);
    assert_eq!(classify_error(&SyncError::CloudSyncMerge("x".into())), SyncErrorKind::Merge);
    assert_eq!(classify_error(&SyncError::LockPoisoned), SyncErrorKind::Unknown);
    assert_eq!(SyncErrorKind::TooLarge.as_str(), "toolarge");
    assert_eq!(SyncErrorKind::Network.as_str(), "network");
}

#[test]
fn transient_errors_show_offline() {
    assert_eq!(phase_for_error(&SyncError::CloudSyncNetwork("x".into())), SyncPhase::Offline);
    assert_eq!(phase_for_error(&http(500, "")), SyncPhase::Offline);
    assert_eq!(phase_for_error(&http(429, "")), SyncPhase::Offline);
    assert_eq!(phase_for_error(&http(403, "")), SyncPhase::Error);
    assert_eq!(phase_for_error(&SyncError::CloudSyncConflict), SyncPhase::Error);
}

#[test]
fn unauthorized_and_already_deleted() {
    assert!(is_unauthorized(&Err(http(401, ""))));
    assert!(!is_unauthorized(&Err(http(403, ""))));
    assert!(!is_unauthorized(&Ok(())));
    assert!(is_already_deleted_auth_error(&SyncError::CloudSyncAuth("refresh: USER_NOT_FOUND".into())));
    assert!(is_already_deleted_auth_error(&SyncError::CloudSyncAuth("TOKEN_EXPIRED".into())));
    assert!(!is_already_deleted_auth_error(&SyncError::CloudSyncAuth("CREDENTIAL_TOO_OLD_LOGIN_AGAIN".into())));
    assert!(!is_already_deleted_auth_error(&http(403, "USER_NOT_FOUND")));
}

#[test]
fn onboarding_hint() {
    assert_eq!(onboarding_for(Some(true)), Some(OnboardingKind::Restore));
    assert_eq!(onboarding_for(Some(false)), Some(OnboardingKind::Initial));
    assert_eq!(onboarding_for(None), None);
}

fn profile(email: &str) -> Profile {
    Profile { email: Some(email.into()), display_name: None, photo_url: None }
}

#[test]
fn status_transitions() {
    let mut s = SyncStatus::initial(true, "d1".into(), "Mac".into());
    assert_eq!(s.phase, SyncPhase::SignedOut);
    assert_eq!(SyncStatus::initial(false, "d".into(), "n".into()).phase, SyncPhase::Disabled);
    s.signed_in(profile("a@b"));
    assert_eq!(s.phase, SyncPhase::Idle);
    assert_eq!(s.email.as_deref(), Some("a@b"));
    s.record_error(&SyncError::CloudSyncNetwork("down".into()), "network down".into());
    assert_eq!(s.phase, SyncPhase::Offline);
    assert_eq!(s.last_error.as_deref(), Some("network down"));
    assert_eq!(s.last_error_kind, Some(SyncErrorKind::Network));
    s.clear_offline();
    assert_eq!(s.phase, SyncPhase::Idle);
    assert_eq!(s.last_error, None);
    s.record_error(&http(403, "PERMISSION_DENIED"), "denied".into());
    assert_eq!(s.phase, SyncPhase::Error);
    // A successful round-trip does not clear a hard error.
    s.clear_offline();
    assert_eq!(s.phase, SyncPhase::Error);
    assert_eq!(s.last_error.as_deref(), Some("denied"));
    s.mark_synced("2024-01-01T00:00:00Z".into());
    assert_eq!(s.phase, SyncPhase::Idle);
    assert_eq!(s.last_error_kind, None);
    assert_eq!(s.last_synced_at.as_deref(), Some("2024-01-01T00:00:00Z"));
    s.set_phase(SyncPhase::Syncing, None);
    assert_eq!(s.phase, SyncPhase::Syncing);
    s.signed_out(true);
    assert_eq!(s.phase, SyncPhase::SignedOut);
    assert_eq!(s.email, None);
    assert_eq!(s.device_id, "d1");
    assert_eq!(s.last_synced_at.as_deref(), Some("2024-01-01T00:00:00Z"));
}

fn notice(i: usize) -> OverrideNotice {
    OverrideNotice { label: format!("l{i}"), device: "d".into() }
}

#[test]
fn override_buffer_keeps_newest_twenty() {
    let mut buf: Vec<OverrideNotice> = (0..15).map(notice).collect();
    let more: Vec<OverrideNotice> = (15..30).map(notice).collect();
    remember_overrides(&mut buf, &more);
    assert_eq!(buf.len(), 20);
    assert_eq!(buf[0].label, "l10");
    assert_eq!(buf[19].label, "l29");
    let mut small: Vec<OverrideNotice> = Vec::new();
    remember_overrides(&mut small, &vec![notice(1)]);
    assert_eq!(small.len(), 1);
}

fn device(id: &str, name: &str, revoked: bool) -> DeviceRecord {
    DeviceRecord {
        device_id: id.into(),
        name: name.into(),
        last_seen: std::time::UNIX_EPOCH,
        app_version: "1".into(),
        revoked,
    }
}

#[test]
fn override_winner_names_resolve() {
    let devices = vec![device("d1", "Laptop", false), device("d2", "Phone", false), device("d1", "Laptop 2", false)];
    let evs = vec![
        OverrideEvent { label: "Mix".into(), winner_device_id: "d1".into() },
        OverrideEvent { label: "Tag".into(), winner_device_id: "d9".into() },
    ];
    let notices = resolve_overrides(&evs, &devices);
    assert_eq!(notices.len(), 2);
    assert_eq!(notices[0].label, "Mix");
    assert_eq!(notices[0].device, "Laptop 2");
    assert_eq!(notices[1].device, "d9");
}

#[test]
fn merged_names_are_sorted_and_deduped() {
    let names = vec!["tracks/3".to_string(), "playlists".into(), "tracks/3".into(), "cues".into()];
    assert_eq!(merged_bucket_names(&names), vec!["cues".to_string(), "playlists".into(), "tracks/3".into()]);
    assert!(merged_bucket_names(&Vec::new()).is_empty());
}

#[test]
fn device_list_hides_revoked_and_uses_local_name() {
    let devices = vec![
        device("d1", "Old name", false),
        device("d2", "Phone", true),
        device("d3", "Tablet", false),
    ];
    let out = visible_devices(devices, "d1", "New name");
    assert_eq!(out.len(), 2);
    assert_eq!(out[0].device_id, "d1");
    assert_eq!(out[0].name, "New name");
    assert_eq!(out[1].name, "Tablet");
}

#[test]
fn diagnostics_report_layout() {
    let mut st = SyncStatus::initial(true, "dev-1".into(), "Studio Mac".into());
    assert_eq!(
        diagnostics_report("1.4.0", "macos", &st, "line a\nline b\n"),
        "Crate sync diagnostics\nversion: 1.4.0\nplatform: macos\ndevice: Studio Mac (dev-1)\nphase: SignedOut\nlast_error: -\nlast_error_kind: -\nlast_synced_at: -\n--- sync.log (tail) ---\nline a\nline b\n"
    );
    st.phase = SyncPhase::Offline;
    st.last_error = Some("network down".into());
    st.last_error_kind = Some(SyncErrorKind::Network);
    st.last_synced_at = Some("2026-01-01T00:00:00Z".into());
    let r = diagnostics_report("1.4.0", "ios", &st, "");
    assert!(r.contains("\nphase: Offline\nlast_error: network down\nlast_error_kind: network\nlast_synced_at: 2026-01-01T00:00:00Z\n"));
    assert_eq!(phase_name(SyncPhase::Idle), "Idle");
}

#[test]
fn failed_operations_are_logged_with_kind_and_phase() {
    assert_eq!(
        error_log_line("push", &http(403, "PERMISSION_DENIED"), "HTTP 403"),
        "push failed kind=permission phase=Error: HTTP 403"
    );
    assert_eq!(
        error_log_line("pull", &SyncError::CloudSyncNetwork("dns".into()), "offline"),
        "pull failed kind=network phase=Offline: offline"
    );
}

#[test]
fn refreshed_session_takes_the_cached_profile() {
    let s = AuthSession {
        uid: "u".into(),
        access_token: "a".into(),
        refresh_token: "r".into(),
        access_token_expires_at: std::time::SystemTime::UNIX_EPOCH,
        email: None,
        display_name: Some("Live Name".into()),
        photo_url: None,
    };
    let s = restore_profile(s, Some("me@example.com".into()), Some("Cached".into()), None);
    assert_eq!(s.email.as_deref(), Some("me@example.com"));
    assert_eq!(s.display_name.as_deref(), Some("Live Name"));
    assert_eq!(s.photo_url, None);
    assert_eq!(s.refresh_token, "r");
}
