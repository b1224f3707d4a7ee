use crate_sync::appcheck::{AppCheckState, AppCheckToken, APPCHECK_SKEW_NANOS};
use crate_sync::appcheck::{endpoint, for_platform, ProviderChoice};
use crate_sync::config::{CloudConfig, Platform};

#[test]
fn endpoint_builds_exchange_url() {
    assert_eq!(
        endpoint("proj", "1:2:ios:abc", "exchangeDebugToken"),
        "https://firebaseappcheck.googleapis.com/v1/projects/proj/apps/1:2:ios:abc:exchangeDebugToken"
    );
}

fn test_config() -> CloudConfig {
    CloudConfig {
        project_id: "p".into(),
        web_api_key: "k".into(),
        storage_bucket: "b".into(),
        oauth_client_id: "cid".into(),
        oauth_client_secret: "secret".into(),
        ios_oauth_client_id: None,
        android_oauth_client_id: None,
        firebase_ios_app_id: None,
        firebase_android_app_id: None,
        appcheck_debug_token: None,
    }
}

#[test]
fn for_platform_none_without_app_id() {
    // No Firebase app id configured → App Check inactive on every platform.
    let cfg = test_config();
    assert!(for_platform(&cfg, Platform::Other).is_none());
    assert!(for_platform(&cfg, Platform::Ios).is_none());
    assert!(for_platform(&cfg, Platform::Android).is_none());
}

#[test]
fn for_platform_debug_provider_when_token_set() {
    // App id + debug token → the debug provider on every platform.
    let mut cfg = test_config();
    cfg.firebase_ios_app_id = Some("1:1:ios:x".into());
    cfg.appcheck_debug_token = Some("dbg".into());
    for p in [Platform::Other, Platform::Ios] {
        assert_eq!(
            for_platform(&cfg, p),
            Some(ProviderChoice::Debug { app_id: "1:1:ios:x".into(), token: "dbg".into() })
        );
    }
}

#[test]
fn for_platform_none_on_desktop_with_app_id_but_no_debug_token() {
    // A Firebase app id alone must NOT activate App Check on desktop — only a debug token
    // does. On iOS the same config selects the native provider.
    let mut cfg = test_config();
    cfg.firebase_ios_app_id = Some("1:1:ios:x".into());
    assert!(for_platform(&cfg, Platform::Other).is_none());
    assert_eq!(
        for_platform(&cfg, Platform::Ios),
        Some(ProviderChoice::AppAttest { app_id: "1:1:ios:x".into() })
    );
}

#[test]
fn debug_token_is_trimmed_and_blank_ignored() {
    let mut cfg = test_config();
    cfg.firebase_android_app_id = Some("1:1:android:y".into());
    cfg.appcheck_debug_token = Some("  tok \n".into());
    assert_eq!(
        for_platform(&cfg, Platform::Android),
        Some(ProviderChoice::Debug { app_id: "1:1:android:y".into(), token: "tok".into() })
    );
    cfg.appcheck_debug_token = Some(" \t ".into());
    assert_eq!(
        for_platform(&cfg, Platform::Android),
        Some(ProviderChoice::PlayIntegrity { app_id: "1:1:android:y".into() })
    );
}

/// One request's worth of the cache in front of a provider: reuse, or mint and cache.
fn ensure_fresh(state: &mut AppCheckState, now: u128, ttl: u128, mints: &mut usize) -> String {
    if let Some(t) = state.fresh_token(now) {
        return t;
    }
    *mints += 1;
    state.store(AppCheckToken { token: "tok".into(), expires_at_nanos: now + ttl })
}

const SEC: u128 = 1_000_000_000;

#[test]
fn ensure_fresh_caches_until_skew() {
    let mut state = AppCheckState::new();
    let mut mints = 0;
    let now = 1_700_000_000 * SEC;
    assert_eq!(ensure_fresh(&mut state, now, 3600 * SEC, &mut mints), "tok");
    assert_eq!(ensure_fresh(&mut state, now, 3600 * SEC, &mut mints), "tok");
    assert_eq!(mints, 1);
}

#[test]
fn ensure_fresh_remints_when_within_skew() {
    let mut state = AppCheckState::new();
    let mut mints = 0;
    let now = 1_700_000_000 * SEC;
    ensure_fresh(&mut state, now, 60 * SEC, &mut mints);
    ensure_fresh(&mut state, now, 60 * SEC, &mut mints);
    assert_eq!(mints, 2);
}

#[test]
fn cached_token_is_served_until_the_skew() {
    let mut state = AppCheckState::new();
    assert_eq!(state.fresh_token(0), None);
    let exp = 10_000 * SEC;
    assert_eq!(state.store(AppCheckToken { token: "a".into(), expires_at_nanos: exp }), "a");
    assert_eq!(state.fresh_token(exp - APPCHECK_SKEW_NANOS - 1), Some("a".to_string()));
    assert_eq!(state.fresh_token(exp - APPCHECK_SKEW_NANOS), None);
    assert_eq!(state.fresh_token(exp + 1), None);
}
