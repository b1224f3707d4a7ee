use crate_sync::config::{reversed_client_id, CloudConfig, Platform};
use crate_sync::error::SyncError;

#[test]
fn reversed_client_id_strips_suffix() {
    assert_eq!(
        reversed_client_id("123-abc.apps.googleusercontent.com"),
        "com.googleusercontent.apps.123-abc"
    );
}

#[test]
fn reversed_client_id_handles_bare_id() {
    // Idempotent-ish: an id without the suffix is just prefixed.
    assert_eq!(reversed_client_id("123-abc"), "com.googleusercontent.apps.123-abc");
}

fn core_config() -> CloudConfig {
    CloudConfig {
        project_id: "p".into(),
        web_api_key: "k".into(),
        storage_bucket: "b".into(),
        oauth_client_id: "cid".into(),
        oauth_client_secret: "secret".into(),
        ios_oauth_client_id: None,
        android_oauth_client_id: None,
        firebase_ios_app_id: None,
        firebase_android_app_id: None,
        appcheck_debug_token: None,
    }
}

#[test]
fn config_without_mobile_keys_is_complete() {
    let config = core_config();
    assert!(config.is_complete());
    assert!(config.ios_oauth_client_id.is_none());
    assert!(config.android_oauth_client_id.is_none());
}

#[test]
fn blank_core_field_makes_config_incomplete() {
    let mut c = core_config();
    c.storage_bucket = " \t\n".into();
    assert!(!c.is_complete());
    let mut c = core_config();
    c.oauth_client_secret = String::new();
    assert!(!c.is_complete());
    let mut c = core_config();
    c.project_id = "\u{3000}".into();
    assert!(!c.is_complete());
}

#[test]
fn mobile_client_per_platform() {
    let mut c = core_config();
    c.ios_oauth_client_id = Some("ios.apps.googleusercontent.com".into());
    c.android_oauth_client_id = Some("   ".into());
    assert_eq!(
        c.mobile_client(Platform::Ios).unwrap(),
        ("ios.apps.googleusercontent.com".to_string(), "com.googleusercontent.apps.ios".to_string())
    );
    assert_eq!(
        c.mobile_client(Platform::Android),
        Err(SyncError::CloudSync("mobile OAuth client id not configured".into()))
    );
    assert!(c.mobile_client(Platform::Other).is_err());
}

#[test]
fn firebase_app_id_prefers_platform_then_ios() {
    let mut c = core_config();
    assert_eq!(c.firebase_app_id(Platform::Other), None);
    c.firebase_android_app_id = Some("1:2:android:b".into());
    assert_eq!(c.firebase_app_id(Platform::Other), Some("1:2:android:b"));
    assert_eq!(c.firebase_app_id(Platform::Ios), None);
    c.firebase_ios_app_id = Some("1:2:ios:a".into());
    assert_eq!(c.firebase_app_id(Platform::Other), Some("1:2:ios:a"));
    assert_eq!(c.firebase_app_id(Platform::Android), Some("1:2:android:b"));
}
