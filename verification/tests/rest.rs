use crate_sync::error::SyncError;
use crate_sync::rest::{http_error, sanitize_error_code};

#[test]
fn prefers_firestore_status_token() {
    let body = r#"{"error":{"code":403,"message":"Missing or insufficient permissions.","status":"PERMISSION_DENIED"}}"#;
    assert_eq!(sanitize_error_code(body), "PERMISSION_DENIED");
}

#[test]
fn prefers_auth_message_token() {
    let body = r#"{"error":{"code":400,"message":"INVALID_REFRESH_TOKEN","status":"INVALID_ARGUMENT"}}"#;
    assert_eq!(sanitize_error_code(body), "INVALID_REFRESH_TOKEN");
    let with_detail = r#"{"error":{"code":400,"message":"TOKEN_EXPIRED : detail text"}}"#;
    assert_eq!(sanitize_error_code(with_detail), "TOKEN_EXPIRED");
}

#[test]
fn strips_urls_and_keys_from_fallback() {
    let body = r#"{"error":{"message":"request to https://firestore.googleapis.com/v1/x?key=SECRET123 failed badly"}}"#;
    let out = sanitize_error_code(body);
    assert!(!out.contains("http"), "{out}");
    assert!(!out.contains("SECRET123"), "{out}");
    assert!(out.contains("request"), "{out}");
}

#[test]
fn truncates_long_plain_bodies() {
    let body = "y".repeat(500);
    let out = sanitize_error_code(&body);
    assert!(out.chars().count() <= 121); // 120 + ellipsis
}

#[test]
fn fallback_text_is_exact() {
    let body = r#"{"error":{"message":"request to https://x.example/y failed   key=abc badly"}}"#;
    assert_eq!(sanitize_error_code(body), "request to failed badly");
    assert_eq!(sanitize_error_code("  plain\ttext\n body "), "plain text body");
    let long = "y".repeat(500);
    assert_eq!(sanitize_error_code(&long), format!("{}\u{2026}", "y".repeat(120)));
    assert_eq!(sanitize_error_code(&"z".repeat(120)), "z".repeat(120));
}

#[test]
fn lowercase_or_long_message_is_not_a_token() {
    let body = r#"{"error":{"message":"Not_A_Token"}}"#;
    assert_eq!(sanitize_error_code(body), "Not_A_Token");
    let long = format!(r#"{{"error":{{"message":"{}","status":"FALLBACK"}}}}"#, "A".repeat(65));
    assert_eq!(sanitize_error_code(&long), "FALLBACK");
    let exact = format!(r#"{{"error":{{"message":"{}"}}}}"#, "A".repeat(64));
    assert_eq!(sanitize_error_code(&exact), "A".repeat(64));
}

#[test]
fn http_error_carries_status_and_code() {
    let e = http_error("manifest read", 403, r#"{"error":{"status":"PERMISSION_DENIED"}}"#);
    assert_eq!(
        e,
        SyncError::CloudSyncHttp {
            context: "manifest read".into(),
            status: 403,
            code: "PERMISSION_DENIED".into()
        }
    );
    assert!(!e.is_transient());
    assert!(http_error("x", 503, "").is_transient());
    assert!(http_error("x", 429, "").is_transient());
}
