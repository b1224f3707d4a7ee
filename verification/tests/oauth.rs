use base64::Engine;
use sha2::Digest;
use crate_sync::error::SyncError;
use crate_sync::oauth::{
    callback_outcome, code_challenge, parse_query, percent_decode, percent_encode, random_b64url,
    AuthRequestParams, CallbackResult, GoogleProvider,
};
use crate_sync::oauth::{flow_code, loopback_redirect_uri, FlowWait};
use crate_sync::oauth::{token_exchange_error, token_exchange_form};
use crate_sync::oauth::{check_pending, enabled_providers, mobile_redirect_uri, provider_by_id, unknown_provider, PendingAuth};

#[test]
fn percent_encode_keeps_unreserved_and_escapes_the_rest() {
    assert_eq!(percent_encode("aZ09-_.~"), "aZ09-_.~");
    assert_eq!(percent_encode("a b/c"), "a%20b%2Fc");
    assert_eq!(percent_encode("é"), "%C3%A9");
    assert_eq!(percent_encode(""), "");
}

#[test]
fn percent_decode_handles_plus_escapes_and_bad_escapes() {
    assert_eq!(percent_decode("a+b%2Fc"), "a b/c");
    assert_eq!(percent_decode("%C3%A9"), "é");
    assert_eq!(percent_decode("%zz"), "%zz");
    // An escape needs both hex digits.
    assert_eq!(percent_decode("%41"), "A");
    assert_eq!(percent_decode("%4"), "%4");
    assert_eq!(percent_decode("%FF"), "\u{FFFD}");
}

#[test]
fn query_parsing_decodes_and_last_key_wins() {
    let q = parse_query("code=abc%2F1&state=s&&=skipped&state=t&flag");
    assert_eq!(q.get("code").map(String::as_str), Some("abc/1"));
    assert_eq!(q.get("state").map(String::as_str), Some("t"));
    assert_eq!(q.get("flag").map(String::as_str), Some(""));
    assert_eq!(q.get("missing"), None);
    assert_eq!(q.len(), 3);
}

#[test]
fn callback_decisions() {
    assert_eq!(callback_outcome(Some("code=c1&state=xyz"), "xyz"), CallbackResult::Code("c1".into()));
    assert_eq!(
        callback_outcome(Some("error=access_denied&state=xyz"), "xyz"),
        CallbackResult::Error("access_denied".into())
    );
    assert_eq!(
        callback_outcome(Some("code=c1&state=other"), "xyz"),
        CallbackResult::Error("state mismatch".into())
    );
    assert_eq!(
        callback_outcome(Some("state=xyz"), "xyz"),
        CallbackResult::Error("missing authorization code".into())
    );
    assert_eq!(callback_outcome(None, "xyz"), CallbackResult::Error("state mismatch".into()));
}

#[test]
fn pkce_challenge_matches_rfc7636_example() {
    // RFC 7636 appendix B.
    assert_eq!(
        code_challenge("dBjftJeZ4CVP-mB92K27uhbUJU1p1r_wW1gFWFOEjXk"),
        "E9Melhoa2OwvFrEMTJguCHaoeK1t8URWbuGJSstw-cM"
    );
}

#[test]
fn random_tokens_have_base64url_shape() {
    let v = random_b64url(32);
    assert_eq!(v.len(), 43);
    assert!(v.chars().all(|c| c.is_ascii_alphanumeric() || c == '-' || c == '_'));
    assert_eq!(random_b64url(16).len(), 22);
    assert_eq!(random_b64url(0), "");
}

#[test]
fn google_provider_constants_and_url() {
    let g = GoogleProvider::new();
    assert_eq!(g.id(), "google");
    assert_eq!(g.display_name(), "Google");
    assert_eq!(g.firebase_provider_id(), "google.com");
    assert_eq!(g.scopes(), vec!["openid", "email", "profile"]);
    assert_eq!(g.token_endpoint(), "https://oauth2.googleapis.com/token");
    let url = g.authorization_url(&AuthRequestParams {
        client_id: "cid",
        redirect_uri: "http://127.0.0.1:5000",
        code_challenge: "ch",
        state: "st",
    });
    assert_eq!(
        url,
        "https://accounts.google.com/o/oauth2/v2/auth?response_type=code&client_id=cid\
&redirect_uri=http%3A%2F%2F127.0.0.1%3A5000&scope=openid%20email%20profile\
&code_challenge=ch&code_challenge_method=S256&state=st"
    );
}

#[test]
fn id_token_extraction() {
    let g = GoogleProvider::new();
    assert_eq!(g.extract_id_token(r#"{"id_token":"tok","access_token":"a"}"#), Ok("tok".to_string()));
    assert_eq!(
        g.extract_id_token(r#"{"access_token":"a"}"#),
        Err(SyncError::CloudSyncAuth("token response missing id_token".into()))
    );
    assert!(g.extract_id_token(r#"{"id_token":5}"#).is_err());
    assert!(g.extract_id_token("not json").is_err());
}

#[test]
fn loopback_flow_outcomes() {
    assert_eq!(loopback_redirect_uri(0), "http://127.0.0.1:0");
    assert_eq!(loopback_redirect_uri(54321), "http://127.0.0.1:54321");
    assert_eq!(flow_code(FlowWait::Redirect(CallbackResult::Code("abc".into()))), Ok("abc".to_string()));
    assert_eq!(
        flow_code(FlowWait::Redirect(CallbackResult::Error("access_denied".into()))),
        Err(SyncError::CloudSyncAuth("authorization failed: access_denied".into()))
    );
    assert_eq!(flow_code(FlowWait::Canceled), Err(SyncError::CloudSyncAuth("sign-in canceled".into())));
    assert_eq!(flow_code(FlowWait::TimedOut), Err(SyncError::CloudSyncAuth("sign-in timed out".into())));
}

#[test]
fn token_exchange_request_and_refusal() {
    let form = token_exchange_form("c0de", "cid", "sec", "http://127.0.0.1:9", "ver");
    let pairs: Vec<(&str, &str)> = form.iter().map(|(k, v)| (*k, v.as_str())).collect();
    assert_eq!(
        pairs,
        vec![
            ("grant_type", "authorization_code"),
            ("code", "c0de"),
            ("client_id", "cid"),
            ("client_secret", "sec"),
            ("redirect_uri", "http://127.0.0.1:9"),
            ("code_verifier", "ver"),
        ]
    );
    assert_eq!(
        token_exchange_error("400 Bad Request", "{\"error\":\"invalid_grant\"}"),
        SyncError::CloudSyncAuth("token exchange HTTP 400 Bad Request: {\"error\":\"invalid_grant\"}".into())
    );
}

#[test]
fn providers_and_mobile_callback() {
    assert_eq!(enabled_providers().len(), 1);
    assert_eq!(provider_by_id("google").map(|p| p.id()), Some("google"));
    assert!(provider_by_id("apple").is_none());
    assert_eq!(unknown_provider("apple"), SyncError::CloudSyncAuth("unknown provider apple".into()));
    assert_eq!(
        mobile_redirect_uri("com.googleusercontent.apps.123-abc"),
        "com.googleusercontent.apps.123-abc:/oauth2redirect"
    );
    let pending = || PendingAuth { provider_id: "google".into(), state: "s1".into(), verifier: "v".into() };
    assert_eq!(check_pending(Some(pending()), "s1").map(|p| p.verifier), Ok("v".to_string()));
    assert_eq!(
        check_pending(Some(pending()), "s2").map(|p| p.verifier),
        Err(SyncError::CloudSyncAuth("state mismatch".into()))
    );
    assert_eq!(
        check_pending(None, "s1").map(|p| p.verifier),
        Err(SyncError::CloudSyncAuth("no sign-in in progress".into()))
    );
}

#[test]
fn percent_decode_keeps_truncated_and_invalid_escapes() {
    assert_eq!(percent_decode("a%20b+c%2"), "a b c%2");
    assert_eq!(percent_decode("%4a%4A%zz"), "JJ%zz");
    for s in ["", "a/b c", "é&=+%", "x\u{1F600}y"] {
        assert_eq!(percent_decode(&percent_encode(s)), s);
    }
}

#[test]
fn query_parsing_skips_empty_pieces_and_keys() {
    let q = parse_query("code=a%2Fb&state=xyz&&=skip&flag&k=1&k=2");
    assert_eq!(q.get("code").map(|s| s.as_str()), Some("a/b"));
    assert_eq!(q.get("state").map(|s| s.as_str()), Some("xyz"));
    assert_eq!(q.get("flag").map(|s| s.as_str()), Some(""));
    assert_eq!(q.get("k").map(|s| s.as_str()), Some("2"));
    assert_eq!(q.get(""), None);
    assert_eq!(q.len(), 4);
}

#[test]
fn base64url_tails_have_two_or_three_digits() {
    for (n, len) in [(1, 2), (2, 3), (3, 4), (4, 6), (5, 7), (6, 8)] {
        let v = random_b64url(n);
        assert_eq!(v.len(), len);
        assert!(v.chars().all(|c| c.is_ascii_alphanumeric() || c == '-' || c == '_'));
    }
    // Known challenge of a verifier: base64url of its SHA-256, checked against an
    // independent encoder.
    let verifier = "abc-123_xyz";
    let digest = sha2::Sha256::digest(verifier.as_bytes());
    assert_eq!(code_challenge(verifier), base64::engine::general_purpose::URL_SAFE_NO_PAD.encode(digest));
}
