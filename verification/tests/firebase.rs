use crate_sync::config::CloudConfig;
use crate_sync::error::SyncError;
use crate_sync::firebase::{
    basename, commit_error, device_revoked, doc_json_field, manifest_etag, update_time, commit_url, compress_blob, decompress_blob, device_url, doc_name,
    download_url, etag_token, firestore_base, gc_doc_path, gc_entry_url, gc_list_url, is_conflict,
    list_url, manifest_doc_path, manifest_url, next_page_token, object_url, parse_project_number,
    select_due, storage_base, transfer_timeout_secs, upload_url, QueuedGcDoc,
};
use crate_sync::manifest::ManifestEtag;

fn config() -> CloudConfig {
    CloudConfig {
        project_id: "crate-prod".into(),
        web_api_key: "k".into(),
        storage_bucket: "crate-prod.appspot.com".into(),
        oauth_client_id: "cid".into(),
        oauth_client_secret: "secret".into(),
        ios_oauth_client_id: None,
        android_oauth_client_id: None,
        firebase_ios_app_id: None,
        firebase_android_app_id: None,
        appcheck_debug_token: None,
    }
}

#[test]
fn firestore_and_storage_urls() {
    let c = config();
    assert_eq!(
        firestore_base(&c),
        "https://firestore.googleapis.com/v1/projects/crate-prod/databases/(default)/documents"
    );
    assert_eq!(
        doc_name(&c, "users/u1/vault/manifest"),
        "projects/crate-prod/databases/(default)/documents/users/u1/vault/manifest"
    );
    assert_eq!(storage_base(&c), "https://firebasestorage.googleapis.com/v0/b/crate-prod.appspot.com/o");
    assert_eq!(manifest_doc_path("u1"), "users/u1/vault/manifest");
    assert_eq!(
        manifest_url(&c, "u1"),
        "https://firestore.googleapis.com/v1/projects/crate-prod/databases/(default)/documents/users/u1/vault/manifest"
    );
    assert_eq!(
        commit_url(&c),
        "https://firestore.googleapis.com/v1/projects/crate-prod/databases/(default)/documents:commit"
    );
    assert_eq!(gc_doc_path("u1", "g7"), "users/u1/gc_queue/g7");
    assert_eq!(
        gc_list_url(&c, "u1"),
        "https://firestore.googleapis.com/v1/projects/crate-prod/databases/(default)/documents/users/u1/gc_queue?pageSize=300"
    );
}

#[test]
fn ids_and_keys_are_percent_encoded() {
    let c = config();
    assert_eq!(
        device_url(&c, "u1", "dev 1/x"),
        "https://firestore.googleapis.com/v1/projects/crate-prod/databases/(default)/documents/users/u1/devices/dev%201%2Fx"
    );
    assert_eq!(
        gc_entry_url(&c, "u1", "a/b"),
        "https://firestore.googleapis.com/v1/projects/crate-prod/databases/(default)/documents/users/u1/gc_queue/a%2Fb"
    );
    let base = "https://firebasestorage.googleapis.com/v0/b/crate-prod.appspot.com/o";
    let key = "users/u1/vault/cues-ab.jsonl.gz";
    let enc = "users%2Fu1%2Fvault%2Fcues-ab.jsonl.gz";
    assert_eq!(upload_url(&c, key), format!("{base}?name={enc}"));
    assert_eq!(object_url(&c, key), format!("{base}/{enc}"));
    assert_eq!(download_url(&c, key), format!("{base}/{enc}?alt=media"));
    assert_eq!(
        list_url(&c, "users/u1/vault/", None),
        format!("{base}?prefix=users%2Fu1%2Fvault%2F&maxResults=1000")
    );
    assert_eq!(
        list_url(&c, "p", Some("t=1")),
        format!("{base}?prefix=p&maxResults=1000&pageToken=t%3D1")
    );
}

#[test]
fn conflict_detection() {
    assert!(is_conflict(409, ""));
    assert!(is_conflict(412, ""));
    assert!(is_conflict(400, "status FAILED_PRECONDITION"));
    assert!(!is_conflict(403, "status FAILED_PRECONDITION"));
    assert!(is_conflict(500, r#"{"status":"FAILED_PRECONDITION"}"#));
    assert!(is_conflict(500, r#"{"status":"ABORTED"}"#));
    assert!(!is_conflict(500, "ABORTED"));
    assert!(!is_conflict(400, "bad request"));
}

#[test]
fn commit_errors() {
    assert_eq!(commit_error(409, "409 Conflict", ""), SyncError::CloudSyncConflict);
    assert_eq!(
        commit_error(500, "500 Internal Server Error", "boom"),
        SyncError::CloudSync("manifest commit HTTP 500 Internal Server Error: boom".into())
    );
}

#[test]
fn etag_token_needs_a_server_token() {
    assert_eq!(etag_token(&ManifestEtag::token("2024-01-01T00:00:00Z".into())), Ok("2024-01-01T00:00:00Z".to_string()));
    assert_eq!(
        etag_token(&ManifestEtag::counter(3)),
        Err(SyncError::CloudSync("expected a server etag token".into()))
    );
}

#[test]
fn upload_deadline_scales_with_size() {
    assert_eq!(transfer_timeout_secs(0), 120);
    assert_eq!(transfer_timeout_secs(90 * 32768), 120);
    assert_eq!(transfer_timeout_secs(91 * 32768), 121);
    // An 8 MiB blob gets about four and a half minutes.
    assert_eq!(transfer_timeout_secs(8 * 1024 * 1024), 286);
}

#[test]
fn basename_is_the_last_segment() {
    assert_eq!(basename("users/u1/vault/cues-ab.jsonl.gz"), "cues-ab.jsonl.gz");
    assert_eq!(basename("plain"), "plain");
    assert_eq!(basename("ends/"), "");
    assert_eq!(basename(""), "");
}

#[test]
fn project_number_from_app_id() {
    assert_eq!(parse_project_number("1:1234567890:android:abcdef"), Ok(1234567890));
    assert_eq!(parse_project_number("1:+42:android:x"), Ok(42));
    assert_eq!(parse_project_number("1:-9223372036854775808:x"), Ok(i64::MIN));
    assert_eq!(parse_project_number("1:9223372036854775807"), Ok(i64::MAX));
    for bad in ["1", "1:", "1:abc:android", "1:9223372036854775808:x", "1:-:x", "1: 12:x", "1:1_2:x"] {
        assert_eq!(
            parse_project_number(bad),
            Err(SyncError::CloudSync(format!("could not parse a project number from Firebase app id '{bad}'"))),
            "{bad}"
        );
    }
}

#[test]
fn blobs_round_trip_through_gzip() {
    let data = b"{\"id\":\"t1\",\"_hlc\":\"0000000000001-0000-n\"}\n".repeat(50);
    let gz = compress_blob(&data).unwrap();
    assert_eq!(&gz[..2], &[0x1f, 0x8b]);
    assert_ne!(gz, data);
    assert_eq!(decompress_blob(&gz).unwrap(), data);
    assert_eq!(decompress_blob(&compress_blob(b"").unwrap()).unwrap(), b"");
}

#[test]
fn garbage_does_not_gunzip() {
    assert!(matches!(decompress_blob(b"not gzip"), Err(SyncError::CloudSync(_))));
}

fn doc(name: Option<&str>, after: Option<u128>) -> QueuedGcDoc {
    QueuedGcDoc { name: name.map(|n| n.to_string()), delete_after_nanos: after }
}

#[test]
fn dequeue_picks_due_named_entries_in_order() {
    let docs = vec![
        doc(Some("projects/p/databases/(default)/documents/users/u/gc_queue/a"), Some(5)),
        doc(Some("projects/p/databases/(default)/documents/users/u/gc_queue/b"), Some(50)),
        doc(None, Some(1)),
        doc(Some("projects/p/databases/(default)/documents/users/u/gc_queue/c"), None),
        doc(Some("projects/p/databases/(default)/documents/users/u/gc_queue/d"), Some(10)),
        doc(Some("projects/p/databases/(default)/documents/users/u/gc_queue/e"), Some(0)),
    ];
    let picks: Vec<(usize, String)> = select_due(&docs, 10, 10).into_iter().map(|(i, id)| (i, id.0)).collect();
    assert_eq!(picks, vec![(0, "a".to_string()), (4, "d".to_string()), (5, "e".to_string())]);
    let two: Vec<usize> = select_due(&docs, 10, 2).into_iter().map(|(i, _)| i).collect();
    assert_eq!(two, vec![0, 4]);
    // A zero limit still yields the first due entry.
    let zero: Vec<usize> = select_due(&docs, 10, 0).into_iter().map(|(i, _)| i).collect();
    assert_eq!(zero, vec![0]);
    assert!(select_due(&docs, 0, 5).iter().all(|(i, _)| *i == 5));
}

#[test]
fn listing_continues_only_on_a_token() {
    assert_eq!(next_page_token(0, Some("t".into())), Some("t".to_string()));
    assert_eq!(next_page_token(0, Some(String::new())), None);
    assert_eq!(next_page_token(0, None), None);
    assert_eq!(next_page_token(998, Some("t".into())), Some("t".to_string()));
    assert_eq!(next_page_token(999, Some("t".into())), None);
}

#[test]
fn firestore_documents() {
    let doc = br#"{"name":"projects/p/databases/(default)/documents/users/u/devices/d1","fields":{"json":{"stringValue":"{\"device_id\":\"d1\"}"},"revoked":{"booleanValue":true}},"updateTime":"2026-01-02T03:04:05.123456Z"}"#;
    assert_eq!(doc_json_field(doc), Ok("{\"device_id\":\"d1\"}".to_string()));
    assert!(device_revoked(doc));
    assert_eq!(update_time(doc), Some("2026-01-02T03:04:05.123456Z".to_string()));
    assert_eq!(manifest_etag(doc), Ok(ManifestEtag::token("2026-01-02T03:04:05.123456Z".into())));
    let bare = br#"{"fields":{}}"#;
    assert_eq!(doc_json_field(bare), Err(SyncError::CloudSync("Firestore doc missing `json` field".into())));
    assert!(!device_revoked(bare));
    assert_eq!(update_time(bare), None);
    assert_eq!(manifest_etag(bare), Err(SyncError::CloudSync("manifest doc missing updateTime".into())));
    assert!(!device_revoked(br#"{"fields":{"revoked":{"booleanValue":false}}}"#));
    assert!(!device_revoked(b"not json"));
}
