use crate_sync::rows::{bucket_hash, PlaylistRow};

#[test]
fn bucket_hash_is_deterministic() {
    assert_eq!(bucket_hash(b"abc"), bucket_hash(b"abc"));
    assert_ne!(bucket_hash(b"abc"), bucket_hash(b"abd"));
    // An empty bucket hashes to a stable fixed value.
    assert_eq!(bucket_hash(b""), bucket_hash(b""));
}

#[test]
fn bucket_hash_is_blake3_hex() {
    // The published blake3 digest of the empty input.
    assert_eq!(
        bucket_hash(b""),
        "af1349b9f5f9a1a6a0404dea36dcc9499bcb25c9adc112b7cc9a93cae41f3262"
    );
    let h = bucket_hash(b"abc");
    assert_eq!(h.len(), 64);
    assert!(h.chars().all(|c| c.is_ascii_digit() || ('a'..='f').contains(&c)));
}

#[test]
fn playlist_row_duplicate_is_equal() {
    let p = PlaylistRow {
        id: "p".into(),
        name: "n".into(),
        parent_id: Some("q".into()),
        is_folder: true,
        is_smart: false,
        smart_rules: None,
        sort_order: 3,
        context: "c".into(),
        date_created: "d".into(),
        date_modified: "e".into(),
    };
    let d = p.duplicate();
    assert_eq!(d.id, p.id);
    assert_eq!(d.parent_id, p.parent_id);
    assert_eq!(d.sort_order, 3);
}
