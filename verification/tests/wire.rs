use crate_sync::buckets::{Bucket, BucketKind};
use crate_sync::error::SyncError;
use crate_sync::dirty::junction_entity_id;
use crate_sync::wire::{canonical_id, parse_bucket, plan_emission, write_tombstone, EmitChoice};

fn pairs(v: &[(&str, &str)]) -> Vec<(String, String)> {
    v.iter().map(|(a, b)| (a.to_string(), b.to_string())).collect()
}

#[test]
fn entity_tie_goes_to_the_tombstone() {
    let live = pairs(&[("b", "05"), ("a", "03")]);
    let tombs = pairs(&[("a", "03"), ("c", "01")]);
    let plan = plan_emission(BucketKind::Entity, &live, &tombs);
    assert_eq!(
        plan,
        vec![
            ("a".to_string(), EmitChoice::Dead("03".into())),
            ("b".to_string(), EmitChoice::Live(0)),
            ("c".to_string(), EmitChoice::Dead("01".into())),
        ]
    );
}

#[test]
fn junction_tie_keeps_the_live_link() {
    let live = pairs(&[("a|b", "03")]);
    let tombs = pairs(&[("a|b", "03")]);
    let plan = plan_emission(BucketKind::Junction, &live, &tombs);
    assert_eq!(plan, vec![("a|b".to_string(), EmitChoice::Live(0))]);
    let newer = pairs(&[("a|b", "04")]);
    let plan = plan_emission(BucketKind::Junction, &live, &newer);
    assert_eq!(plan, vec![("a|b".to_string(), EmitChoice::Dead("04".into()))]);
}

#[test]
fn later_rows_replace_earlier_ones_for_an_id() {
    let live = pairs(&[("x", "01"), ("x", "02")]);
    let tombs = pairs(&[("y", "05"), ("y", "04"), ("y", "06")]);
    let plan = plan_emission(BucketKind::Entity, &live, &tombs);
    assert_eq!(
        plan,
        vec![
            ("x".to_string(), EmitChoice::Live(1)),
            ("y".to_string(), EmitChoice::Dead("06".into())),
        ]
    );
}

#[test]
fn entity_tombstone_bytes() {
    let row = write_tombstone(&Bucket::Playlists, "p\"1", "00ff").unwrap();
    assert_eq!(row, r#"{"id":"p\"1","_hlc":"00ff","_deleted":true}"#);
}

#[test]
fn junction_tombstone_bytes_use_key_columns() {
    assert_eq!(
        write_tombstone(&Bucket::TrackTags, "t1|g1", "01").unwrap(),
        r#"{"track_id":"t1","tag_id":"g1","_hlc":"01","_deleted":true}"#
    );
    assert_eq!(
        write_tombstone(&Bucket::PlaylistDiscoveryReleases, "p|r", "02").unwrap(),
        r#"{"playlist_id":"p","release_id":"r","_hlc":"02","_deleted":true}"#
    );
}

#[test]
fn malformed_junction_id_is_an_error() {
    assert_eq!(
        write_tombstone(&Bucket::PlaylistTracks, "nobar", "01"),
        Err(SyncError::CloudSync("malformed junction id \"nobar\"".into()))
    );
}

#[test]
fn control_characters_are_escaped_like_serde_json() {
    let row = write_tombstone(&Bucket::Tags, "a\u{1}\n\\", "x").unwrap();
    assert_eq!(row, "{\"id\":\"a\\u0001\\n\\\\\",\"_hlc\":\"x\",\"_deleted\":true}");
}

#[test]
fn parse_extracts_meta_and_validates_pk() {
    let bytes = b"{\"id\":\"x\",\"name\":\"n\",\"_hlc\":\"00\",\"_deleted\":false}\n\
                  {\"id\":\"y\",\"_hlc\":\"01\",\"_deleted\":true}\n";
    let rows = parse_bucket(&Bucket::LibraryRoots, bytes).unwrap();
    assert_eq!(rows.len(), 2);
    assert_eq!(rows[0].hlc, "00");
    assert!(!rows[0].deleted);
    assert_eq!(rows[1].hlc, "01");
    assert!(rows[1].deleted);
}

#[test]
fn parse_rejects_row_missing_pk() {
    let bytes = b"{\"name\":\"n\",\"_hlc\":\"00\"}\n";
    assert!(parse_bucket(&Bucket::LibraryRoots, bytes).is_err());
}

#[test]
fn canonical_id_entity_and_junction() {
    let v = br#"{"id": "abc"}"#;
    assert_eq!(canonical_id(&Bucket::Playlists, v).unwrap(), "abc");
    let v = br#"{"track_id": "t1", "tag_id": "g1"}"#;
    assert_eq!(canonical_id(&Bucket::TrackTags, v).unwrap(), junction_entity_id("t1", "g1"));
}

#[test]
fn parse_defaults_and_errors() {
    let rows = parse_bucket(&Bucket::Tags, b"\n{\"id\":\"t\"}\n\n").unwrap();
    assert_eq!(rows.len(), 1);
    assert_eq!(rows[0].hlc, "");
    assert!(!rows[0].deleted);
    assert_eq!(rows[0].json, b"{\"id\":\"t\"}".to_vec());
    assert!(parse_bucket(&Bucket::Tags, b"").unwrap().is_empty());
    match parse_bucket(&Bucket::Tags, b"{not json\n") {
        Err(SyncError::CloudSync(m)) => assert!(m.starts_with("bad JSONL row: "), "{m}"),
        other => panic!("unexpected {other:?}"),
    }
    assert_eq!(
        parse_bucket(&Bucket::TrackTags, b"{\"track_id\":\"t\"}\n").unwrap_err(),
        SyncError::CloudSync("row missing PK column \"tag_id\" in bucket track_tags".into())
    );
}

#[test]
fn tombstone_id_is_escaped_exactly_as_serde_json_writes_it() {
    let mut id = String::new();
    for b in 0u8..0x80 {
        id.push(b as char);
    }
    id.push_str("é\u{7f}\u{2028}\u{1F600}");
    let row = write_tombstone(&Bucket::Tags, &id, "01").unwrap();
    let expected = format!(
        "{{\"id\":{},\"_hlc\":\"01\",\"_deleted\":true}}",
        serde_json::to_string(&id).unwrap()
    );
    assert_eq!(row, expected);
}
