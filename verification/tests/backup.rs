use crate_sync::backup::{check_backup_version, order_playlists, topological_sort_playlists};
use crate_sync::backup::{artwork_paths, decode_artwork, encode_artwork};
use crate_sync::error::SyncError;
use crate_sync::rows::PlaylistRow;

fn pl(id: &str, parent: Option<&str>) -> PlaylistRow {
    PlaylistRow {
        id: id.into(),
        name: id.to_uppercase(),
        parent_id: parent.map(str::to_string),
        is_folder: false,
        is_smart: false,
        smart_rules: None,
        sort_order: 0,
        context: String::new(),
        date_created: String::new(),
        date_modified: String::new(),
    }
}

#[test]
fn parents_come_before_children() {
    let ps = vec![pl("c", Some("b")), pl("b", Some("a")), pl("x", None), pl("a", None)];
    let sorted = topological_sort_playlists(&ps);
    let ids: Vec<&str> = sorted.iter().map(|p| p.id.as_str()).collect();
    assert_eq!(ids, vec!["x", "a", "b", "c"]);
    assert_eq!(sorted[1].name, "A");
}

#[test]
fn breadth_first_with_siblings_in_list_order() {
    let ps = vec![pl("r1", None), pl("k2", Some("r1")), pl("r2", None), pl("k1", Some("r2")), pl("g", Some("k2"))];
    assert_eq!(order_playlists(&ps), vec![0, 2, 1, 3, 4]);
}

#[test]
fn orphans_and_cycles_are_appended_in_list_order() {
    let ps = vec![
        pl("o", Some("missing")),
        pl("r", None),
        pl("c1", Some("c2")),
        pl("c2", Some("c1")),
    ];
    assert_eq!(order_playlists(&ps), vec![1, 0, 2, 3]);
    assert!(order_playlists(&[]).is_empty());
}

#[test]
fn only_format_version_one_is_restored() {
    assert_eq!(check_backup_version(1), Ok(()));
    assert_eq!(check_backup_version(2), Err(SyncError::Backup("Unsupported backup version: 2".into())));
    assert_eq!(check_backup_version(0), Err(SyncError::Backup("Unsupported backup version: 0".into())));
    assert_eq!(
        check_backup_version(4294967295),
        Err(SyncError::Backup("Unsupported backup version: 4294967295".into()))
    );
}

#[test]
fn artwork_paths_are_collected_once_each() {
    let tracks = vec![Some("artwork/a.webp".to_string()), None, Some("artwork/b.webp".to_string()), Some("artwork/a.webp".to_string())];
    let releases = vec![Some("artwork/b.webp".to_string()), Some("artwork/c.webp".to_string()), None];
    assert_eq!(artwork_paths(&tracks, &releases), vec!["artwork/a.webp", "artwork/b.webp", "artwork/c.webp"]);
    assert!(artwork_paths(&[None], &[]).is_empty());
}

#[test]
fn artwork_is_standard_base64_and_absent_when_nothing_was_read() {
    assert_eq!(encode_artwork(&[]), None);
    let files = vec![
        ("artwork/a.webp".to_string(), b"hi".to_vec()),
        ("artwork/b.webp".to_string(), vec![0xfb, 0xff, 0x00, 0x41]),
        ("artwork/c.webp".to_string(), Vec::new()),
    ];
    let m = encode_artwork(&files).unwrap();
    assert_eq!(
        m,
        vec![
            ("artwork/a.webp".to_string(), "aGk=".to_string()),
            ("artwork/b.webp".to_string(), "+/8AQQ==".to_string()),
            ("artwork/c.webp".to_string(), String::new()),
        ]
    );
}

#[test]
fn artwork_decoding_accepts_exactly_canonical_base64() {
    assert_eq!(decode_artwork("aGk="), Some(b"hi".to_vec()));
    assert_eq!(decode_artwork("+/8AQQ=="), Some(vec![0xfb, 0xff, 0x00, 0x41]));
    assert_eq!(decode_artwork(""), Some(Vec::new()));
    assert_eq!(decode_artwork("aGk"), None);
    assert_eq!(decode_artwork("aGl="), None);
    assert_eq!(decode_artwork("-_8="), None);
    assert_eq!(decode_artwork("not base64!"), None);
}
