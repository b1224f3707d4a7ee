use crate_sync::dirty::{junction_entity_id, split_junction_id};
use crate_sync::hlc::Hlc;
use crate_sync::merge::{
    decide_entity, decide_junction, decide_setting, detect_override, hlc_ge, hlc_gt,
    is_local_authorship, EntityAction, JunctionAction,
};

fn h(wall: u64) -> String {
    Hlc::new(wall, 0, 0xA).format()
}

#[test]
fn entity_decisions_follow_delete_wins_tie() {
    assert_eq!(decide_entity(None, None, &h(5), false), EntityAction::Insert);
    assert_eq!(decide_entity(Some(&h(5)), None, &h(6), false), EntityAction::Replace);
    assert_eq!(decide_entity(Some(&h(5)), None, &h(4), false), EntityAction::Keep);
    assert_eq!(decide_entity(Some(&h(5)), None, &h(5), false), EntityAction::Keep);
    assert_eq!(decide_entity(Some(&h(5)), None, &h(6), true), EntityAction::Delete);
    assert_eq!(decide_entity(Some(&h(5)), None, &h(4), true), EntityAction::Keep);
    // Delete at an equal stamp wins.
    assert_eq!(decide_entity(Some(&h(5)), None, &h(5), true), EntityAction::Delete);
    // Resurrection needs a strictly newer upsert.
    assert_eq!(decide_entity(None, Some(&h(5)), &h(6), false), EntityAction::Resurrect);
    assert_eq!(decide_entity(None, Some(&h(5)), &h(5), false), EntityAction::Keep);
    assert_eq!(decide_entity(None, None, &h(5), true), EntityAction::RecordTombstone);
}

#[test]
fn junction_decisions_follow_add_wins_tie() {
    assert_eq!(decide_junction(None, None, &h(5), false, true, true), JunctionAction::Insert);
    assert_eq!(decide_junction(None, None, &h(5), false, true, false), JunctionAction::SkipOrphan);
    assert_eq!(decide_junction(Some(&h(5)), None, &h(6), false, true, true), JunctionAction::UpdateOrdering);
    assert_eq!(decide_junction(Some(&h(5)), None, &h(6), false, false, true), JunctionAction::AdvanceHlc);
    // A delete must be strictly newer than the add.
    assert_eq!(decide_junction(Some(&h(5)), None, &h(5), true, true, true), JunctionAction::Keep);
    assert_eq!(decide_junction(Some(&h(5)), None, &h(6), true, true, true), JunctionAction::Delete);
    // An add at the tombstone's stamp resurrects.
    assert_eq!(decide_junction(None, Some(&h(5)), &h(5), false, true, true), JunctionAction::Resurrect);
    assert_eq!(decide_junction(None, Some(&h(5)), &h(4), false, true, true), JunctionAction::Keep);
    assert_eq!(decide_junction(None, None, &h(5), true, true, true), JunctionAction::RecordTombstone);
}

#[test]
fn settings_apply_only_whitelisted_newer() {
    assert!(decide_setting("theme", Some(&h(1)), &h(2)));
    assert!(decide_setting("theme", None, &h(2)));
    assert!(!decide_setting("theme", Some(&h(2)), &h(1)));
    assert!(!decide_setting("theme", Some(&h(2)), &h(2)));
    assert!(!decide_setting("window_size", None, &h(2)));
}

#[test]
fn stamps_compare_as_strings() {
    assert!(hlc_ge(&h(2), &h(2)));
    assert!(hlc_gt(&h(3), &h(2)));
    assert!(!hlc_gt(&h(2), &h(2)));
    assert!(hlc_gt(&h(0), ""));
}

#[test]
fn overrides_are_reported_only_for_local_authorship() {
    let mine = Hlc::new(7, 0, 0x1234).format();
    assert!(is_local_authorship(&mine, Some("00001234")));
    assert!(!is_local_authorship(&mine, Some("00005678")));
    assert!(!is_local_authorship("", Some("00001234")));
    assert!(!is_local_authorship(&mine, None));
    let ev = detect_override(&mine, Some("00001234"), None, "cid-1").unwrap();
    assert_eq!(ev.label, "cid-1");
    assert_eq!(ev.winner_device_id, "");
    let ev = detect_override(&mine, Some("00001234"), Some("My List".into()), "cid-1").unwrap();
    assert_eq!(ev.label, "My List");
    assert!(detect_override(&mine, Some("0000abcd"), None, "cid-1").is_none());
}

#[test]
fn junction_ids_roundtrip() {
    let id = junction_entity_id("t1", "g1");
    assert_eq!(id, "t1|g1");
    assert_eq!(split_junction_id(&id), Some(("t1", "g1")));
    assert_eq!(split_junction_id("nobar"), None);
    assert_eq!(split_junction_id("a|b|c"), Some(("a", "b|c")));
}
