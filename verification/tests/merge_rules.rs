//! The merge truth table, one remote row against a chosen local state, with
//! zero-padded stamps so string order is numeric order. Each case asserts what the
//! merge does to the row.
use crate_sync::merge::{decide_entity, decide_junction, decide_setting, detect_override, EntityAction, JunctionAction};
use crate_sync::merge_sql::{is_skippable_constraint, SQLITE_CONSTRAINT_UNIQUE};

#[test]
fn entity_insert_when_absent() {
    assert_eq!(decide_entity(None, None, "0005", false), EntityAction::Insert);
}

#[test]
fn entity_replace_when_remote_newer() {
    assert_eq!(decide_entity(Some("0005"), None, "0009", false), EntityAction::Replace);
}

#[test]
fn entity_keep_when_remote_older() {
    assert_eq!(decide_entity(Some("0009"), None, "0005", false), EntityAction::Keep);
}

#[test]
fn entity_noop_when_equal_hlc() {
    assert_eq!(decide_entity(Some("0005"), None, "0005", false), EntityAction::Keep);
}

#[test]
fn entity_delete_when_remote_newer() {
    assert_eq!(decide_entity(Some("0005"), None, "0009", true), EntityAction::Delete);
}

#[test]
fn entity_keep_when_delete_older() {
    assert_eq!(decide_entity(Some("0009"), None, "0005", true), EntityAction::Keep);
}

#[test]
fn entity_delete_wins_tie() {
    assert_eq!(decide_entity(Some("0007"), None, "0007", true), EntityAction::Delete);
}

#[test]
fn entity_resurrect_when_update_newer_than_tombstone() {
    assert_eq!(decide_entity(None, Some("0010"), "0020", false), EntityAction::Resurrect);
}

#[test]
fn entity_stays_deleted_when_update_older_than_tombstone() {
    assert_eq!(decide_entity(None, Some("0020"), "0010", false), EntityAction::Keep);
}

#[test]
fn entity_records_tombstone_when_never_seen() {
    assert_eq!(decide_entity(None, None, "0009", true), EntityAction::RecordTombstone);
}

#[test]
fn entity_merge_is_idempotent() {
    // First pass: c1 inserted at 0005, c2's tombstone recorded at 0006.
    assert_eq!(decide_entity(None, None, "0005", false), EntityAction::Insert);
    assert_eq!(decide_entity(None, None, "0006", true), EntityAction::RecordTombstone);
    // Second pass over the same rows against the state the first left.
    assert_eq!(decide_entity(Some("0005"), None, "0005", false), EntityAction::Keep);
    assert_eq!(decide_entity(None, Some("0006"), "0006", true), EntityAction::RecordTombstone);
}

#[test]
fn entity_unique_collision_is_skipped_not_fatal() {
    // Both remote rows are new here; the one colliding on a secondary UNIQUE column is
    // skipped, the other still merges.
    assert_eq!(decide_entity(None, None, "0009", false), EntityAction::Insert);
    assert!(is_skippable_constraint(SQLITE_CONSTRAINT_UNIQUE));
    assert!(!is_skippable_constraint(787));
}

#[test]
fn junction_insert_when_endpoints_exist() {
    assert_eq!(decide_junction(None, None, "0005", false, false, true), JunctionAction::Insert);
}

#[test]
fn junction_orphan_insert_is_skipped() {
    assert_eq!(decide_junction(None, None, "0005", false, false, false), JunctionAction::SkipOrphan);
}

#[test]
fn junction_add_wins_over_older_delete() {
    assert_eq!(decide_junction(None, Some("0010"), "0020", false, false, true), JunctionAction::Resurrect);
}

#[test]
fn junction_delete_wins_only_when_strictly_newer() {
    assert_eq!(decide_junction(Some("0010"), None, "0005", true, false, true), JunctionAction::Keep);
    assert_eq!(decide_junction(Some("0010"), None, "0020", true, false, true), JunctionAction::Delete);
}

#[test]
fn junction_delete_tie_keeps_add() {
    assert_eq!(decide_junction(Some("0010"), None, "0010", true, false, true), JunctionAction::Keep);
}

#[test]
fn settings_apply_whitelisted_newer() {
    assert!(decide_setting("theme", None, "0005"));
}

#[test]
fn settings_drop_non_whitelisted() {
    assert!(!decide_setting("audio_device", None, "0009"));
}

#[test]
fn settings_keep_local_when_older() {
    assert!(!decide_setting("theme", Some("0009"), "0005"));
}

#[test]
fn override_reported_when_local_authored_value_is_replaced() {
    let local = "0000000000000005-00000000-aabbccdd";
    let remote = "0000000000000006-00000000-11223344";
    assert_eq!(decide_entity(Some(local), None, remote, false), EntityAction::Replace);
    let ev = detect_override(local, Some("aabbccdd"), Some("House".into()), "c1").expect("override");
    assert_eq!(ev.label, "House");
    assert_eq!(ev.winner_device_id, "");
}

#[test]
fn no_override_when_local_value_authored_elsewhere() {
    let local = "0000000000000005-00000000-99999999";
    let remote = "0000000000000006-00000000-11223344";
    assert_eq!(decide_entity(Some(local), None, remote, false), EntityAction::Replace);
    assert!(detect_override(local, Some("aabbccdd"), Some("House".into()), "c1").is_none());
}

/// One entity's local state as the database holds it: the live row's stamp and value,
/// or the tombstone's stamp.
#[derive(Clone, Debug, PartialEq)]
enum Local {
    Empty,
    Live(String, String),
    Dead(String),
}

fn merge_one(local: Local, (h, deleted, v): (&str, bool, &str)) -> Local {
    let (live, tomb) = match &local {
        Local::Live(l, _) => (Some(l.as_str()), None),
        Local::Dead(t) => (None, Some(t.as_str())),
        Local::Empty => (None, None),
    };
    match decide_entity(live, tomb, h, deleted) {
        EntityAction::Keep => local,
        EntityAction::Insert | EntityAction::Resurrect | EntityAction::Replace => Local::Live(h.into(), v.into()),
        EntityAction::Delete | EntityAction::RecordTombstone => {
            let t = match tomb {
                Some(t) if t > h => t.to_string(),
                _ => h.to_string(),
            };
            Local::Dead(t)
        }
    }
}

#[test]
fn merge_order_does_not_matter() {
    let rows = [("0005", false, "House"), ("0007", true, ""), ("0006", false, "Techno"), ("0009", false, "Disco")];
    let orders = [[0, 1, 2, 3], [3, 2, 1, 0], [1, 3, 0, 2], [2, 0, 3, 1]];
    let results: Vec<Local> = orders
        .iter()
        .map(|o| o.iter().fold(Local::Empty, |acc, &i| merge_one(acc, rows[i])))
        .collect();
    assert!(results.iter().all(|r| *r == Local::Live("0009".into(), "Disco".into())));
    let without_last: Vec<Local> = [[0, 1, 2], [2, 1, 0], [1, 0, 2]]
        .iter()
        .map(|o| o.iter().fold(Local::Empty, |acc, &i| merge_one(acc, rows[i])))
        .collect();
    assert!(without_last.iter().all(|r| *r == Local::Dead("0007".into())));
}

/// A local bucket state: per id, the live row's (stamp, payload) or the tombstone stamp.
#[derive(Clone, Debug, PartialEq)]
enum LocalSlot {
    Live(String, String),
    Dead(String),
}

fn merge_rows(
    state: &mut std::collections::BTreeMap<String, LocalSlot>,
    rows: &[(&str, &str, bool, &str)],
) {
    for &(id, hlc, deleted, payload) in rows {
        let slot = state.get(id).cloned();
        let (live, tomb) = match &slot {
            Some(LocalSlot::Live(h, _)) => (Some(h.as_str()), None),
            Some(LocalSlot::Dead(t)) => (None, Some(t.as_str())),
            None => (None, None),
        };
        let next = match decide_entity(live, tomb, hlc, deleted) {
            EntityAction::Keep => slot,
            EntityAction::Insert | EntityAction::Resurrect | EntityAction::Replace => {
                Some(LocalSlot::Live(hlc.into(), payload.into()))
            }
            EntityAction::Delete | EntityAction::RecordTombstone => {
                let t = match tomb {
                    Some(t) if t > hlc => t.to_string(),
                    _ => hlc.to_string(),
                };
                Some(LocalSlot::Dead(t))
            }
        };
        if let Some(n) = next {
            state.insert(id.into(), n);
        }
    }
}

#[test]
fn merging_a_bucket_twice_equals_merging_it_once() {
    let rows = [("c1", "0005", false, "House"), ("c2", "0006", true, ""), ("c1", "0004", false, "Old")];
    let mut state = std::collections::BTreeMap::new();
    state.insert("c2".to_string(), LocalSlot::Live("0003".into(), "Techno".into()));
    merge_rows(&mut state, &rows);
    let once = state.clone();
    assert_eq!(once.get("c1"), Some(&LocalSlot::Live("0005".into(), "House".into())));
    assert_eq!(once.get("c2"), Some(&LocalSlot::Dead("0006".into())));
    merge_rows(&mut state, &rows);
    assert_eq!(state, once);
}

#[test]
fn two_devices_converge_whichever_merges_first() {
    let mine = [("dev", "0010", false, "Laptop")];
    let theirs = [("dev", "0020", false, "Studio")];
    let mut a = std::collections::BTreeMap::new();
    let mut b = std::collections::BTreeMap::new();
    merge_rows(&mut a, &mine);
    merge_rows(&mut a, &theirs);
    merge_rows(&mut b, &theirs);
    merge_rows(&mut b, &mine);
    assert_eq!(a, b);
    assert_eq!(a.get("dev"), Some(&LocalSlot::Live("0020".into(), "Studio".into())));
}
