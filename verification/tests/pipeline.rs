use crate_sync::manifest::{BucketEntry, Manifest};
use crate_sync::pipeline::{
    download_order, next_backoff, pull_step, GcAction, GcSweep, PullStep, FIRST_BACKOFF_MS,
    GC_MAX_TOTAL, MAX_BACKOFF_MS,
};
use crate_sync::pipeline::dirty_quiescent;

#[test]
fn pull_gate_and_self_echo() {
    assert_eq!(pull_step(None, Some("e1"), "me"), PullStep::NoVault);
    assert_eq!(pull_step(Some(("e1", "other")), Some("e1"), "me"), PullStep::UpToDate);
    assert_eq!(pull_step(Some(("e2", "me")), Some("e1"), "me"), PullStep::SelfEcho);
    assert_eq!(pull_step(Some(("e2", "other")), Some("e1"), "me"), PullStep::Merge);
    assert_eq!(pull_step(Some(("e2", "other")), None, "me"), PullStep::Merge);
}

#[test]
fn downloads_merge_parents_first() {
    let names: Vec<String> = ["playlist_tracks", "bogus", "tracks/3", "playlists", "tag_categories", "tracks/3"]
        .iter()
        .map(|s| s.to_string())
        .collect();
    let sorted = download_order(&names);
    assert_eq!(
        sorted,
        vec!["tag_categories", "tracks/3", "tracks/3", "playlists", "playlist_tracks", "bogus"]
    );
}

#[test]
fn backoff_doubles_up_to_the_cap() {
    let mut b = FIRST_BACKOFF_MS;
    let mut seen = Vec::new();
    for _ in 0..6 {
        seen.push(b);
        b = next_backoff(b);
    }
    assert_eq!(seen, vec![200, 400, 800, 1600, 3000, 3000]);
    assert_eq!(next_backoff(1500), MAX_BACKOFF_MS);
    assert_eq!(next_backoff(1499), 2998);
}

#[test]
fn gc_keeps_blobs_the_manifest_still_references() {
    let mut m = Manifest::empty("d");
    m.buckets.insert(
        "tags".into(),
        BucketEntry { blob_hash: "h".into(), object_key: "tags-h.jsonl.gz".into(), count: 0, hlc: String::new() },
    );
    let mut sweep = GcSweep::new(Some(&m), "u1");
    assert_eq!(sweep.decide("users/u1/vault/tags-h.jsonl.gz"), GcAction::KeepReferenced);
    assert_eq!(sweep.decide("users/u1/vault/tags-old.jsonl.gz"), GcAction::Delete);
    assert!(!sweep.acknowledged());
    assert_eq!(sweep.processed(), 1);
    let empty = GcSweep::new(None, "u1");
    assert_eq!(empty.decide("users/u1/vault/tags-h.jsonl.gz"), GcAction::Delete);
}

#[test]
fn gc_stops_at_the_cap() {
    let mut sweep = GcSweep::new(None, "u");
    for _ in 0..GC_MAX_TOTAL - 1 {
        assert!(!sweep.acknowledged());
    }
    assert!(sweep.acknowledged());
    assert_eq!(sweep.processed(), GC_MAX_TOTAL);
}

#[test]
fn push_debounce_waits_for_a_quiet_queue() {
    // 2026-01-01T00:00:00Z in milliseconds.
    let mark = 1_767_225_600_000i64;
    assert!(!dirty_quiescent(None, mark, 0));
    assert!(dirty_quiescent(Some("not a date"), mark, 60_000));
    assert!(dirty_quiescent(Some("2026-01-01T00:00:00Z"), mark, 0));
    assert!(!dirty_quiescent(Some("2026-01-01T00:00:00Z"), mark + 59_999, 60_000));
    assert!(dirty_quiescent(Some("2026-01-01T00:00:00Z"), mark + 60_000, 60_000));
    assert!(!dirty_quiescent(Some("2026-01-01T00:00:00Z"), mark - 1, 0));
}
