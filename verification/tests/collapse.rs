use crate_sync::collapse::{collapse_release_pair, collapse_track_pair, pick_winner, DiscoveryTrack};
use crate_sync::collapse::{
    delete_release_rows_sql, find_track_copy, move_release_links_sql, plan_release_collapse, plan_track_collapse,
    release_cache_tables, release_link_tables, REPARENT_TRACKS_SQL,
};
use crate_sync::hlc::Hlc;
use crate_sync::rows::DiscoveryReleaseRow;

fn track(id: &str, liked: bool, duration_ms: Option<i64>, url: Option<&str>) -> DiscoveryTrack {
    DiscoveryTrack {
        id: id.into(),
        release_id: "rel".into(),
        name: "Intro".into(),
        position: 1,
        duration_ms,
        video_id: None,
        url: url.map(str::to_string),
        is_liked: liked,
    }
}

fn h(wall: u64) -> String {
    Hlc::new(wall, 0, 0xA).format()
}

#[test]
fn track_pair_is_symmetric() {
    let l = track("aaaa", false, Some(1000), None);
    let r = track("bbbb", true, None, Some("https://t"));
    let c1 = collapse_track_pair(&l, &h(10), &r, &h(20));
    let c2 = collapse_track_pair(&r, &h(20), &l, &h(10));
    assert_eq!(c1.survivor, c2.survivor);
    assert_eq!(c1.survivor_hlc, c2.survivor_hlc);
    assert_eq!(c1.loser_id, c2.loser_id);
    assert_eq!(c1.tombstone_hlc, c2.tombstone_hlc);
}

#[test]
fn track_pair_ors_likes_and_coalesces_nulls() {
    let l = track("aaaa", false, Some(1000), None);
    let r = track("bbbb", true, None, Some("https://t"));
    let c = collapse_track_pair(&l, &h(10), &r, &h(20));
    assert_eq!(c.survivor.id, "aaaa");
    assert_eq!(c.loser_id, "bbbb");
    assert!(c.survivor.is_liked, "like ORs across both copies");
    assert_eq!(c.survivor.duration_ms, Some(1000), "loser's non-null kept");
    assert_eq!(c.survivor.url.as_deref(), Some("https://t"));
}

#[test]
fn bump_case_is_strictly_greater_than_both_inputs() {
    let l = track("aaaa", false, None, None);
    let r = track("bbbb", true, None, None);
    let c = collapse_track_pair(&l, &h(10), &r, &h(20));
    assert!(c.survivor_hlc > h(20));
    assert!(c.survivor_hlc > h(10));
    assert_eq!(c.tombstone_hlc, c.survivor_hlc);
}

#[test]
fn already_merged_winner_is_a_fixed_point() {
    // Winner has the smaller id and already carries the union of everything —
    // re-encountering a stale copy of the loser must not escalate the HLC.
    let w = track("aaaa", true, Some(1000), Some("https://t"));
    let stale = track("bbbb", false, None, None);
    let c = collapse_track_pair(&w, &h(20), &stale, &h(10));
    assert_eq!(c.survivor, w);
    assert_eq!(c.survivor_hlc, h(20), "no bump when nothing changed");
}

fn release(id: &str, artist: Option<&str>, added: &str, is_new: bool) -> DiscoveryReleaseRow {
    DiscoveryReleaseRow {
        id: id.into(),
        url: "https://x.bandcamp.com/album/y".into(),
        source_type: "bandcamp".into(),
        artist: artist.map(str::to_string),
        title: None,
        label: None,
        release_date: None,
        artwork_url: None,
        artwork_path: None,
        notes: None,
        parent_url: None,
        source_page_url: None,
        date_added: added.into(),
        date_modified: added.into(),
        is_new,
        surfaced_at: None,
    }
}

#[test]
fn release_pair_is_symmetric_and_unions_history() {
    let l = release("p-rel", Some("Artist"), "2020-01-01T00:00:00Z", true);
    let r = release("q-rel", None, "2019-06-01T00:00:00Z", false);
    let c1 = collapse_release_pair(&l, &h(10), &r, &h(20));
    let c2 = collapse_release_pair(&r, &h(20), &l, &h(10));
    assert_eq!(c1.survivor, c2.survivor);
    assert_eq!(c1.survivor_hlc, c2.survivor_hlc);
    assert_eq!(c1.survivor.id, "p-rel");
    assert_eq!(c1.loser_id, "q-rel");
    assert_eq!(c1.survivor.artist.as_deref(), Some("Artist"), "null coalesced");
    assert_eq!(c1.survivor.date_added, "2019-06-01T00:00:00Z", "earliest added");
    assert_eq!(c1.survivor.date_modified, "2020-01-01T00:00:00Z", "latest modified");
    assert!(!c1.survivor.is_new, "reviewed on either device -> not new");
}

#[test]
fn winner_is_the_larger_stamp_then_the_smaller_id() {
    assert!(pick_winner(&h(99), "b", &h(1), "a"));
    assert!(!pick_winner(&h(1), "a", &h(99), "b"));
    assert!(pick_winner(&h(5), "a", &h(5), "b"));
    assert!(!pick_winner(&h(5), "b", &h(5), "a"));
}

#[test]
fn survivor_takes_the_winners_fields_and_the_smaller_id() {
    let l = DiscoveryTrack { name: "Old".into(), ..track("aaaa", false, None, None) };
    let r = DiscoveryTrack { name: "New".into(), ..track("bbbb", false, None, None) };
    let c = collapse_track_pair(&l, &h(10), &r, &h(20));
    assert_eq!(c.survivor.id, "aaaa");
    assert_eq!(c.survivor.name, "New");
    assert_eq!(c.loser_id, "bbbb");
    assert_eq!(c.survivor_hlc, Hlc::new(20, 1, 0xA).format());
}

fn named(id: &str, name: &str, liked: bool) -> DiscoveryTrack {
    DiscoveryTrack {
        id: id.into(),
        release_id: "rel-1".into(),
        name: name.into(),
        position: 1,
        duration_ms: None,
        video_id: None,
        url: None,
        is_liked: liked,
    }
}

#[test]
fn no_local_copy_means_no_collapse() {
    let r = release("q-rel", None, "2019-06-01T00:00:00Z", false);
    assert!(plan_release_collapse(None, &r, &h(20)).is_none());
    assert!(plan_track_collapse(None, &named("bbbb", "Intro", false), &h(20)).is_none());
}

#[test]
fn same_url_release_collapses_onto_the_smaller_id() {
    // Local p-rel meets remote q-rel: the local id survives, no re-key.
    let local = release("p-rel", Some("Artist"), "2020-01-01T00:00:00Z", true);
    let remote = release("q-rel", None, "2019-06-01T00:00:00Z", false);
    let p = plan_release_collapse(Some((&local, &h(5))), &remote, &h(7)).unwrap();
    assert!(!p.rekey);
    assert_eq!(p.collapse.survivor.id, "p-rel");
    assert_eq!(p.collapse.loser_id, "q-rel");
    assert_eq!(p.collapse.tombstone_hlc, p.collapse.survivor_hlc);
    // The mirror device holds q-rel and meets p-rel: its row is re-keyed to p-rel.
    let q = plan_release_collapse(Some((&remote, &h(7))), &local, &h(5)).unwrap();
    assert!(q.rekey);
    assert_eq!(q.collapse.survivor, p.collapse.survivor);
    assert_eq!(q.collapse.survivor_hlc, p.collapse.survivor_hlc);
    assert_eq!(q.collapse.loser_id, "q-rel");
}

#[test]
fn track_copy_is_found_by_case_insensitive_name() {
    let siblings = vec![
        (named("aaaa-other", "Outro", false), h(1)),
        (named("aaaa-track", "Intro", false), h(10)),
        (named("bbbb-track", "intro", true), h(25)),
    ];
    let remote = named("bbbb-track", "INTRO", true);
    assert_eq!(find_track_copy(&siblings, &remote), Some(1));
    let remote2 = named("cccc", "Ünïcode", false);
    let siblings2 = vec![(named("dddd", "ÜNÏCODE", false), h(3))];
    assert_eq!(find_track_copy(&siblings2, &remote2), Some(0));
    assert_eq!(find_track_copy(&siblings, &named("eeee", "Bridge", false)), None);
    // The remote row itself is never its own copy.
    assert_eq!(find_track_copy(&siblings[2..].to_vec(), &remote), None);
}

#[test]
fn independent_track_fetches_plan_one_survivor() {
    // Device B holds bbbb (liked, newer) and receives aaaa: its row is replaced by aaaa.
    let a = named("aaaa-track", "Intro", false);
    let b = named("bbbb-track", "intro", true);
    let on_b = plan_track_collapse(Some((&b, &h(25))), &a, &h(10)).unwrap();
    assert!(on_b.replace_local);
    assert_eq!(on_b.collapse.survivor.id, "aaaa-track");
    assert!(on_b.collapse.survivor.is_liked);
    assert_eq!(on_b.collapse.loser_id, "bbbb-track");
    // Device A holds aaaa and receives bbbb: it keeps its row and folds the like in.
    let on_a = plan_track_collapse(Some((&a, &h(10))), &b, &h(25)).unwrap();
    assert!(!on_a.replace_local);
    assert_eq!(on_a.collapse.survivor, on_b.collapse.survivor);
    assert_eq!(on_a.collapse.survivor_hlc, on_b.collapse.survivor_hlc);
}

#[test]
fn rekey_statements_name_every_release_table() {
    assert_eq!(release_link_tables(), vec!["discovery_release_tags", "playlist_discovery_releases", "discovery_release_sources"]);
    assert_eq!(release_cache_tables(), vec!["discovery_stream_cache", "discovery_audio_cache", "discovery_artwork_cache"]);
    assert_eq!(
        move_release_links_sql("discovery_release_tags"),
        "UPDATE OR IGNORE discovery_release_tags SET release_id = ?1 WHERE release_id = ?2"
    );
    assert_eq!(delete_release_rows_sql("discovery_audio_cache"), "DELETE FROM discovery_audio_cache WHERE release_id = ?1");
    assert_eq!(REPARENT_TRACKS_SQL, "UPDATE discovery_tracks SET release_id = ?1 WHERE release_id = ?2");
}
