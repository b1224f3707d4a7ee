use crate_sync::buckets::{bucket_for_track_id, shard_for_track_id, Bucket, BucketKind};
use crate_sync::settings::is_synced_setting;

#[test]
fn shards_by_first_hex_char() {
    assert_eq!(bucket_for_track_id("a1b2c3d4-..."), "tracks/a");
    assert_eq!(bucket_for_track_id("0fffffff-..."), "tracks/0");
    // Non-hex / empty fall back to shard 0.
    assert_eq!(bucket_for_track_id(""), "tracks/0");
    assert_eq!(bucket_for_track_id("zzz"), "tracks/0");
}

#[test]
fn shard_nibble_matches_string_form() {
    for id in ["a1b2", "0fff", "ffff", "5abc", "deadbeef"] {
        let n = shard_for_track_id(id);
        assert_eq!(Bucket::Tracks(n).as_str(), bucket_for_track_id(id));
        assert_eq!(Bucket::for_track_id(id), Bucket::Tracks(n));
    }
    assert_eq!(shard_for_track_id(""), 0);
    assert_eq!(shard_for_track_id("zzz"), 0);
}

#[test]
fn as_str_parse_roundtrip_for_every_bucket() {
    for b in Bucket::all() {
        assert_eq!(Bucket::parse(&b.as_str()), Some(b), "roundtrip {b:?}");
    }
}

#[test]
fn all_shards_format_correctly() {
    assert_eq!(Bucket::Tracks(0).as_str(), "tracks/0");
    assert_eq!(Bucket::Tracks(10).as_str(), "tracks/a");
    assert_eq!(Bucket::Tracks(15).as_str(), "tracks/f");
    assert_eq!(Bucket::parse("tracks/a"), Some(Bucket::Tracks(10)));
    assert_eq!(Bucket::parse("tracks/ab"), None);
    assert_eq!(Bucket::parse("tracks/"), None);
    assert_eq!(Bucket::parse("bogus"), None);
}

#[test]
fn bucket_count_is_28() {
    assert_eq!(Bucket::all().len(), 28); // 16 shards + 12
    assert_eq!(Bucket::merge_order().len(), 28);
}

#[test]
fn kinds_are_correct() {
    assert_eq!(Bucket::Tracks(3).kind(), BucketKind::Entity);
    assert_eq!(Bucket::PlaylistTracks.kind(), BucketKind::Junction);
    assert_eq!(Bucket::TrackTags.kind(), BucketKind::Junction);
    assert_eq!(Bucket::Settings.kind(), BucketKind::Settings);
    assert_eq!(Bucket::Tracks(3).entity_type(), "tracks");
}

#[test]
fn uppercase_shard_char_is_accepted() {
    assert_eq!(shard_for_track_id("B0"), 11);
    assert_eq!(bucket_for_track_id("F"), "tracks/f");
}

#[test]
fn merge_order_puts_parents_before_junctions() {
    let order = Bucket::merge_order();
    let pos = |b: Bucket| order.iter().position(|x| *x == b).unwrap();
    assert!(pos(Bucket::Playlists) < pos(Bucket::PlaylistTracks));
    assert!(pos(Bucket::Tracks(0)) < pos(Bucket::PlaylistTracks));
    assert!(pos(Bucket::Tags) < pos(Bucket::TrackTags));
    assert!(pos(Bucket::TagCategories) < pos(Bucket::Tags));
    assert!(pos(Bucket::DiscoveryReleases) < pos(Bucket::DiscoveryTracks));
    assert!(pos(Bucket::DiscoveryReleases) < pos(Bucket::PlaylistDiscoveryReleases));
}

#[test]
fn pk_columns_and_tables() {
    assert_eq!(Bucket::PlaylistTracks.pk_columns(), vec!["playlist_id", "track_id"]);
    assert_eq!(Bucket::Settings.pk_columns(), vec!["key"]);
    assert_eq!(Bucket::Cues.pk_columns(), vec!["id"]);
    assert_eq!(Bucket::Tracks(7).table(), "tracks");
    assert_eq!(Bucket::Playlists.label_column(), "name");
}

#[test]
fn settings_whitelist() {
    assert!(!is_synced_setting("definitely_not_a_setting"));
}
