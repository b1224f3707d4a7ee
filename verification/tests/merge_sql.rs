use crate_sync::buckets::Bucket;
use crate_sync::merge_sql::{
    advance_junction_sql, delete_junction_sql, exists_sql, hard_delete_sql, is_skippable_constraint,
    junction_endpoints, ordering_update_sql, select_live_sql, setting_hlc_key, synced_columns, upsert_sql,
    SQLITE_CONSTRAINT_PRIMARYKEY, SQLITE_CONSTRAINT_UNIQUE,
};

#[test]
fn live_stamp_reads_by_key() {
    assert_eq!(select_live_sql(&Bucket::Tracks(3)), "SELECT _hlc FROM tracks WHERE id = ?1");
    assert_eq!(select_live_sql(&Bucket::TagCategories), "SELECT _hlc FROM tag_categories WHERE id = ?1");
    assert_eq!(
        select_live_sql(&Bucket::PlaylistTracks),
        "SELECT _hlc FROM playlist_tracks WHERE playlist_id = ?1 AND track_id = ?2"
    );
}

#[test]
fn deletes_and_stamp_advances() {
    assert_eq!(hard_delete_sql(&Bucket::Cues), "DELETE FROM cues WHERE id = ?1");
    assert_eq!(
        advance_junction_sql(&Bucket::TrackTags),
        "UPDATE track_tags SET _hlc=?1 WHERE track_id=?2 AND tag_id=?3"
    );
    assert_eq!(
        delete_junction_sql(&Bucket::DiscoveryReleaseTags),
        "DELETE FROM discovery_release_tags WHERE release_id=?1 AND tag_id=?2"
    );
}

#[test]
fn link_endpoints() {
    assert_eq!(junction_endpoints(&Bucket::PlaylistTracks), Some(("playlists", "playlist_id", "tracks", "track_id")));
    assert_eq!(
        junction_endpoints(&Bucket::PlaylistDiscoveryReleases),
        Some(("playlists", "playlist_id", "discovery_releases", "release_id"))
    );
    assert_eq!(junction_endpoints(&Bucket::Playlists), None);
    assert_eq!(exists_sql("tags"), "SELECT EXISTS(SELECT 1 FROM tags WHERE id=?1)");
}

#[test]
fn only_key_collisions_are_skipped() {
    assert!(is_skippable_constraint(SQLITE_CONSTRAINT_UNIQUE));
    assert!(is_skippable_constraint(SQLITE_CONSTRAINT_PRIMARYKEY));
    assert!(!is_skippable_constraint(787));
    assert!(!is_skippable_constraint(19));
}

#[test]
fn upserts_write_synced_columns_only() {
    assert_eq!(
        upsert_sql(&Bucket::TagCategories),
        "INSERT INTO tag_categories (id, name, color, sort_order, _hlc) VALUES (?1,?2,?3,?4,?5) ON CONFLICT(id) DO UPDATE SET name=excluded.name, color=excluded.color, sort_order=excluded.sort_order, _hlc=excluded._hlc"
    );
    assert_eq!(
        upsert_sql(&Bucket::TrackTags),
        "INSERT INTO track_tags (track_id, tag_id, _hlc) VALUES (?1,?2,?3) ON CONFLICT(track_id, tag_id) DO UPDATE SET _hlc=excluded._hlc"
    );
    assert_eq!(
        upsert_sql(&Bucket::PlaylistTracks),
        "INSERT INTO playlist_tracks (playlist_id, track_id, position, date_added, _hlc) VALUES (?1,?2,?3,?4,?5) ON CONFLICT(playlist_id, track_id) DO UPDATE SET position=excluded.position, date_added=excluded.date_added, _hlc=excluded._hlc"
    );
    let tracks = upsert_sql(&Bucket::Tracks(7));
    assert!(tracks.starts_with("INSERT INTO tracks (id, file_path, file_hash, title,"));
    assert!(tracks.contains("color, _hlc) VALUES (?1,?2,"));
    assert!(tracks.contains(",?25,?26) ON CONFLICT(id) DO UPDATE SET file_path=excluded.file_path,"));
    for local in ["analysis_source", "waveform_data", "library_root_id", "relative_path"] {
        assert!(!tracks.contains(local));
    }
    assert_eq!(synced_columns(&Bucket::Tracks(0)).len(), 25);
    assert_eq!(synced_columns(&Bucket::LibraryRoots), vec!["id", "name"]);
}

#[test]
fn ordered_links_and_settings() {
    assert_eq!(
        ordering_update_sql(&Bucket::PlaylistDiscoveryReleases),
        "UPDATE playlist_discovery_releases SET position=?1, date_added=?2, _hlc=?3 WHERE playlist_id=?4 AND release_id=?5"
    );
    assert_eq!(setting_hlc_key("theme"), "setting_hlc:theme");
}
