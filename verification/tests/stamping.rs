use crate_sync::hlc::Hlc;
use crate_sync::stamping::{
    epoch_stamp, epoch_tables, parse_rfc3339_ms, row_stamp, row_wall, select_unstamped_sql,
    stamping_done, timestamped_tables, update_stamp_sql,
};

#[test]
fn epoch_tables_and_stamp() {
    assert_eq!(epoch_tables().len(), 8);
    assert!(epoch_tables().contains(&"library_roots"));
    assert_eq!(epoch_stamp(0x1f), Hlc::new(0, 0, 0x1f).format());
}

#[test]
fn sql_for_single_and_composite_keys() {
    let tables = timestamped_tables();
    assert_eq!(tables.len(), 6);
    assert_eq!(
        select_unstamped_sql(&tables[0]),
        "SELECT id, date_modified, date_added FROM tracks WHERE _hlc = ''"
    );
    assert_eq!(update_stamp_sql(&tables[0]), "UPDATE tracks SET _hlc = ?1 WHERE id = ?2");
    assert_eq!(tables[3].table, "playlist_tracks");
    assert_eq!(
        select_unstamped_sql(&tables[3]),
        "SELECT playlist_id, track_id, date_added FROM playlist_tracks WHERE _hlc = ''"
    );
    assert_eq!(
        update_stamp_sql(&tables[3]),
        "UPDATE playlist_tracks SET _hlc = ?1 WHERE playlist_id = ?2 AND track_id = ?3"
    );
}

#[test]
fn wall_clock_from_first_usable_date() {
    assert_eq!(parse_rfc3339_ms("1970-01-01T00:00:01Z"), 1000);
    assert_eq!(parse_rfc3339_ms("2020-01-01T00:00:00.250+00:00"), 1_577_836_800_250);
    assert_eq!(parse_rfc3339_ms("1969-12-31T23:59:59Z"), 0);
    assert_eq!(parse_rfc3339_ms("yesterday"), 0);
    let dates = vec![None, Some("garbage".to_string()), Some("1970-01-01T00:00:02Z".to_string())];
    assert_eq!(row_wall(&dates), 2000);
    assert_eq!(row_wall(&vec![None, None]), 0);
    assert_eq!(row_stamp(2000, 7), Hlc::new(2000, 0, 7).format());
}

#[test]
fn stamping_runs_once() {
    assert!(stamping_done(Some("1")));
    assert!(!stamping_done(Some("0")));
    assert!(!stamping_done(None));
}
