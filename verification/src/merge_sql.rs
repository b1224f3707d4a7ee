//! The statements the merge engine issues against the local database for each bucket:
//! reading a row's stamp, hard deletes, junction stamp advances and deletes, the
//! endpoint guard of a new link, and tombstone bookkeeping. Which constraint failures a
//! merge tolerates is decided here too; running the statements is the application's.
use vstd::prelude::*;
use crate::buckets::{bucket_kind, bucket_table, pk_columns_spec, Bucket, BucketKind};
use crate::stamping::{decimal, join, push_decimal, push_joined, strs};
use crate::text::{push_str, to_owned_string};

verus! {

/// Reads the stamp of an entity's tombstone (`?1` entity type, `?2` entity id).
pub const SELECT_TOMB_SQL: &'static str = "SELECT _hlc FROM sync_tombstones WHERE entity_type = ?1 AND entity_id = ?2";

/// Records a tombstone or advances it to the larger stamp, so a tombstone never moves
/// back (`?1` entity type, `?2` entity id, `?3` stamp).
pub const UPSERT_TOMB_SQL: &'static str = "INSERT INTO sync_tombstones (entity_type, entity_id, _hlc) VALUES (?1, ?2, ?3) ON CONFLICT(entity_type, entity_id) DO UPDATE SET _hlc = MAX(_hlc, excluded._hlc)";

/// Records the tombstone of a local hard delete at its stamp, replacing any earlier one
/// (`?1` entity type, `?2` entity id, `?3` stamp).
pub const RECORD_TOMB_SQL: &'static str = "INSERT INTO sync_tombstones (entity_type, entity_id, _hlc) VALUES (?1, ?2, ?3) ON CONFLICT(entity_type, entity_id) DO UPDATE SET _hlc = excluded._hlc";

/// Drops an entity's tombstone (`?1` entity type, `?2` entity id).
pub const DELETE_TOMB_SQL: &'static str = "DELETE FROM sync_tombstones WHERE entity_type=?1 AND entity_id=?2";

/// The statement reading the stamp of a bucket's live row: by `id` for a single-key
/// bucket (`?1`), by both key columns for a junction (`?1`, `?2`).
pub open spec fn select_live_spec(b: Bucket) -> Seq<char> {
    let cols = pk_columns_spec(b);
    if cols.len() == 1 {
        "SELECT _hlc FROM "@ + bucket_table(b) + " WHERE id = ?1"@
    } else {
        "SELECT _hlc FROM "@ + bucket_table(b) + " WHERE "@ + cols[0] + " = ?1 AND "@ + cols[1] + " = ?2"@
    }
}

/// The statement reading the stamp of a bucket's live row (see [`select_live_spec`]).
pub fn select_live_sql(bucket: &Bucket) -> (s: String)
    ensures
        s@ == select_live_spec(*bucket),
{
    let cols = bucket.pk_columns();
    let ghost cv = cols@.map_values(|c: &'static str| c@);
    assert(cv.len() == cols@.len());
    assert(cv.len() == 1 || cv.len() == 2);
    let mut s = to_owned_string("SELECT _hlc FROM ");
    push_str(&mut s, bucket.table());
    if cols.len() == 1 {
        push_str(&mut s, " WHERE id = ?1");
    } else {
        assert(cols@.len() == 2);
        assert(cv[0] == cols@[0]@ && cv[1] == cols@[1]@);
        push_str(&mut s, " WHERE ");
        push_str(&mut s, cols[0]);
        push_str(&mut s, " = ?1 AND ");
        push_str(&mut s, cols[1]);
        push_str(&mut s, " = ?2");
    }
    s
}

/// The hard delete of an entity by its id (`?1`); the schema's cascades remove its
/// children and links, as on the deleting device.
pub fn hard_delete_sql(bucket: &Bucket) -> (s: String)
    ensures
        s@ == "DELETE FROM "@ + bucket_table(*bucket) + " WHERE id = ?1"@,
{
    let mut s = to_owned_string("DELETE FROM ");
    push_str(&mut s, bucket.table());
    push_str(&mut s, " WHERE id = ?1");
    s
}

/// Advancing a junction row's stamp (`?1` stamp, `?2` and `?3` its two keys): tag links
/// have no ordering fields, only the clock converges.
pub fn advance_junction_sql(bucket: &Bucket) -> (s: String)
    requires
        bucket_kind(*bucket) == BucketKind::Junction,
    ensures
        s@ == "UPDATE "@ + bucket_table(*bucket) + " SET _hlc=?1 WHERE "@ + pk_columns_spec(*bucket)[0] + "=?2 AND "@
            + pk_columns_spec(*bucket)[1] + "=?3"@,
{
    let cols = bucket.pk_columns();
    let ghost cv = cols@.map_values(|c: &'static str| c@);
    assert(cv.len() == cols@.len());
    assert(cv.len() == 2);
    assert(cv[0] == cols@[0]@ && cv[1] == cols@[1]@);
    let mut s = to_owned_string("UPDATE ");
    push_str(&mut s, bucket.table());
    push_str(&mut s, " SET _hlc=?1 WHERE ");
    push_str(&mut s, cols[0]);
    push_str(&mut s, "=?2 AND ");
    push_str(&mut s, cols[1]);
    push_str(&mut s, "=?3");
    s
}

/// Deleting a junction row by its two keys (`?1`, `?2`).
pub fn delete_junction_sql(bucket: &Bucket) -> (s: String)
    requires
        bucket_kind(*bucket) == BucketKind::Junction,
    ensures
        s@ == "DELETE FROM "@ + bucket_table(*bucket) + " WHERE "@ + pk_columns_spec(*bucket)[0] + "=?1 AND "@
            + pk_columns_spec(*bucket)[1] + "=?2"@,
{
    let cols = bucket.pk_columns();
    let ghost cv = cols@.map_values(|c: &'static str| c@);
    assert(cv.len() == cols@.len());
    assert(cv.len() == 2);
    assert(cv[0] == cols@[0]@ && cv[1] == cols@[1]@);
    let mut s = to_owned_string("DELETE FROM ");
    push_str(&mut s, bucket.table());
    push_str(&mut s, " WHERE ");
    push_str(&mut s, cols[0]);
    push_str(&mut s, "=?1 AND ");
    push_str(&mut s, cols[1]);
    push_str(&mut s, "=?2");
    s
}

/// The tables a link joins and the row fields naming each end:
/// `(first table, first field, second table, second field)`.
pub open spec fn endpoints_spec(b: Bucket) -> Option<(Seq<char>, Seq<char>, Seq<char>, Seq<char>)> {
    match b {
        Bucket::PlaylistTracks => Some(("playlists"@, "playlist_id"@, "tracks"@, "track_id"@)),
        Bucket::TrackTags => Some(("tracks"@, "track_id"@, "tags"@, "tag_id"@)),
        Bucket::DiscoveryReleaseTags => Some(("discovery_releases"@, "release_id"@, "tags"@, "tag_id"@)),
        Bucket::PlaylistDiscoveryReleases => Some(("playlists"@, "playlist_id"@, "discovery_releases"@, "release_id"@)),
        _ => None,
    }
}

/// The endpoints a new link must find locally before it is inserted, so a re-add over a
/// cascade-deleted parent is skipped instead of failing a foreign key at commit; `None`
/// for buckets that are not links (nothing to check).
pub fn junction_endpoints(bucket: &Bucket) -> (r: Option<(&'static str, &'static str, &'static str, &'static str)>)
    ensures
        match r {
            Some((t0, c0, t1, c1)) => endpoints_spec(*bucket) == Some((t0@, c0@, t1@, c1@)),
            None => endpoints_spec(*bucket) is None,
        },
{
    match bucket {
        Bucket::PlaylistTracks => Some(("playlists", "playlist_id", "tracks", "track_id")),
        Bucket::TrackTags => Some(("tracks", "track_id", "tags", "tag_id")),
        Bucket::DiscoveryReleaseTags => Some(("discovery_releases", "release_id", "tags", "tag_id")),
        Bucket::PlaylistDiscoveryReleases => Some(("playlists", "playlist_id", "discovery_releases", "release_id")),
        _ => None,
    }
}

/// Whether a row with id `?1` exists in `table`.
pub fn exists_sql(table: &str) -> (s: String)
    ensures
        s@ == "SELECT EXISTS(SELECT 1 FROM "@ + table@ + " WHERE id=?1)"@,
{
    let mut s = to_owned_string("SELECT EXISTS(SELECT 1 FROM ");
    push_str(&mut s, table);
    push_str(&mut s, " WHERE id=?1)");
    s
}

/// SQLite's extended result code for a `UNIQUE` violation.
pub const SQLITE_CONSTRAINT_UNIQUE: i32 = 2067;

/// SQLite's extended result code for a `PRIMARY KEY` violation.
pub const SQLITE_CONSTRAINT_PRIMARYKEY: i32 = 1555;

/// Whether an entity upsert that failed with this extended result code is skipped (the
/// rest of the bucket still merges): only `UNIQUE` and `PRIMARY KEY` collisions, so two
/// devices that each created, say, a tag category of the same name cannot wedge sync.
pub fn is_skippable_constraint(extended_code: i32) -> (r: bool)
    ensures
        r == (extended_code == SQLITE_CONSTRAINT_UNIQUE || extended_code == SQLITE_CONSTRAINT_PRIMARYKEY),
{
    extended_code == SQLITE_CONSTRAINT_UNIQUE || extended_code == SQLITE_CONSTRAINT_PRIMARYKEY
}


/// The columns a bucket's rows carry and a merge writes, key columns first (`_hlc`
/// aside). Device-local columns (analysis results, a track's root association) are never
/// among them, so a peer's edit cannot clobber them.
pub open spec fn synced_columns_spec(b: Bucket) -> Seq<Seq<char>> {
    match b {
        Bucket::Tracks(_) => seq!["id"@, "file_path"@, "file_hash"@, "title"@, "artist"@, "album"@, "year"@, "genre"@, "label"@, "catalog_number"@, "duration_ms"@, "bpm"@, "key"@, "bitrate"@, "sample_rate"@, "format"@, "rating"@, "play_count"@, "date_added"@, "date_modified"@, "last_played"@, "rekordbox_id"@, "artwork_path"@, "artwork_source"@, "color"@],
        Bucket::Playlists => seq!["id"@, "name"@, "parent_id"@, "is_folder"@, "is_smart"@, "smart_rules"@, "sort_order"@, "context"@, "date_created"@, "date_modified"@],
        Bucket::Cues => seq!["id"@, "track_id"@, "position_ms"@, "type"@, "loop_end_ms"@, "hot_cue_index"@, "name"@, "color"@],
        Bucket::TagCategories => seq!["id"@, "name"@, "color"@, "sort_order"@],
        Bucket::Tags => seq!["id"@, "category_id"@, "name"@, "color"@, "sort_order"@],
        Bucket::DiscoveryReleases => seq!["id"@, "url"@, "source_type"@, "artist"@, "title"@, "label"@, "release_date"@, "artwork_url"@, "artwork_path"@, "notes"@, "parent_url"@, "date_added"@, "date_modified"@, "is_new"@, "surfaced_at"@],
        Bucket::DiscoveryTracks => seq!["id"@, "release_id"@, "name"@, "position"@, "duration_ms"@, "video_id"@, "is_liked"@],
        Bucket::LibraryRoots => seq!["id"@, "name"@],
        Bucket::PlaylistTracks => seq!["playlist_id"@, "track_id"@, "position"@, "date_added"@],
        Bucket::PlaylistDiscoveryReleases => seq!["playlist_id"@, "release_id"@, "position"@, "date_added"@],
        Bucket::TrackTags => seq!["track_id"@, "tag_id"@],
        Bucket::DiscoveryReleaseTags => seq!["release_id"@, "tag_id"@],
        Bucket::Settings => seq!["key"@, "value"@],
    }
}

/// The columns a bucket's rows write (see [`synced_columns_spec`]).
pub fn synced_columns(bucket: &Bucket) -> (cols: Vec<&'static str>)
    ensures
        strs(cols@) == synced_columns_spec(*bucket),
{
    let mut v: Vec<&'static str> = Vec::new();
    match bucket {
            Bucket::Tracks(_) => {
                v.push("id");
                v.push("file_path");
                v.push("file_hash");
                v.push("title");
                v.push("artist");
                v.push("album");
                v.push("year");
                v.push("genre");
                v.push("label");
                v.push("catalog_number");
                v.push("duration_ms");
                v.push("bpm");
                v.push("key");
                v.push("bitrate");
                v.push("sample_rate");
                v.push("format");
                v.push("rating");
                v.push("play_count");
                v.push("date_added");
                v.push("date_modified");
                v.push("last_played");
                v.push("rekordbox_id");
                v.push("artwork_path");
                v.push("artwork_source");
                v.push("color");
            },
            Bucket::Playlists => {
                v.push("id");
                v.push("name");
                v.push("parent_id");
                v.push("is_folder");
                v.push("is_smart");
                v.push("smart_rules");
                v.push("sort_order");
                v.push("context");
                v.push("date_created");
                v.push("date_modified");
            },
            Bucket::Cues => {
                v.push("id");
                v.push("track_id");
                v.push("position_ms");
                v.push("type");
                v.push("loop_end_ms");
                v.push("hot_cue_index");
                v.push("name");
                v.push("color");
            },
            Bucket::TagCategories => {
                v.push("id");
                v.push("name");
                v.push("color");
                v.push("sort_order");
            },
            Bucket::Tags => {
                v.push("id");
                v.push("category_id");
                v.push("name");
                v.push("color");
                v.push("sort_order");
            },
            Bucket::DiscoveryReleases => {
                v.push("id");
                v.push("url");
                v.push("source_type");
                v.push("artist");
                v.push("title");
                v.push("label");
                v.push("release_date");
                v.push("artwork_url");
                v.push("artwork_path");
                v.push("notes");
                v.push("parent_url");
                v.push("date_added");
                v.push("date_modified");
                v.push("is_new");
                v.push("surfaced_at");
            },
            Bucket::DiscoveryTracks => {
                v.push("id");
                v.push("release_id");
                v.push("name");
                v.push("position");
                v.push("duration_ms");
                v.push("video_id");
                v.push("is_liked");
            },
            Bucket::LibraryRoots => {
                v.push("id");
                v.push("name");
            },
            Bucket::PlaylistTracks => {
                v.push("playlist_id");
                v.push("track_id");
                v.push("position");
                v.push("date_added");
            },
            Bucket::PlaylistDiscoveryReleases => {
                v.push("playlist_id");
                v.push("release_id");
                v.push("position");
                v.push("date_added");
            },
            Bucket::TrackTags => {
                v.push("track_id");
                v.push("tag_id");
            },
            Bucket::DiscoveryReleaseTags => {
                v.push("release_id");
                v.push("tag_id");
            },
            Bucket::Settings => {
                v.push("key");
                v.push("value");
            },
    }
    assert(strs(v@) =~= synced_columns_spec(*bucket));
    v
}


/// Law: a merge never writes a device-local column: a track's analysis results
/// (`analysis_source`, `waveform_data`) and its root association (`library_root_id`,
/// `relative_path`) stay as this device left them when a peer's edit arrives.
pub proof fn lemma_merge_skips_device_local_columns(b: Bucket)
    ensures
        !synced_columns_spec(b).contains("analysis_source"@),
        !synced_columns_spec(b).contains("waveform_data"@),
        !synced_columns_spec(b).contains("library_root_id"@),
        !synced_columns_spec(b).contains("relative_path"@),
{
    reveal_strlit("album");
    reveal_strlit("analysis_source");
    reveal_strlit("artist");
    reveal_strlit("artwork_path");
    reveal_strlit("artwork_source");
    reveal_strlit("artwork_url");
    reveal_strlit("bitrate");
    reveal_strlit("bpm");
    reveal_strlit("catalog_number");
    reveal_strlit("category_id");
    reveal_strlit("color");
    reveal_strlit("context");
    reveal_strlit("date_added");
    reveal_strlit("date_created");
    reveal_strlit("date_modified");
    reveal_strlit("duration_ms");
    reveal_strlit("file_hash");
    reveal_strlit("file_path");
    reveal_strlit("format");
    reveal_strlit("genre");
    reveal_strlit("hot_cue_index");
    reveal_strlit("id");
    reveal_strlit("is_folder");
    reveal_strlit("is_liked");
    reveal_strlit("is_new");
    reveal_strlit("is_smart");
    reveal_strlit("key");
    reveal_strlit("label");
    reveal_strlit("last_played");
    reveal_strlit("library_root_id");
    reveal_strlit("loop_end_ms");
    reveal_strlit("name");
    reveal_strlit("notes");
    reveal_strlit("parent_id");
    reveal_strlit("parent_url");
    reveal_strlit("play_count");
    reveal_strlit("playlist_id");
    reveal_strlit("position");
    reveal_strlit("position_ms");
    reveal_strlit("rating");
    reveal_strlit("rekordbox_id");
    reveal_strlit("relative_path");
    reveal_strlit("release_date");
    reveal_strlit("release_id");
    reveal_strlit("sample_rate");
    reveal_strlit("smart_rules");
    reveal_strlit("sort_order");
    reveal_strlit("source_type");
    reveal_strlit("surfaced_at");
    reveal_strlit("tag_id");
    reveal_strlit("title");
    reveal_strlit("track_id");
    reveal_strlit("type");
    reveal_strlit("url");
    reveal_strlit("value");
    reveal_strlit("video_id");
    reveal_strlit("waveform_data");
    reveal_strlit("year");
    assert("album"@.len() == 5);
    assert("analysis_source"@.len() == 15);
    assert("artist"@.len() == 6);
    assert("artwork_path"@.len() == 12);
    assert("artwork_source"@.len() == 14);
    assert("artwork_url"@.len() == 11);
    assert("bitrate"@.len() == 7);
    assert("bpm"@.len() == 3);
    assert("catalog_number"@.len() == 14);
    assert("category_id"@.len() == 11);
    assert("color"@.len() == 5);
    assert("context"@.len() == 7);
    assert("date_added"@.len() == 10);
    assert("date_created"@.len() == 12);
    assert("date_modified"@.len() == 13);
    assert("duration_ms"@.len() == 11);
    assert("file_hash"@.len() == 9);
    assert("file_path"@.len() == 9);
    assert("format"@.len() == 6);
    assert("genre"@.len() == 5);
    assert("hot_cue_index"@.len() == 13);
    assert("id"@.len() == 2);
    assert("is_folder"@.len() == 9);
    assert("is_liked"@.len() == 8);
    assert("is_new"@.len() == 6);
    assert("is_smart"@.len() == 8);
    assert("key"@.len() == 3);
    assert("label"@.len() == 5);
    assert("last_played"@.len() == 11);
    assert("library_root_id"@.len() == 15);
    assert("loop_end_ms"@.len() == 11);
    assert("name"@.len() == 4);
    assert("notes"@.len() == 5);
    assert("parent_id"@.len() == 9);
    assert("parent_url"@.len() == 10);
    assert("play_count"@.len() == 10);
    assert("playlist_id"@.len() == 11);
    assert("position"@.len() == 8);
    assert("position_ms"@.len() == 11);
    assert("rating"@.len() == 6);
    assert("rekordbox_id"@.len() == 12);
    assert("relative_path"@.len() == 13);
    assert("release_date"@.len() == 12);
    assert("release_id"@.len() == 10);
    assert("sample_rate"@.len() == 11);
    assert("smart_rules"@.len() == 11);
    assert("sort_order"@.len() == 10);
    assert("source_type"@.len() == 11);
    assert("surfaced_at"@.len() == 11);
    assert("tag_id"@.len() == 6);
    assert("title"@.len() == 5);
    assert("track_id"@.len() == 8);
    assert("type"@.len() == 4);
    assert("url"@.len() == 3);
    assert("value"@.len() == 5);
    assert("video_id"@.len() == 8);
    assert("waveform_data"@.len() == 13);
    assert("year"@.len() == 4);
    let cols = synced_columns_spec(b);
    // The only columns as long as a device-local name differ from it in the first letter.
    assert("date_modified"@[0] != "waveform_data"@[0] && "date_modified"@[0] != "relative_path"@[0]);
    assert("hot_cue_index"@[0] != "waveform_data"@[0] && "hot_cue_index"@[0] != "relative_path"@[0]);
    assert forall|i: int| 0 <= i < cols.len() implies cols[i] != "analysis_source"@ && cols[i] != "waveform_data"@
        && cols[i] != "library_root_id"@ && cols[i] != "relative_path"@ by {
        if cols[i] == "date_modified"@ || cols[i] == "hot_cue_index"@ {
            assert(cols[i][0] != "waveform_data"@[0] && cols[i][0] != "relative_path"@[0]);
        }
    }
}


/// `?1,?2,…,?n`.
pub open spec fn placeholders(n: nat) -> Seq<char>
    decreases n,
{
    if n == 0 {
        Seq::empty()
    } else if n == 1 {
        "?"@ + decimal(1)
    } else {
        placeholders((n - 1) as nat) + ",?"@ + decimal(n)
    }
}

fn push_placeholders(out: &mut String, n: usize)
    ensures
        final(out)@ == old(out)@ + placeholders(n as nat),
{
    let ghost start = out@;
    let mut i: usize = 0;
    assert(start + placeholders(0) =~= start);
    while i < n
        invariant
            i <= n,
            out@ == start + placeholders(i as nat),
        decreases n - i,
    {
        if i == 0 {
            push_str(out, "?");
        } else {
            push_str(out, ",?");
        }
        push_decimal(out, i + 1);
        assert(out@ =~= start + placeholders((i + 1) as nat));
        i = i + 1;
    }
}

/// `c=excluded.c` for each column.
pub open spec fn set_excluded(cols: Seq<Seq<char>>) -> Seq<Seq<char>> {
    Seq::new(cols.len(), |i: int| cols[i] + "=excluded."@ + cols[i])
}

fn push_set_excluded(out: &mut String, parts: &Vec<&'static str>)
    ensures
        final(out)@ == old(out)@ + join(set_excluded(strs(parts@)), ", "@),
{
    let ghost ps = set_excluded(strs(parts@));
    let ghost start = out@;
    let mut i: usize = 0;
    assert(ps.subrange(0, 0) =~= Seq::<Seq<char>>::empty());
    while i < parts.len()
        invariant
            i <= parts@.len(),
            ps == set_excluded(strs(parts@)),
            out@ == start + join(ps.subrange(0, i as int), ", "@),
        decreases parts@.len() - i,
    {
        let ghost pre = ps.subrange(0, i as int);
        let ghost cur = ps.subrange(0, i + 1);
        assert(cur.drop_last() =~= pre);
        assert(cur.last() == parts@[i as int]@ + "=excluded."@ + parts@[i as int]@);
        if i > 0 {
            push_str(out, ", ");
        } else {
            assert(cur =~= seq![ps[0]]);
        }
        push_str(out, parts[i]);
        push_str(out, "=excluded.");
        push_str(out, parts[i]);
        proof {
            if i > 0 {
                assert(out@ =~= start + (join(pre, ", "@) + ", "@ + cur.last()));
            } else {
                assert(out@ =~= start + cur.last());
            }
        }
        i = i + 1;
    }
    assert(ps.subrange(0, parts@.len() as int) =~= ps);
}

/// `cols[from..]` followed by `_hlc`.
fn tail_with_hlc(cols: &Vec<&'static str>, from: usize) -> (v: Vec<&'static str>)
    requires
        from <= cols@.len(),
    ensures
        strs(v@) == strs(cols@).skip(from as int).push("_hlc"@),
{
    let mut v: Vec<&'static str> = Vec::new();
    let mut i = from;
    while i < cols.len()
        invariant
            from <= i <= cols@.len(),
            strs(v@) == strs(cols@).subrange(from as int, i as int),
        decreases cols@.len() - i,
    {
        let ghost before = v@;
        v.push(cols[i]);
        assert(strs(v@) =~= strs(before).push(cols@[i as int]@));
        assert(strs(cols@)[i as int] == cols@[i as int]@);
        assert(strs(cols@).subrange(from as int, i + 1) =~= strs(cols@).subrange(from as int, i as int).push(strs(cols@)[i as int]));
        i = i + 1;
    }
    v.push("_hlc");
    assert(strs(v@) =~= strs(cols@).skip(from as int).push("_hlc"@));
    v
}

/// The upsert merging a live row of an entity or link bucket: every synced column and
/// `_hlc` (bound in that order, `?1` on), replacing all but the key columns on conflict.
pub open spec fn upsert_sql_spec(b: Bucket) -> Seq<char> {
    let cols = synced_columns_spec(b);
    let pk = pk_columns_spec(b);
    "INSERT INTO "@ + bucket_table(b) + " ("@ + join(cols.push("_hlc"@), ", "@) + ") VALUES ("@
        + placeholders(cols.len() + 1) + ") ON CONFLICT("@ + join(pk, ", "@) + ") DO UPDATE SET "@
        + join(set_excluded(cols.skip(pk.len() as int).push("_hlc"@)), ", "@)
}

/// The upsert of a live row (see [`upsert_sql_spec`]). Settings have their own
/// statements.
pub fn upsert_sql(bucket: &Bucket) -> (s: String)
    requires
        bucket_kind(*bucket) != BucketKind::Settings,
    ensures
        s@ == upsert_sql_spec(*bucket),
{
    let cols = synced_columns(bucket);
    let pk = bucket.pk_columns();
    let ghost pv = pk@.map_values(|c: &'static str| c@);
    assert(pv == strs(pk@));
    assert(pv.len() == pk@.len());
    assert(pk@.len() <= cols@.len()) by {
        assert(pk_columns_spec(*bucket).len() <= synced_columns_spec(*bucket).len());
    }
    let all = tail_with_hlc(&cols, 0);
    assert(strs(cols@).skip(0) =~= strs(cols@));
    let rest = tail_with_hlc(&cols, pk.len());
    let mut s = to_owned_string("INSERT INTO ");
    push_str(&mut s, bucket.table());
    push_str(&mut s, " (");
    push_joined(&mut s, &all, ", ");
    push_str(&mut s, ") VALUES (");
    // No bucket has more than a few dozen columns, so the count plus one fits.
    assert(cols@.len() < 100);
    push_placeholders(&mut s, cols.len() + 1);
    push_str(&mut s, ") ON CONFLICT(");
    push_joined(&mut s, &pk, ", ");
    push_str(&mut s, ") DO UPDATE SET ");
    push_set_excluded(&mut s, &rest);
    s
}

/// Overwriting an ordered link's ordering fields and stamp (`?1` position, `?2` date
/// added, `?3` stamp; `?4`, `?5` its keys).
pub fn ordering_update_sql(bucket: &Bucket) -> (s: String)
    requires
        bucket_kind(*bucket) == BucketKind::Junction,
    ensures
        s@ == "UPDATE "@ + bucket_table(*bucket) + " SET position=?1, date_added=?2, _hlc=?3 WHERE "@
            + pk_columns_spec(*bucket)[0] + "=?4 AND "@ + pk_columns_spec(*bucket)[1] + "=?5"@,
{
    let cols = bucket.pk_columns();
    let ghost cv = cols@.map_values(|c: &'static str| c@);
    assert(cv.len() == cols@.len());
    assert(cv.len() == 2);
    assert(cv[0] == cols@[0]@ && cv[1] == cols@[1]@);
    let mut s = to_owned_string("UPDATE ");
    push_str(&mut s, bucket.table());
    push_str(&mut s, " SET position=?1, date_added=?2, _hlc=?3 WHERE ");
    push_str(&mut s, cols[0]);
    push_str(&mut s, "=?4 AND ");
    push_str(&mut s, cols[1]);
    push_str(&mut s, "=?5");
    s
}

/// The upsert of a synced setting's value (`?1` key, `?2` value).
pub const SETTING_UPSERT_SQL: &'static str = "INSERT INTO settings (key, value) VALUES (?1, ?2) ON CONFLICT(key) DO UPDATE SET value = excluded.value";

/// The upsert of a device-state value (`?1` key, `?2` value), where a setting's stamp is
/// kept.
pub const STATE_UPSERT_SQL: &'static str = "INSERT INTO sync_state (key, value) VALUES (?1, ?2) ON CONFLICT(key) DO UPDATE SET value = excluded.value";

/// The device-state key a synced setting's stamp is kept under: `setting_hlc:{key}`.
pub fn setting_hlc_key(key: &str) -> (k: String)
    ensures
        k@ == "setting_hlc:"@ + key@,
{
    let mut k = to_owned_string("setting_hlc:");
    push_str(&mut k, key);
    k
}

/// Reading an entity's display label by its id (`?1`), to name it in an override notice.
pub fn label_sql(bucket: &Bucket) -> (s: String)
    ensures
        s@ == "SELECT "@ + (if (*bucket matches Bucket::Tracks(_)) || *bucket == Bucket::DiscoveryReleases {
            "title"@
        } else {
            "name"@
        }) + " FROM "@ + bucket_table(*bucket) + " WHERE id = ?1"@,
{
    let mut s = to_owned_string("SELECT ");
    push_str(&mut s, bucket.label_column());
    push_str(&mut s, " FROM ");
    push_str(&mut s, bucket.table());
    push_str(&mut s, " WHERE id = ?1");
    s
}

} // verus!
