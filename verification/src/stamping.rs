//! The one-time first-sync stamping plan: which tables get which stamp for their
//! never-stamped (`_hlc = ''`) rows, the SQL that reads and updates them, and the wall
//! clock each timestamped row is stamped at. Running the statements happens outside
//! this crate.
use vstd::prelude::*;
use crate::hlc::{hlc_text, Hlc, NodeId};
use crate::text::{push_char, push_str, to_owned_string};

verus! {

/// Tables without a timestamp column: their unstamped rows all get the epoch stamp.
pub open spec fn epoch_tables_spec() -> Seq<Seq<char>> {
    seq![
        "cues"@, "tags"@, "tag_categories"@, "track_tags"@, "discovery_release_tags"@,
        "discovery_release_sources"@, "discovery_tracks"@, "library_roots"@,
    ]
}

/// The tables stamped with the epoch stamp.
pub fn epoch_tables() -> (v: Vec<&'static str>)
    ensures
        v@.map_values(|s: &'static str| s@) == epoch_tables_spec(),
{
    let v = vec![
        "cues", "tags", "tag_categories", "track_tags", "discovery_release_tags",
        "discovery_release_sources", "discovery_tracks", "library_roots",
    ];
    assert(v@.map_values(|s: &'static str| s@) =~= epoch_tables_spec());
    v
}

/// The stamp every unstamped row of an epoch table gets: wall 0, counter 0, this node.
pub fn epoch_stamp(node: NodeId) -> (s: String)
    ensures
        s@ == hlc_text(Hlc { wall_ms: 0, counter: 0, node }),
{
    Hlc::new(0, 0, node).format()
}

/// A timestamped table: its date columns (tried in order) and its key columns.
pub struct TimestampedTable {
    pub table: &'static str,
    pub date_cols: Vec<&'static str>,
    pub pk_cols: Vec<&'static str>,
}

pub open spec fn strs(v: Seq<&'static str>) -> Seq<Seq<char>> {
    v.map_values(|s: &'static str| s@)
}

/// The timestamped tables and their columns, in stamping order.
pub open spec fn timestamped_spec() -> Seq<(Seq<char>, Seq<Seq<char>>, Seq<Seq<char>>)> {
    seq![
        ("tracks"@, seq!["date_modified"@, "date_added"@], seq!["id"@]),
        ("playlists"@, seq!["date_modified"@, "date_created"@], seq!["id"@]),
        ("discovery_releases"@, seq!["date_modified"@, "date_added"@], seq!["id"@]),
        ("playlist_tracks"@, seq!["date_added"@], seq!["playlist_id"@, "track_id"@]),
        ("playlist_discovery_releases"@, seq!["date_added"@], seq!["playlist_id"@, "release_id"@]),
        ("followed_sources"@, seq!["date_modified"@, "date_added"@], seq!["id"@]),
    ]
}

fn stamped_table(table: &'static str, date_cols: Vec<&'static str>, pk_cols: Vec<&'static str>) -> (t: TimestampedTable)
    ensures
        t.table == table && t.date_cols == date_cols && t.pk_cols == pk_cols,
{
    TimestampedTable { table, date_cols, pk_cols }
}

/// The timestamped tables to stamp.
pub fn timestamped_tables() -> (v: Vec<TimestampedTable>)
    ensures
        v@.len() == timestamped_spec().len(),
        forall|i: int| 0 <= i < v@.len() ==> (#[trigger] v@[i]).table@ == timestamped_spec()[i].0
            && strs(v@[i].date_cols@) == timestamped_spec()[i].1
            && strs(v@[i].pk_cols@) == timestamped_spec()[i].2,
{
    let mut v: Vec<TimestampedTable> = Vec::new();
    v.push(stamped_table("tracks", vec!["date_modified", "date_added"], vec!["id"]));
    v.push(stamped_table("playlists", vec!["date_modified", "date_created"], vec!["id"]));
    v.push(stamped_table("discovery_releases", vec!["date_modified", "date_added"], vec!["id"]));
    v.push(stamped_table("playlist_tracks", vec!["date_added"], vec!["playlist_id", "track_id"]));
    v.push(stamped_table("playlist_discovery_releases", vec!["date_added"], vec!["playlist_id", "release_id"]));
    v.push(stamped_table("followed_sources", vec!["date_modified", "date_added"], vec!["id"]));
    proof {
        let sp = timestamped_spec();
        assert forall|i: int| 0 <= i < v@.len() implies (#[trigger] v@[i]).table@ == sp[i].0
            && strs(v@[i].date_cols@) == sp[i].1 && strs(v@[i].pk_cols@) == sp[i].2 by {
            assert(strs(v@[i].date_cols@) =~= sp[i].1);
            assert(strs(v@[i].pk_cols@) =~= sp[i].2);
        }
    }
    v
}

/// `parts` joined by `sep`.
pub open spec fn join(parts: Seq<Seq<char>>, sep: Seq<char>) -> Seq<char>
    decreases parts.len(),
{
    if parts.len() == 0 {
        Seq::empty()
    } else if parts.len() == 1 {
        parts[0]
    } else {
        join(parts.drop_last(), sep) + sep + parts.last()
    }
}

/// The decimal digits of `n`.
pub open spec fn decimal(n: nat) -> Seq<char>
    decreases n,
{
    if n < 10 {
        seq![((48 + n) as u8) as char]
    } else {
        decimal(n / 10).push(((48 + n % 10) as u8) as char)
    }
}

/// The query reading a table's unstamped rows: key columns, then date columns.
pub open spec fn select_sql_spec(table: Seq<char>, pk: Seq<Seq<char>>, dates: Seq<Seq<char>>) -> Seq<char> {
    "SELECT "@ + join(pk + dates, ", "@) + " FROM "@ + table + " WHERE _hlc = ''"@
}

/// `c = ?{i+2}` for each key column `c` at index `i`.
pub open spec fn key_conds(pk: Seq<Seq<char>>) -> Seq<Seq<char>> {
    Seq::new(pk.len(), |i: int| pk[i] + " = ?"@ + decimal((i + 2) as nat))
}

/// The statement stamping one row: the stamp is `?1`, the keys `?2`, `?3`, ….
pub open spec fn update_sql_spec(table: Seq<char>, pk: Seq<Seq<char>>) -> Seq<char> {
    "UPDATE "@ + table + " SET _hlc = ?1 WHERE "@ + join(key_conds(pk), " AND "@)
}

/// Append `parts` joined by `sep`.
pub(crate) fn push_joined(out: &mut String, parts: &Vec<&'static str>, sep: &str)
    ensures
        final(out)@ == old(out)@ + join(strs(parts@), sep@),
{
    let ghost ps = strs(parts@);
    let ghost start = out@;
    let mut i: usize = 0;
    assert(ps.subrange(0, 0) =~= Seq::<Seq<char>>::empty());
    while i < parts.len()
        invariant
            i <= parts@.len(),
            ps == strs(parts@),
            out@ == start + join(ps.subrange(0, i as int), sep@),
        decreases parts@.len() - i,
    {
        let ghost pre = ps.subrange(0, i as int);
        let ghost cur = ps.subrange(0, i + 1);
        assert(cur.drop_last() =~= pre);
        assert(cur.last() == parts@[i as int]@);
        if i > 0 {
            push_str(out, sep);
        } else {
            assert(cur =~= seq![parts@[0]@]);
        }
        push_str(out, parts[i]);
        proof {
            if i > 0 {
                assert(out@ =~= start + (join(pre, sep@) + sep@ + parts@[i as int]@));
            } else {
                assert(out@ =~= start + parts@[0]@);
            }
        }
        i = i + 1;
    }
    assert(ps.subrange(0, parts@.len() as int) =~= ps);
}

/// The query reading `t`'s unstamped rows.
pub fn select_unstamped_sql(t: &TimestampedTable) -> (s: String)
    ensures
        s@ == select_sql_spec(t.table@, strs(t.pk_cols@), strs(t.date_cols@)),
{
    let mut cols: Vec<&'static str> = Vec::new();
    let mut i: usize = 0;
    while i < t.pk_cols.len()
        invariant
            i <= t.pk_cols@.len(),
            cols@ == t.pk_cols@.subrange(0, i as int),
        decreases t.pk_cols@.len() - i,
    {
        cols.push(t.pk_cols[i]);
        i = i + 1;
    }
    let mut j: usize = 0;
    while j < t.date_cols.len()
        invariant
            j <= t.date_cols@.len(),
            cols@ == t.pk_cols@ + t.date_cols@.subrange(0, j as int),
        decreases t.date_cols@.len() - j,
    {
        cols.push(t.date_cols[j]);
        j = j + 1;
    }
    assert(t.date_cols@.subrange(0, t.date_cols@.len() as int) =~= t.date_cols@);
    assert(strs(cols@) =~= strs(t.pk_cols@) + strs(t.date_cols@));
    let mut s = to_owned_string("SELECT ");
    push_joined(&mut s, &cols, ", ");
    push_str(&mut s, " FROM ");
    push_str(&mut s, t.table);
    push_str(&mut s, " WHERE _hlc = ''");
    s
}

proof fn lemma_decimal_len(n: nat)
    ensures
        decimal(n).len() >= 1,
    decreases n,
{
    if n >= 10 {
        lemma_decimal_len(n / 10);
    }
}

/// Append the decimal digits of `n`.
pub(crate) fn push_decimal(out: &mut String, n: usize)
    ensures
        final(out)@ == old(out)@ + decimal(n as nat),
    decreases n,
{
    if n >= 10 {
        push_decimal(out, n / 10);
    }
    let d = (n % 10) as u8;
    push_char(out, (48 + d) as char);
    proof {
        if n >= 10 {
            assert(old(out)@ + decimal(n as nat) =~= old(out)@ + decimal((n / 10) as nat) + seq![((48 + n % 10) as u8) as char]);
        }
    }
}

/// The statement giving every never-stamped row of `table` the epoch stamp (`?1`).
pub fn epoch_update_sql(table: &str) -> (s: String)
    ensures
        s@ == "UPDATE "@ + table@ + " SET _hlc = ?1 WHERE _hlc = ''"@,
{
    let mut s = to_owned_string("UPDATE ");
    push_str(&mut s, table);
    push_str(&mut s, " SET _hlc = ?1 WHERE _hlc = ''");
    s
}

/// The statement stamping one row of `t`.
pub fn update_stamp_sql(t: &TimestampedTable) -> (s: String)
    requires
        t.pk_cols@.len() < usize::MAX - 2,
    ensures
        s@ == update_sql_spec(t.table@, strs(t.pk_cols@)),
{
    let mut s = to_owned_string("UPDATE ");
    push_str(&mut s, t.table);
    push_str(&mut s, " SET _hlc = ?1 WHERE ");
    let ghost start = s@;
    let ghost conds = key_conds(strs(t.pk_cols@));
    let mut i: usize = 0;
    assert(conds.subrange(0, 0) =~= Seq::<Seq<char>>::empty());
    while i < t.pk_cols.len()
        invariant
            i <= t.pk_cols@.len(),
            t.pk_cols@.len() < usize::MAX - 2,
            conds == key_conds(strs(t.pk_cols@)),
            s@ == start + join(conds.subrange(0, i as int), " AND "@),
        decreases t.pk_cols@.len() - i,
    {
        let ghost pre = conds.subrange(0, i as int);
        let ghost cur = conds.subrange(0, i + 1);
        assert(cur.drop_last() =~= pre);
        let ghost before = s@;
        if i > 0 {
            push_str(&mut s, " AND ");
        }
        let ghost mid = s@;
        push_str(&mut s, t.pk_cols[i]);
        push_str(&mut s, " = ?");
        push_decimal(&mut s, i + 2);
        proof {
            assert(cur.last() == conds[i as int]);
            assert(s@ =~= mid + conds[i as int]);
            if i > 0 {
                assert(s@ =~= start + (join(pre, " AND "@) + " AND "@ + cur.last()));
            } else {
                assert(cur =~= seq![conds[0]]);
                assert(s@ =~= start + conds[0]);
            }
        }
        i = i + 1;
    }
    assert(conds.subrange(0, t.pk_cols@.len() as int) =~= conds);
    s
}

/// Milliseconds since the Unix epoch of an RFC 3339 timestamp, when it parses.
pub uninterp spec fn rfc3339_millis(s: Seq<char>) -> Option<i64>;

/// `chrono::DateTime::parse_from_rfc3339(s)` and `timestamp_millis`: the instant's
/// milliseconds since the Unix epoch, or `None` when `s` is not RFC 3339.
#[verifier::external_body]
pub(crate) fn rfc3339_to_millis(s: &str) -> (r: Option<i64>)
    ensures
        r == rfc3339_millis(s@),
{
    match chrono::DateTime::parse_from_rfc3339(s) {
        Ok(dt) => Some(dt.timestamp_millis()),
        Err(_) => None,
    }
}

/// The wall clock an RFC 3339 date stands for: its milliseconds since the epoch, 0
/// before the epoch or when it does not parse.
pub open spec fn date_ms(s: Seq<char>) -> u64 {
    match rfc3339_millis(s) {
        Some(ms) => if ms > 0 { ms as u64 } else { 0 },
        None => 0,
    }
}

/// RFC 3339 → milliseconds since the Unix epoch, or 0 if unparseable.
pub fn parse_rfc3339_ms(s: &str) -> (ms: u64)
    ensures
        ms == date_ms(s@),
{
    match rfc3339_to_millis(s) {
        Some(ms) => if ms > 0 { ms as u64 } else { 0 },
        None => 0,
    }
}

/// The wall clock a row is stamped at: that of its first date column (in order) that is
/// present and after the epoch; 0 when none is.
pub open spec fn row_wall_spec(dates: Seq<Option<Seq<char>>>) -> u64
    decreases dates.len(),
{
    if dates.len() == 0 {
        0
    } else {
        match dates[0] {
            Some(d) => if date_ms(d) > 0 { date_ms(d) } else { row_wall_spec(dates.drop_first()) },
            None => row_wall_spec(dates.drop_first()),
        }
    }
}

/// The wall clock of a row, given its date columns' values in order.
pub fn row_wall(dates: &Vec<Option<String>>) -> (wall: u64)
    ensures
        wall == row_wall_spec(dates@.map_values(|d: Option<String>| match d { Some(s) => Some(s@), None => None })),
{
    let ghost ds = dates@.map_values(|d: Option<String>| match d { Some(s) => Some(s@), None => None::<Seq<char>> });
    let mut i: usize = 0;
    assert(ds.skip(0) =~= ds);
    while i < dates.len()
        invariant
            i <= dates@.len(),
            ds == dates@.map_values(|d: Option<String>| match d { Some(s) => Some(s@), None => None::<Seq<char>> }),
            row_wall_spec(ds) == row_wall_spec(ds.skip(i as int)),
        decreases dates@.len() - i,
    {
        assert(ds.skip(i as int).drop_first() =~= ds.skip(i + 1));
        assert(ds.skip(i as int)[0] == ds[i as int]);
        match &dates[i] {
            Some(s) => {
                let ms = parse_rfc3339_ms(s.as_str());
                if ms > 0 {
                    return ms;
                }
            },
            None => {},
        }
        i = i + 1;
    }
    assert(ds.skip(dates@.len() as int) =~= Seq::<Option<Seq<char>>>::empty());
    0
}

/// The stamp a timestamped row gets: its wall clock, counter 0, this node.
pub fn row_stamp(wall: u64, node: NodeId) -> (s: String)
    ensures
        s@ == hlc_text(Hlc { wall_ms: wall, counter: 0, node }),
{
    Hlc::new(wall, 0, node).format()
}

/// Whether the one-time stamping already ran (`sync_state['initial_stamp_done']`).
pub fn stamping_done(flag: Option<&str>) -> (done: bool)
    ensures
        done == match flag { Some(f) => f@ == "1"@, None => false },
{
    match flag {
        Some(f) => crate::text::str_eq(f, "1"),
        None => false,
    }
}

} // verus!

verus! {

/// Whether a date column holds an RFC 3339 instant strictly after the epoch.
pub open spec fn dated_after_epoch(d: Option<Seq<char>>) -> bool {
    d matches Some(s) && rfc3339_millis(s) matches Some(m) && m > 0
}

/// Law (first date wins): a row is stamped at the instant of its first date column, in
/// column order, that parses to a moment after the epoch; the columns after it do not
/// matter. (Columns that are absent, unparseable or not after the epoch are passed over.)
pub proof fn lemma_row_wall_first_dated(dates: Seq<Option<Seq<char>>>, i: int)
    requires
        0 <= i < dates.len(),
        dated_after_epoch(dates[i]),
        forall|j: int| 0 <= j < i ==> !dated_after_epoch(#[trigger] dates[j]),
    ensures
        row_wall_spec(dates) as int == rfc3339_millis(dates[i]->0)->0 as int,
    decreases i,
{
    if i > 0 {
        let rest = dates.drop_first();
        assert forall|j: int| 0 <= j < i - 1 implies !dated_after_epoch(#[trigger] rest[j]) by {
            assert(rest[j] == dates[j + 1]);
        }
        assert(!dated_after_epoch(dates[0]));
        assert(rest[i - 1] == dates[i]);
        lemma_row_wall_first_dated(rest, i - 1);
    }
}

/// Law: a row none of whose date columns is after the epoch is stamped at wall 0.
pub proof fn lemma_row_wall_undated(dates: Seq<Option<Seq<char>>>)
    requires
        forall|j: int| 0 <= j < dates.len() ==> !dated_after_epoch(#[trigger] dates[j]),
    ensures
        row_wall_spec(dates) == 0,
    decreases dates.len(),
{
    if dates.len() > 0 {
        let rest = dates.drop_first();
        assert forall|j: int| 0 <= j < rest.len() implies !dated_after_epoch(#[trigger] rest[j]) by {
            assert(rest[j] == dates[j + 1]);
        }
        assert(!dated_after_epoch(dates[0]));
        lemma_row_wall_undated(rest);
    }
}

} // verus!
