//! The bucket wire format's deterministic parts: which row each canonical id emits, in
//! which order, and the exact bytes of a tombstone row.
//!
//! Rows are emitted in ascending canonical-id order. For one id the live row and the
//! tombstones race by HLC with the same tie rule the merge engine uses: in an entity
//! bucket a tombstone at an equal HLC wins, in a junction bucket the live link keeps a
//! tie. Live rows themselves are serialized from their typed structs outside this crate.
use vstd::prelude::*;
use crate::assoc::{entry_at, has_key, insert_sorted, keys_sorted, lemma_key_index, lemma_unique};
use crate::buckets::{shard_for_track_id, shard_spec, Bucket, BucketKind, pk_columns_spec};
use crate::dirty::{junction_entity_id, junction_id_spec, split_junction_id, split_junction_spec};
use crate::buckets::bucket_name;
use crate::json::{field_bool, field_str, json_field_bool, json_field_str, json_parse_error, parse_error};
use crate::text::{pieces, split_byte_ranges, split_on};
use vstd::slice::{slice_subrange, slice_to_vec};
use crate::hex::{hex_digit, hex_digit_exec};
use crate::error::SyncError;
use crate::merge::{entity_action, hlc_ge, hlc_gt, junction_action, stamp_ge, EntityAction, JunctionAction};
use crate::text::{chars_of, lex_lt, push_char, push_str, str_eq, str_lt, to_owned_string};

verus! {

/// What one canonical id emits: the live row at an index of the live list, or a
/// tombstone carrying its HLC.
#[derive(Debug, PartialEq, Eq)]
pub enum EmitChoice {
    Live(usize),
    Dead(String),
}

/// The ghost form of an [`EmitChoice`].
pub enum Emission {
    Live(int),
    Dead(Seq<char>),
}

pub open spec fn choice_view(c: EmitChoice) -> Emission {
    match c {
        EmitChoice::Live(i) => Emission::Live(i as int),
        EmitChoice::Dead(h) => Emission::Dead(h@),
    }
}

/// The last live row listed for `cid` (a later row for the same id replaces an
/// earlier one).
pub open spec fn last_live(live: Seq<(String, String)>, cid: Seq<char>) -> Option<int>
    decreases live.len(),
{
    if live.len() == 0 {
        None
    } else if live.last().0@ == cid {
        Some(live.len() - 1)
    } else {
        last_live(live.drop_last(), cid)
    }
}

/// What `cid` emits after the live rows and then the tombstones have been folded in,
/// in list order. `tie_to_delete` is the entity rule (`>=`); otherwise a tombstone must
/// be strictly newer than the live row. A later tombstone replaces an earlier one only
/// when strictly newer.
pub open spec fn emission(
    tie_to_delete: bool,
    live: Seq<(String, String)>,
    tombs: Seq<(String, String)>,
    cid: Seq<char>,
) -> Option<Emission>
    decreases tombs.len(),
{
    if tombs.len() == 0 {
        match last_live(live, cid) {
            Some(i) => Some(Emission::Live(i)),
            None => None,
        }
    } else {
        let prev = emission(tie_to_delete, live, tombs.drop_last(), cid);
        let t = tombs.last();
        if t.0@ != cid {
            prev
        } else {
            match prev {
                Some(Emission::Live(i)) => {
                    let h_live = live[i].1@;
                    let wins = if tie_to_delete { stamp_ge(t.1@, h_live) } else { lex_lt(h_live, t.1@) };
                    if wins { Some(Emission::Dead(t.1@)) } else { prev }
                },
                Some(Emission::Dead(h_prev)) => {
                    if lex_lt(h_prev, t.1@) { Some(Emission::Dead(t.1@)) } else { prev }
                },
                None => Some(Emission::Dead(t.1@)),
            }
        }
    }
}

/// The emission plan of a bucket: one entry per canonical id that has a live row or a
/// tombstone, in ascending id order, each saying what that id emits.
pub open spec fn plan_matches(
    plan: Seq<(String, EmitChoice)>,
    tie_to_delete: bool,
    live: Seq<(String, String)>,
    tombs: Seq<(String, String)>,
) -> bool {
    &&& keys_sorted(plan)
    &&& forall|cid: Seq<char>| #[trigger] has_key(plan, cid) == emission(tie_to_delete, live, tombs, cid).is_some()
    &&& forall|cid: Seq<char>| has_key(plan, cid) ==>
            Some(choice_view(#[trigger] entry_at(plan, cid))) == emission(tie_to_delete, live, tombs, cid)
}

/// Index of the entry keyed `k` in a sorted association list, if any.
fn find_key<V>(es: &Vec<(String, V)>, k: &str) -> (r: Option<usize>)
    requires
        keys_sorted(es@),
    ensures
        match r {
            Some(i) => i < es@.len() && es@[i as int].0@ == k@ && has_key(es@, k@) && entry_at(es@, k@) == es@[i as int].1,
            None => !has_key(es@, k@),
        },
{
    let mut i: usize = 0;
    while i < es.len()
        invariant
            i <= es@.len(),
            keys_sorted(es@),
            forall|j: int| 0 <= j < i ==> (#[trigger] es@[j]).0@ != k@,
        decreases es@.len() - i,
    {
        if str_eq(es[i].0.as_str(), k) {
            proof {
                lemma_unique(es@, i as int, k@);
            }
            return Some(i);
        }
        i = i + 1;
    }
    proof {
        if has_key(es@, k@) {
            lemma_key_index(es@, k@);
        }
    }
    None
}

proof fn lemma_last_live_step(live: Seq<(String, String)>, i: int, cid: Seq<char>)
    requires
        0 <= i < live.len(),
    ensures
        last_live(live.subrange(0, i + 1), cid) == (if live[i].0@ == cid {
            Some(i)
        } else {
            last_live(live.subrange(0, i), cid)
        }),
{
    assert(live.subrange(0, i + 1).drop_last() =~= live.subrange(0, i));
}

proof fn lemma_last_live_in_range(live: Seq<(String, String)>, cid: Seq<char>)
    ensures
        match last_live(live, cid) {
            Some(i) => 0 <= i < live.len() && live[i].0@ == cid,
            None => true,
        },
    decreases live.len(),
{
    if live.len() > 0 {
        lemma_last_live_in_range(live.drop_last(), cid);
    }
}

proof fn lemma_emission_live_in_range(tie: bool, live: Seq<(String, String)>, tombs: Seq<(String, String)>, cid: Seq<char>)
    ensures
        match emission(tie, live, tombs, cid) {
            Some(Emission::Live(i)) => 0 <= i < live.len(),
            _ => true,
        },
    decreases tombs.len(),
{
    if tombs.len() == 0 {
        lemma_last_live_in_range(live, cid);
    } else {
        lemma_emission_live_in_range(tie, live, tombs.drop_last(), cid);
    }
}

/// Decide, for every canonical id, whether the live row or a tombstone is emitted, and
/// order the ids. `live` lists `(canonical id, HLC)` of the live rows, `tombs` the
/// recorded tombstones.
pub fn plan_emission(kind: BucketKind, live: &Vec<(String, String)>, tombs: &Vec<(String, String)>) -> (plan: Vec<(String, EmitChoice)>)
    ensures
        plan_matches(plan@, kind == BucketKind::Entity, live@, tombs@),
{
    let tie_to_delete = match kind {
        BucketKind::Entity => true,
        _ => false,
    };
    let mut plan: Vec<(String, EmitChoice)> = Vec::new();
    let mut i: usize = 0;
    while i < live.len()
        invariant
            i <= live@.len(),
            keys_sorted(plan@),
            forall|cid: Seq<char>| #[trigger] has_key(plan@, cid) == last_live(live@.subrange(0, i as int), cid).is_some(),
            forall|cid: Seq<char>| has_key(plan@, cid) ==>
                Some(choice_view(#[trigger] entry_at(plan@, cid))) == (match last_live(live@.subrange(0, i as int), cid) {
                    Some(j) => Some(Emission::Live(j)),
                    None => None,
                }),
        decreases live@.len() - i,
    {
        let ghost before = plan@;
        let k = live[i].0.clone();
        insert_sorted(&mut plan, k, EmitChoice::Live(i));
        proof {
            assert forall|cid: Seq<char>| #[trigger] has_key(plan@, cid) == last_live(live@.subrange(0, i + 1), cid).is_some() by {
                lemma_last_live_step(live@, i as int, cid);
            }
            assert forall|cid: Seq<char>| has_key(plan@, cid) implies
                Some(choice_view(#[trigger] entry_at(plan@, cid))) == (match last_live(live@.subrange(0, i + 1), cid) {
                    Some(j) => Some(Emission::Live(j)),
                    None => None,
                }) by {
                lemma_last_live_step(live@, i as int, cid);
            }
        }
        i = i + 1;
    }
    assert(live@.subrange(0, live@.len() as int) =~= live@);
    let mut t: usize = 0;
    while t < tombs.len()
        invariant
            t <= tombs@.len(),
            tie_to_delete == (kind == BucketKind::Entity),
            keys_sorted(plan@),
            forall|cid: Seq<char>| #[trigger] has_key(plan@, cid) == emission(tie_to_delete, live@, tombs@.subrange(0, t as int), cid).is_some(),
            forall|cid: Seq<char>| has_key(plan@, cid) ==>
                Some(choice_view(#[trigger] entry_at(plan@, cid))) == emission(tie_to_delete, live@, tombs@.subrange(0, t as int), cid),
        decreases tombs@.len() - t,
    {
        let ghost before = plan@;
        let ghost pre = tombs@.subrange(0, t as int);
        let ghost cur = tombs@.subrange(0, t + 1);
        assert(cur.drop_last() =~= pre);
        assert(cur.last() == tombs@[t as int]);
        let cid = &tombs[t].0;
        let h_tomb = &tombs[t].1;
        let replace = match find_key(&plan, cid.as_str()) {
            Some(j) => {
                match &plan[j].1 {
                    EmitChoice::Live(li) => {
                        proof {
                            lemma_emission_live_in_range(tie_to_delete, live@, pre, cid@);
                        }
                        let h_live = &live[*li].1;
                        if tie_to_delete {
                            hlc_ge(h_tomb.as_str(), h_live.as_str())
                        } else {
                            hlc_gt(h_tomb.as_str(), h_live.as_str())
                        }
                    },
                    EmitChoice::Dead(h_prev) => hlc_gt(h_tomb.as_str(), h_prev.as_str()),
                }
            },
            None => true,
        };
        if replace {
            insert_sorted(&mut plan, cid.clone(), EmitChoice::Dead(h_tomb.clone()));
        }
        proof {
            assert forall|c: Seq<char>| #[trigger] has_key(plan@, c) == emission(tie_to_delete, live@, cur, c).is_some() by {
            }
            assert forall|c: Seq<char>| has_key(plan@, c) implies
                Some(choice_view(#[trigger] entry_at(plan@, c))) == emission(tie_to_delete, live@, cur, c) by {
            }
        }
        t = t + 1;
    }
    assert(tombs@.subrange(0, tombs@.len() as int) =~= tombs@);
    plan
}

/// How serde_json writes one character inside a JSON string: `"` and `\\` and the
/// control characters are escaped (short forms where JSON has them, else `\u00XX` in
/// lowercase hex); everything else is written as is.
pub open spec fn json_escape(c: char) -> Seq<char> {
    if c == '"' {
        seq!['\\', '"']
    } else if c == '\\' {
        seq!['\\', '\\']
    } else if c == '\x08' {
        seq!['\\', 'b']
    } else if c == '\x0c' {
        seq!['\\', 'f']
    } else if c == '\n' {
        seq!['\\', 'n']
    } else if c == '\r' {
        seq!['\\', 'r']
    } else if c == '\t' {
        seq!['\\', 't']
    } else if (c as u32) < 0x20 {
        seq!['\\', 'u', '0', '0', hex_digit((c as nat) / 16), hex_digit((c as nat) % 16)]
    } else {
        seq![c]
    }
}

pub open spec fn json_escaped(s: Seq<char>) -> Seq<char>
    decreases s.len(),
{
    if s.len() == 0 {
        Seq::empty()
    } else {
        json_escaped(s.drop_last()) + json_escape(s.last())
    }
}

/// The JSON string literal for `s`.
pub open spec fn json_quote(s: Seq<char>) -> Seq<char> {
    seq!['"'] + json_escaped(s) + seq!['"']
}

/// Appends how one character is written inside a JSON string.
fn push_json_escape(out: &mut String, c: char)
    ensures
        final(out)@ == old(out)@ + json_escape(c),
{
    let ghost before = out@;
    if c == '"' {
        push_char(out, '\\');
        push_char(out, '"');
    } else if c == '\\' {
        push_char(out, '\\');
        push_char(out, '\\');
    } else if c == '\x08' {
        push_char(out, '\\');
        push_char(out, 'b');
    } else if c == '\x0c' {
        push_char(out, '\\');
        push_char(out, 'f');
    } else if c == '\n' {
        push_char(out, '\\');
        push_char(out, 'n');
    } else if c == '\r' {
        push_char(out, '\\');
        push_char(out, 'r');
    } else if c == '\t' {
        push_char(out, '\\');
        push_char(out, 't');
    } else if (c as u32) < 0x20 {
        let v = c as u32;
        push_char(out, '\\');
        push_char(out, 'u');
        push_char(out, '0');
        push_char(out, '0');
        push_char(out, hex_digit_exec((v / 16) as u64));
        push_char(out, hex_digit_exec((v % 16) as u64));
    } else {
        push_char(out, c);
    }
    assert(out@ =~= before + json_escape(c));
}

/// The JSON string literal for `s`, as serde_json writes a string: quoted, with each
/// character escaped as [`json_escape`] says.
fn json_string(s: &str) -> (r: String)
    ensures
        r@ == json_quote(s@),
{
    let v = chars_of(s);
    let mut out = String::new();
    push_char(&mut out, '"');
    let mut i: usize = 0;
    while i < v.len()
        invariant
            i <= v@.len(),
            v@ == s@,
            out@ == seq!['"'] + json_escaped(v@.subrange(0, i as int)),
        decreases v@.len() - i,
    {
        let ghost before = out@;
        push_json_escape(&mut out, v[i]);
        assert(v@.subrange(0, i + 1).drop_last() =~= v@.subrange(0, i as int));
        assert(v@.subrange(0, i + 1).last() == v@[i as int]);
        assert(out@ =~= seq!['"'] + json_escaped(v@.subrange(0, i + 1)));
        i = i + 1;
    }
    push_char(&mut out, '"');
    assert(v@.subrange(0, v@.len() as int) =~= s@);
    out
}

/// Rust's `Debug` rendering of a string (quoted and escaped).
pub uninterp spec fn debug_str(s: Seq<char>) -> Seq<char>;

/// `format!("{s:?}")`: Rust's `Debug` rendering of a string slice.
#[verifier::external_body]
pub(crate) fn debug_quoted(s: &str) -> (r: String)
    ensures
        r@ == debug_str(s@),
{
    format!("{s:?}")
}

/// `"name":value` with both sides as JSON strings.
pub open spec fn json_field(name: Seq<char>, value: Seq<char>) -> Seq<char> {
    json_quote(name) + ":"@ + json_quote(value)
}

/// The tombstone row for canonical id `cid` in bucket `b`: its identity columns, then
/// `_hlc`, then `"_deleted":true`. An entity's identity is `id`; a junction's is its two
/// key columns, split out of the `a|b` id. `Err` carries the error message.
pub open spec fn tombstone_row(b: Bucket, cid: Seq<char>, hlc: Seq<char>) -> Result<Seq<char>, Seq<char>> {
    let cols = pk_columns_spec(b);
    let tail = ","@ + json_field("_hlc"@, hlc) + ","@ + json_quote("_deleted"@) + ":true}"@;
    if cols.len() == 1 {
        Ok("{"@ + json_field("id"@, cid) + tail)
    } else if cols.len() == 2 {
        match split_junction_spec(cid) {
            Some((a, c)) => Ok("{"@ + json_field(cols[0], a) + ","@ + json_field(cols[1], c) + tail),
            None => Err("malformed junction id "@ + debug_str(cid)),
        }
    } else {
        Err("bucket has unexpected PK arity"@)
    }
}

/// Append `"name":value` to `out`.
fn push_field(out: &mut String, name: &str, value: &str)
    ensures
        final(out)@ == old(out)@ + json_field(name@, value@),
{
    let qn = json_string(name);
    push_str(out, qn.as_str());
    push_str(out, ":");
    let qv = json_string(value);
    push_str(out, qv.as_str());
}

/// The tombstone row (without its trailing newline) for `cid` in `bucket`.
pub fn write_tombstone(bucket: &Bucket, cid: &str, hlc: &str) -> (r: Result<String, SyncError>)
    ensures
        match r {
            Ok(s) => tombstone_row(*bucket, cid@, hlc@) == Ok::<Seq<char>, Seq<char>>(s@),
            Err(SyncError::CloudSync(m)) => tombstone_row(*bucket, cid@, hlc@) == Err::<Seq<char>, Seq<char>>(m@),
            Err(_) => false,
        },
{
    let cols = bucket.pk_columns();
    let ghost spec_cols = pk_columns_spec(*bucket);
    assert(cols@.len() == spec_cols.len());
    let mut out = to_owned_string("{");
    if cols.len() == 1 {
        push_field(&mut out, "id", cid);
    } else if cols.len() == 2 {
        assert(cols@[0]@ == spec_cols[0]);
        assert(cols@[1]@ == spec_cols[1]);
        match split_junction_id(cid) {
            Some((a, b)) => {
                push_field(&mut out, cols[0], a);
                push_str(&mut out, ",");
                push_field(&mut out, cols[1], b);
            },
            None => {
                let mut m = to_owned_string("malformed junction id ");
                let d = debug_quoted(cid);
                push_str(&mut m, d.as_str());
                return Err(SyncError::CloudSync(m));
            },
        }
    } else {
        return Err(SyncError::CloudSync(to_owned_string("bucket has unexpected PK arity")));
    }
    let ghost head = out@;
    push_str(&mut out, ",");
    push_field(&mut out, "_hlc", hlc);
    push_str(&mut out, ",");
    let qd = json_string("_deleted");
    push_str(&mut out, qd.as_str());
    push_str(&mut out, ":true}");
    assert(out@ =~= head + (","@ + json_field("_hlc"@, hlc@) + ","@ + json_quote("_deleted"@) + ":true}"@));
    proof {
        if cols@.len() == 1 {
            assert(head =~= "{"@ + json_field("id"@, cid@));
        } else {
            let (a, c) = split_junction_spec(cid@).unwrap();
            assert(head =~= "{"@ + json_field(spec_cols[0], a) + ","@ + json_field(spec_cols[1], c));
        }
    }
    Ok(out)
}

/// One parsed wire row: the row's JSON text, its `_hlc` (`""` when absent) and its
/// `_deleted` flag (`false` when absent).
#[derive(Debug)]
pub struct ParsedRow {
    pub json: Vec<u8>,
    pub hlc: String,
    pub deleted: bool,
}

/// The error text for a row without primary-key column `col`.
pub open spec fn missing_pk(b: Bucket, col: Seq<char>) -> Seq<char> {
    "row missing PK column "@ + debug_str(col) + " in bucket "@ + bucket_name(b)
}

/// The canonical identity of a parsed row: its `id` (or `key`) for entities and
/// settings, `a|b` of its two key columns for junctions. `Err` carries the message.
pub open spec fn canonical_id_spec(b: Bucket, line: Seq<u8>) -> Result<Seq<char>, Seq<char>> {
    let cols = pk_columns_spec(b);
    if cols.len() == 1 {
        match json_field_str(line, cols[0]) {
            Some(v) => Ok(v),
            None => Err(missing_pk(b, cols[0])),
        }
    } else if cols.len() == 2 {
        match json_field_str(line, cols[0]) {
            None => Err(missing_pk(b, cols[0])),
            Some(x) => match json_field_str(line, cols[1]) {
                None => Err(missing_pk(b, cols[1])),
                Some(y) => Ok(junction_id_spec(x, y)),
            },
        }
    } else {
        Err("bucket has unexpected PK arity"@)
    }
}

fn missing_pk_error(bucket: &Bucket, col: &str) -> (e: SyncError)
    ensures
        e matches SyncError::CloudSync(m) && m@ == missing_pk(*bucket, col@),
{
    let mut m = to_owned_string("row missing PK column ");
    let d = debug_quoted(col);
    push_str(&mut m, d.as_str());
    push_str(&mut m, " in bucket ");
    let n = bucket.as_str();
    push_str(&mut m, n.as_str());
    SyncError::CloudSync(m)
}

/// The canonical identity of the row whose JSON text is `line`.
pub fn canonical_id(bucket: &Bucket, line: &[u8]) -> (r: Result<String, SyncError>)
    ensures
        match r {
            Ok(s) => canonical_id_spec(*bucket, line@) == Ok::<Seq<char>, Seq<char>>(s@),
            Err(SyncError::CloudSync(m)) => canonical_id_spec(*bucket, line@) == Err::<Seq<char>, Seq<char>>(m@),
            Err(_) => false,
        },
{
    let cols = bucket.pk_columns();
    let ghost spec_cols = pk_columns_spec(*bucket);
    assert(cols@.len() == spec_cols.len());
    if cols.len() == 1 {
        assert(cols@[0]@ == spec_cols[0]);
        match field_str(line, cols[0]) {
            Some(v) => Ok(v),
            None => Err(missing_pk_error(bucket, cols[0])),
        }
    } else if cols.len() == 2 {
        assert(cols@[0]@ == spec_cols[0]);
        assert(cols@[1]@ == spec_cols[1]);
        let a = match field_str(line, cols[0]) {
            Some(v) => v,
            None => return Err(missing_pk_error(bucket, cols[0])),
        };
        let b = match field_str(line, cols[1]) {
            Some(v) => v,
            None => return Err(missing_pk_error(bucket, cols[1])),
        };
        Ok(junction_entity_id(a.as_str(), b.as_str()))
    } else {
        Err(SyncError::CloudSync(to_owned_string("bucket has unexpected PK arity")))
    }
}

/// The parsed rows of a bucket's lines (the plain contents of each row), or the first
/// error: a line that is not JSON, or a row without its identity. Empty lines are
/// skipped.
pub open spec fn parse_rows(b: Bucket, lines: Seq<Seq<u8>>) -> Result<Seq<(Seq<u8>, Seq<char>, bool)>, Seq<char>>
    decreases lines.len(),
{
    if lines.len() == 0 {
        Ok(Seq::empty())
    } else {
        match parse_rows(b, lines.drop_last()) {
            Err(e) => Err(e),
            Ok(rs) => {
                let l = lines.last();
                if l.len() == 0 {
                    Ok(rs)
                } else if json_parse_error(l) is Some {
                    Err("bad JSONL row: "@ + json_parse_error(l).unwrap())
                } else {
                    match canonical_id_spec(b, l) {
                        Err(e) => Err(e),
                        Ok(_) => Ok(rs.push((
                            l,
                            match json_field_str(l, "_hlc"@) { Some(h) => h, None => Seq::empty() },
                            match json_field_bool(l, "_deleted"@) { Some(d) => d, None => false },
                        ))),
                    }
                }
            },
        }
    }
}

/// The plain contents of parsed rows.
pub open spec fn rows_view(rows: Seq<ParsedRow>) -> Seq<(Seq<u8>, Seq<char>, bool)> {
    rows.map_values(|r: ParsedRow| (r.json@, r.hlc@, r.deleted))
}

/// Parse a bucket's JSONL. Lenient: extra fields are ignored; each row must carry its
/// primary-key column(s).
pub fn parse_bucket(bucket: &Bucket, bytes: &[u8]) -> (r: Result<Vec<ParsedRow>, SyncError>)
    ensures
        match r {
            Ok(rows) => parse_rows(*bucket, split_on(bytes@, 10u8)) == Ok::<Seq<(Seq<u8>, Seq<char>, bool)>, Seq<char>>(rows_view(rows@)),
            Err(SyncError::CloudSync(m)) => parse_rows(*bucket, split_on(bytes@, 10u8)) == Err::<Seq<(Seq<u8>, Seq<char>, bool)>, Seq<char>>(m@),
            Err(_) => false,
        },
{
    let ranges = split_byte_ranges(bytes, 10u8);
    let ghost lines = split_on(bytes@, 10u8);
    let mut out: Vec<ParsedRow> = Vec::new();
    let mut k: usize = 0;
    assert(lines.subrange(0, 0) =~= Seq::<Seq<u8>>::empty());
    assert(rows_view(out@) =~= Seq::<(Seq<u8>, Seq<char>, bool)>::empty());
    while k < ranges.len()
        invariant
            k <= ranges@.len(),
            lines == split_on(bytes@, 10u8),
            pieces(bytes@, ranges@) == lines,
            forall|j: int| 0 <= j < ranges@.len() ==> (#[trigger] ranges@[j]).0 <= ranges@[j].1 <= bytes@.len(),
            parse_rows(*bucket, lines.subrange(0, k as int)) == Ok::<Seq<(Seq<u8>, Seq<char>, bool)>, Seq<char>>(rows_view(out@)),
        decreases ranges@.len() - k,
    {
        let ghost cur = lines.subrange(0, k + 1);
        assert(cur.drop_last() =~= lines.subrange(0, k as int));
        let (lo, hi) = ranges[k];
        let line = slice_subrange(bytes, lo, hi);
        assert(line@ == lines[k as int]);
        assert(cur.last() == lines[k as int]);
        if line.len() > 0 {
            match parse_error(line) {
                Some(e) => {
                    let mut m = to_owned_string("bad JSONL row: ");
                    push_str(&mut m, e.as_str());
                    proof {
                        lemma_parse_rows_err_prefix(*bucket, lines, k as int + 1);
                    }
                    return Err(SyncError::CloudSync(m));
                },
                None => {},
            }
            match canonical_id(bucket, line) {
                Err(e) => {
                    proof {
                        lemma_parse_rows_err_prefix(*bucket, lines, k as int + 1);
                    }
                    return Err(e);
                },
                Ok(_) => {},
            }
            let hlc = match field_str(line, "_hlc") {
                Some(h) => h,
                None => String::new(),
            };
            let deleted = match field_bool(line, "_deleted") {
                Some(d) => d,
                None => false,
            };
            let ghost before = out@;
            out.push(ParsedRow { json: slice_to_vec(line), hlc, deleted });
            assert(rows_view(out@) =~= rows_view(before).push((line@, out@.last().hlc@, deleted)));
        }
        k = k + 1;
    }
    assert(lines.subrange(0, ranges@.len() as int) =~= lines);
    Ok(out)
}

/// An error in the first `k` lines is the error of the whole parse.
proof fn lemma_parse_rows_err_prefix(b: Bucket, lines: Seq<Seq<u8>>, k: int)
    requires
        0 <= k <= lines.len(),
        parse_rows(b, lines.subrange(0, k)) is Err,
    ensures
        parse_rows(b, lines) == parse_rows(b, lines.subrange(0, k)),
    decreases lines.len() - k,
{
    if k < lines.len() {
        let next = lines.subrange(0, k + 1);
        assert(next.drop_last() =~= lines.subrange(0, k));
        lemma_parse_rows_err_prefix(b, lines, k + 1);
    } else {
        assert(lines.subrange(0, k) =~= lines);
    }
}

/// Whether a tombstone of entity `id` belongs to `bucket`: every tombstone of the
/// bucket's entity type does, except that a track shard keeps only its own ids.
pub fn tombstone_in_bucket(bucket: &Bucket, id: &str) -> (keep: bool)
    ensures
        keep == match *bucket {
            Bucket::Tracks(n) => shard_spec(id@) == n,
            _ => true,
        },
{
    match bucket {
        Bucket::Tracks(n) => shard_for_track_id(id) == *n,
        _ => true,
    }
}

/// The greatest stamp in `rows` (id, stamp) among the ids sharding into `n`, or `""`.
pub open spec fn shard_max(n: u8, rows: Seq<(String, String)>) -> Seq<char>
    decreases rows.len(),
{
    if rows.len() == 0 {
        Seq::empty()
    } else {
        let m = shard_max(n, rows.drop_last());
        let r = rows.last();
        if shard_spec(r.0@) == n && lex_lt(m, r.1@) { r.1@ } else { m }
    }
}

/// The watermark of track shard `n`: the greatest stamp over its live rows, then its
/// tombstones (each list of (id, stamp)), `""` when there is none.
pub fn shard_max_hlc(n: u8, live: &Vec<(String, String)>, tombs: &Vec<(String, String)>) -> (mx: String)
    ensures
        mx@ == shard_max(n, live@ + tombs@),
{
    let ghost all = live@ + tombs@;
    let mut mx = String::new();
    let mut i: usize = 0;
    while i < live.len()
        invariant
            i <= live@.len(),
            all == live@ + tombs@,
            mx@ == shard_max(n, all.subrange(0, i as int)),
        decreases live@.len() - i,
    {
        assert(all.subrange(0, i + 1).drop_last() =~= all.subrange(0, i as int));
        assert(all[i as int] == live@[i as int]);
        if shard_for_track_id(live[i].0.as_str()) == n && str_lt(mx.as_str(), live[i].1.as_str()) {
            mx = live[i].1.clone();
        }
        i = i + 1;
    }
    let mut j: usize = 0;
    while j < tombs.len()
        invariant
            j <= tombs@.len(),
            all == live@ + tombs@,
            mx@ == shard_max(n, all.subrange(0, live@.len() + j)),
        decreases tombs@.len() - j,
    {
        assert(all.subrange(0, live@.len() + j + 1).drop_last() =~= all.subrange(0, live@.len() + j));
        assert(all[live@.len() + j] == tombs@[j as int]);
        if shard_for_track_id(tombs[j].0.as_str()) == n && str_lt(mx.as_str(), tombs[j].1.as_str()) {
            mx = tombs[j].1.clone();
        }
        j = j + 1;
    }
    assert(all.subrange(0, all.len() as int) =~= all);
    mx
}

/// The watermark of a non-track bucket: the greater of the max live stamp and the max
/// tombstone stamp, `""` when neither exists.
pub fn max_stamp(live: Option<String>, tomb: Option<String>) -> (mx: String)
    ensures
        mx@ == match (live, tomb) {
            (Some(a), Some(b)) => if lex_lt(a@, b@) { b@ } else { a@ },
            (Some(a), None) => a@,
            (None, Some(b)) => b@,
            (None, None) => Seq::<char>::empty(),
        },
{
    match (live, tomb) {
        (Some(a), Some(b)) => if str_lt(a.as_str(), b.as_str()) { b } else { a },
        (Some(a), None) => a,
        (None, Some(b)) => b,
        (None, None) => String::new(),
    }
}

/// The serialize-time tie rule agrees with the merge engine: for one live row and one
/// tombstone of the same id, the bucket emits the tombstone exactly when merging that
/// tombstone into that live row deletes it (entities: delete wins a tie; junctions:
/// the add wins a tie).
pub proof fn lemma_emission_matches_merge(
    cid: String,
    h_live: String,
    tomb_cid: String,
    h_tomb: String,
    ordered: bool,
    endpoints_exist: bool,
)
    requires
        tomb_cid@ == cid@,
    ensures
        ({
            let live = seq![(cid, h_live)];
            let tombs = seq![(tomb_cid, h_tomb)];
            &&& (emission(true, live, tombs, cid@) == Some(Emission::Dead(h_tomb@)))
                == (entity_action(Some(h_live@), None, h_tomb@, true) == EntityAction::Delete)
            &&& (emission(false, live, tombs, cid@) == Some(Emission::Dead(h_tomb@)))
                == (junction_action(Some(h_live@), None, h_tomb@, true, ordered, endpoints_exist) == JunctionAction::Delete)
        }),
{
    let live = seq![(cid, h_live)];
    let tombs = seq![(tomb_cid, h_tomb)];
    assert(live.drop_last() =~= Seq::<(String, String)>::empty());
    assert(last_live(live, cid@) == Some(0int));
    assert(tombs.drop_last() =~= Seq::<(String, String)>::empty());
    assert(emission(true, live, tombs.drop_last(), cid@) == Some(Emission::Live(0)));
    assert(emission(false, live, tombs.drop_last(), cid@) == Some(Emission::Live(0)));
}

/// The greatest tombstone stamp listed for `cid`.
pub open spec fn max_tomb(tombs: Seq<(String, String)>, cid: Seq<char>) -> Option<Seq<char>>
    decreases tombs.len(),
{
    if tombs.len() == 0 {
        None
    } else {
        let prev = max_tomb(tombs.drop_last(), cid);
        let t = tombs.last();
        if t.0@ != cid {
            prev
        } else {
            match prev {
                None => Some(t.1@),
                Some(m) => if lex_lt(m, t.1@) { Some(t.1@) } else { Some(m) },
            }
        }
    }
}

/// Whether tombstone stamp `t` beats live stamp `h` (`>=` for entities, `>` for
/// junctions).
pub open spec fn tomb_beats(tie_to_delete: bool, t: Seq<char>, h: Seq<char>) -> bool {
    if tie_to_delete { stamp_ge(t, h) } else { lex_lt(h, t) }
}

/// What `cid` emits, in closed form: its greatest tombstone when that beats its last
/// live row (or there is no live row), else that live row.
pub open spec fn emission_closed(tie_to_delete: bool, live: Seq<(String, String)>, tombs: Seq<(String, String)>, cid: Seq<char>) -> Option<Emission> {
    match (last_live(live, cid), max_tomb(tombs, cid)) {
        (None, None) => None,
        (None, Some(t)) => Some(Emission::Dead(t)),
        (Some(i), None) => Some(Emission::Live(i)),
        (Some(i), Some(t)) => if tomb_beats(tie_to_delete, t, live[i].1@) { Some(Emission::Dead(t)) } else { Some(Emission::Live(i)) },
    }
}

/// Emission is order-independent: what an id emits depends only on its last live row and
/// its greatest tombstone, not on the order the tombstones are listed in. Two devices
/// holding the same rows and tombstones therefore emit the same bucket.
pub proof fn lemma_emission_closed_form(tie_to_delete: bool, live: Seq<(String, String)>, tombs: Seq<(String, String)>, cid: Seq<char>)
    ensures
        emission(tie_to_delete, live, tombs, cid) == emission_closed(tie_to_delete, live, tombs, cid),
    decreases tombs.len(),
{
    if tombs.len() > 0 {
        let pre = tombs.drop_last();
        lemma_emission_closed_form(tie_to_delete, live, pre, cid);
        let t = tombs.last();
        if t.0@ == cid {
            let tv = t.1@;
            match max_tomb(pre, cid) {
                None => {},
                Some(m) => {
                    crate::text::lemma_lex_total(m, tv);
                    crate::text::lemma_lex_asymmetric(m, tv);
                    match last_live(live, cid) {
                        None => {},
                        Some(i) => {
                            let h = live[i].1@;
                            crate::text::lemma_lex_transitive(tv, m, h);
                            crate::text::lemma_lex_transitive(h, tv, m);
                            crate::text::lemma_lex_transitive(m, tv, h);
                            crate::text::lemma_lex_transitive(h, m, tv);
                            crate::text::lemma_lex_total(tv, h);
                            crate::text::lemma_lex_total(m, h);
                        },
                    }
                },
            }
        }
    }
}

} // verus!
