//! The merge engine's decisions: how one remote row folds into the local state of its
//! entity, with the HLC as the oracle.
//!
//! - **Entities — delete wins a tie:** a delete at HLC `>=` the live row wins; a live
//!   upsert must be strictly `>` a tombstone to resurrect.
//! - **Junctions — add wins a tie:** a delete wins only if strictly `>` the add; an add at
//!   HLC `>=` a tombstone resurrects. Ordering fields are last-writer-wins; the link's
//!   HLC always advances to the max so converged devices hold identical rows.
//! - **Settings — last writer wins:** a higher per-key HLC wins; the loser takes the
//!   winner's value and HLC verbatim.
//!
//! HLCs are compared as strings (the fixed-width format is byte-lexicographic; `""`
//! sorts below all). The database reads and writes that carry these decisions out live
//! outside this crate.
use vstd::prelude::*;
use crate::text::{lex_lt, split_on, str_eq, str_lt};

verus! {

/// `a >= b` on stamps.
pub open spec fn stamp_ge(a: Seq<char>, b: Seq<char>) -> bool {
    !lex_lt(a, b)
}

/// `a >= b` on stamps.
pub fn hlc_ge(a: &str, b: &str) -> (r: bool)
    ensures
        r == stamp_ge(a@, b@),
{
    !str_lt(a, b)
}

/// `a > b` on stamps.
pub fn hlc_gt(a: &str, b: &str) -> (r: bool)
    ensures
        r == lex_lt(b@, a@),
{
    str_lt(b, a)
}

/// What merging one remote entity row does locally.
#[derive(Debug, Clone, Copy, PartialEq, Eq, Structural)]
pub enum EntityAction {
    /// Leave local state unchanged.
    Keep,
    /// No local trace: insert the remote row.
    Insert,
    /// The local tombstone is older: drop it and insert the remote row.
    Resurrect,
    /// The remote row is strictly newer than the local row: overwrite it.
    Replace,
    /// The delete is at `>=` the local row: hard-delete and record the tombstone.
    Delete,
    /// No local row: record (or advance to the max) the tombstone.
    RecordTombstone,
}

/// The entity decision (delete wins a tie).
pub open spec fn entity_action(live: Option<Seq<char>>, tomb: Option<Seq<char>>, h: Seq<char>, deleted: bool) -> EntityAction {
    if !deleted {
        match tomb {
            Some(t) => if stamp_ge(t, h) { EntityAction::Keep } else { EntityAction::Resurrect },
            None => match live {
                None => EntityAction::Insert,
                Some(l) => if lex_lt(l, h) { EntityAction::Replace } else { EntityAction::Keep },
            },
        }
    } else {
        match live {
            Some(l) => if stamp_ge(h, l) { EntityAction::Delete } else { EntityAction::Keep },
            None => EntityAction::RecordTombstone,
        }
    }
}

fn opt_view(o: Option<&str>) -> (r: Ghost<Option<Seq<char>>>)
    ensures
        r@ == match o { Some(s) => Some(s@), None => None::<Seq<char>> },
{
    Ghost(match o { Some(s) => Some(s@), None => None })
}

/// Decide how a remote entity row (`remote_hlc`, `remote_deleted`) merges against the
/// local live row's stamp and the local tombstone's stamp.
pub fn decide_entity(local_live: Option<&str>, local_tomb: Option<&str>, remote_hlc: &str, remote_deleted: bool) -> (a: EntityAction)
    ensures
        a == entity_action(
            match local_live { Some(s) => Some(s@), None => None },
            match local_tomb { Some(s) => Some(s@), None => None },
            remote_hlc@,
            remote_deleted,
        ),
{
    if !remote_deleted {
        match local_tomb {
            Some(t) => if hlc_ge(t, remote_hlc) { EntityAction::Keep } else { EntityAction::Resurrect },
            None => match local_live {
                None => EntityAction::Insert,
                Some(l) => if hlc_gt(remote_hlc, l) { EntityAction::Replace } else { EntityAction::Keep },
            },
        }
    } else {
        match local_live {
            Some(l) => if hlc_ge(remote_hlc, l) { EntityAction::Delete } else { EntityAction::Keep },
            None => EntityAction::RecordTombstone,
        }
    }
}

/// What merging one remote junction row does locally.
#[derive(Debug, Clone, Copy, PartialEq, Eq, Structural)]
pub enum JunctionAction {
    /// Leave local state unchanged.
    Keep,
    /// Overwrite the ordering fields and stamp of an ordered link (remote strictly newer).
    UpdateOrdering,
    /// Advance an unordered link's stamp to the remote's (remote strictly newer).
    AdvanceHlc,
    /// Insert the link (brand new, both endpoints present).
    Insert,
    /// Drop the older tombstone and insert the link (both endpoints present).
    Resurrect,
    /// A new link whose endpoints are missing locally: skip the orphan.
    SkipOrphan,
    /// The delete is strictly newer than the link: delete it and record the tombstone.
    Delete,
    /// No local link: record (or advance to the max) the tombstone.
    RecordTombstone,
}

/// The junction decision (add wins a tie).
pub open spec fn junction_action(
    live: Option<Seq<char>>,
    tomb: Option<Seq<char>>,
    h: Seq<char>,
    deleted: bool,
    ordered: bool,
    endpoints_exist: bool,
) -> JunctionAction {
    if !deleted {
        match live {
            Some(l) => if lex_lt(l, h) {
                if ordered { JunctionAction::UpdateOrdering } else { JunctionAction::AdvanceHlc }
            } else {
                JunctionAction::Keep
            },
            None => match tomb {
                Some(t) => if stamp_ge(h, t) {
                    if endpoints_exist { JunctionAction::Resurrect } else { JunctionAction::Keep }
                } else {
                    JunctionAction::Keep
                },
                None => if endpoints_exist { JunctionAction::Insert } else { JunctionAction::SkipOrphan },
            },
        }
    } else {
        match live {
            Some(l) => if lex_lt(l, h) { JunctionAction::Delete } else { JunctionAction::Keep },
            None => JunctionAction::RecordTombstone,
        }
    }
}

/// Decide how a remote junction row merges. `ordered` is true for links that carry
/// ordering fields (playlist membership); `endpoints_exist` says whether both rows the
/// link joins exist locally (consulted only when the link would be created).
pub fn decide_junction(
    local_live: Option<&str>,
    local_tomb: Option<&str>,
    remote_hlc: &str,
    remote_deleted: bool,
    ordered: bool,
    endpoints_exist: bool,
) -> (a: JunctionAction)
    ensures
        a == junction_action(
            match local_live { Some(s) => Some(s@), None => None },
            match local_tomb { Some(s) => Some(s@), None => None },
            remote_hlc@,
            remote_deleted,
            ordered,
            endpoints_exist,
        ),
{
    if !remote_deleted {
        match local_live {
            Some(l) => if hlc_gt(remote_hlc, l) {
                if ordered { JunctionAction::UpdateOrdering } else { JunctionAction::AdvanceHlc }
            } else {
                JunctionAction::Keep
            },
            None => match local_tomb {
                Some(t) => if hlc_ge(remote_hlc, t) {
                    if endpoints_exist { JunctionAction::Resurrect } else { JunctionAction::Keep }
                } else {
                    JunctionAction::Keep
                },
                None => if endpoints_exist { JunctionAction::Insert } else { JunctionAction::SkipOrphan },
            },
        }
    } else {
        match local_live {
            Some(l) => if hlc_gt(remote_hlc, l) { JunctionAction::Delete } else { JunctionAction::Keep },
            None => JunctionAction::RecordTombstone,
        }
    }
}

/// Whether a remote setting (`remote_hlc`) overwrites the local one, whose stamp is
/// `local_hlc` (`""` when the key was never stamped). Keys outside the sync whitelist
/// are never applied.
pub open spec fn setting_applies(synced: bool, local_hlc: Seq<char>, remote_hlc: Seq<char>) -> bool {
    synced && lex_lt(local_hlc, remote_hlc)
}

/// Whether a remote settings row for `key` is applied over the local stamp.
pub fn decide_setting(key: &str, local_hlc: Option<&str>, remote_hlc: &str) -> (apply: bool)
    ensures
        apply == setting_applies(
            crate::settings::synced_setting_spec(key@),
            match local_hlc { Some(s) => s@, None => Seq::empty() },
            remote_hlc@,
        ),
{
    if !crate::settings::is_synced_setting(key) {
        return false;
    }
    match local_hlc {
        Some(l) => hlc_gt(remote_hlc, l),
        None => {
            proof {
                reveal_strlit("");
            }
            hlc_gt(remote_hlc, "")
        },
    }
}

/// Whether the local stamp was authored by this device: its node id (the last
/// `-`-separated segment) equals ours. The never-stamped `""` has no node and never
/// matches a real node id.
pub open spec fn authored_by(local_hlc: Seq<char>, self_node: Seq<char>) -> bool {
    split_on(local_hlc, '-').last() == self_node
}

/// Whether an override of the local value must be reported: this device authored it.
pub fn is_local_authorship(local_hlc: &str, self_node: Option<&str>) -> (r: bool)
    ensures
        r == match self_node { Some(n) => authored_by(local_hlc@, n@), None => false },
{
    match self_node {
        None => false,
        Some(n) => {
            let v = crate::text::chars_of(local_hlc);
            let ranges = crate::text::split_ranges(&v, '-');
            proof {
                crate::text::lemma_split_nonempty(v@, '-');
            }
            let (lo, hi) = ranges[ranges.len() - 1];
            proof {
                assert(crate::text::pieces(v@, ranges@)[ranges@.len() - 1] == v@.subrange(lo as int, hi as int));
            }
            crate::text::range_eq_str(&v, lo, hi, n)
        },
    }
}

/// A non-trivial override observed during a merge: this device's own value for an
/// entity was replaced by a newer remote one. Observational only.
#[derive(Clone, Debug)]
pub struct OverrideEvent {
    pub label: String,
    /// Filled in by the pull pipeline (the remote manifest's last writer).
    pub winner_device_id: String,
}

/// The override a merge reports when it discards the local value stamped `local_hlc`:
/// one exists only when this device authored that value. Its label is the entity's
/// display label, falling back to its id; the winner is filled in later.
pub fn detect_override(local_hlc: &str, self_node: Option<&str>, label: Option<String>, cid: &str) -> (r: Option<OverrideEvent>)
    ensures
        match r {
            Some(ev) => (match self_node { Some(n) => authored_by(local_hlc@, n@), None => false })
                && ev.label@ == (match label { Some(l) => l@, None => cid@ })
                && ev.winner_device_id@ == Seq::<char>::empty(),
            None => !(match self_node { Some(n) => authored_by(local_hlc@, n@), None => false }),
        },
{
    if !is_local_authorship(local_hlc, self_node) {
        return None;
    }
    let label = match label {
        Some(l) => l,
        None => crate::text::to_owned_string(cid),
    };
    Some(OverrideEvent { label, winner_device_id: String::new() })
}

} // verus!

verus! {

/// The local state of one entity or link, as the merge sees it.
pub enum Slot<V> {
    /// No row and no tombstone.
    Empty,
    /// A live row with its stamp and payload.
    Live(Seq<char>, V),
    /// A tombstone with its stamp.
    Dead(Seq<char>),
}

pub open spec fn slot_live<V>(s: Slot<V>) -> Option<Seq<char>> {
    match s {
        Slot::Live(h, _) => Some(h),
        _ => None,
    }
}

pub open spec fn slot_tomb<V>(s: Slot<V>) -> Option<Seq<char>> {
    match s {
        Slot::Dead(t) => Some(t),
        _ => None,
    }
}

/// The larger of an optional stamp and a stamp (`MAX` on text).
pub open spec fn stamp_max(t: Option<Seq<char>>, h: Seq<char>) -> Seq<char> {
    match t {
        Some(t) => if lex_lt(t, h) { h } else { t },
        None => h,
    }
}

/// The local state after merging a remote entity row.
pub open spec fn apply_entity<V>(s: Slot<V>, h: Seq<char>, deleted: bool, v: V) -> Slot<V> {
    match entity_action(slot_live(s), slot_tomb(s), h, deleted) {
        EntityAction::Keep => s,
        EntityAction::Insert | EntityAction::Resurrect | EntityAction::Replace => Slot::Live(h, v),
        EntityAction::Delete | EntityAction::RecordTombstone => Slot::Dead(stamp_max(slot_tomb(s), h)),
    }
}

/// The local state after merging a remote junction row whose endpoints exist.
pub open spec fn apply_junction<V>(s: Slot<V>, h: Seq<char>, deleted: bool, v: V, ordered: bool) -> Slot<V> {
    match junction_action(slot_live(s), slot_tomb(s), h, deleted, ordered, true) {
        JunctionAction::Keep | JunctionAction::SkipOrphan => s,
        JunctionAction::UpdateOrdering | JunctionAction::Insert | JunctionAction::Resurrect => Slot::Live(h, v),
        JunctionAction::AdvanceHlc => match s {
            Slot::Live(_, old) => Slot::Live(h, old),
            _ => Slot::Live(h, v),
        },
        JunctionAction::Delete | JunctionAction::RecordTombstone => Slot::Dead(stamp_max(slot_tomb(s), h)),
    }
}

proof fn lemma_order3(a: Seq<char>, b: Seq<char>, c: Seq<char>)
    ensures
        !lex_lt(a, a) && !lex_lt(b, b) && !lex_lt(c, c),
        a != b ==> lex_lt(a, b) || lex_lt(b, a),
        a != c ==> lex_lt(a, c) || lex_lt(c, a),
        b != c ==> lex_lt(b, c) || lex_lt(c, b),
        lex_lt(a, b) ==> !lex_lt(b, a),
        lex_lt(a, c) ==> !lex_lt(c, a),
        lex_lt(b, c) ==> !lex_lt(c, b),
        lex_lt(a, b) && lex_lt(b, c) ==> lex_lt(a, c),
        lex_lt(a, c) && lex_lt(c, b) ==> lex_lt(a, b),
        lex_lt(b, a) && lex_lt(a, c) ==> lex_lt(b, c),
        lex_lt(b, c) && lex_lt(c, a) ==> lex_lt(b, a),
        lex_lt(c, a) && lex_lt(a, b) ==> lex_lt(c, b),
        lex_lt(c, b) && lex_lt(b, a) ==> lex_lt(c, a),
{
    crate::text::lemma_lex_irreflexive(a);
    crate::text::lemma_lex_irreflexive(b);
    crate::text::lemma_lex_irreflexive(c);
    crate::text::lemma_lex_total(a, b);
    crate::text::lemma_lex_total(a, c);
    crate::text::lemma_lex_total(b, c);
    crate::text::lemma_lex_asymmetric(a, b);
    crate::text::lemma_lex_asymmetric(a, c);
    crate::text::lemma_lex_asymmetric(b, c);
    crate::text::lemma_lex_transitive(a, b, c);
    crate::text::lemma_lex_transitive(a, c, b);
    crate::text::lemma_lex_transitive(b, a, c);
    crate::text::lemma_lex_transitive(b, c, a);
    crate::text::lemma_lex_transitive(c, a, b);
    crate::text::lemma_lex_transitive(c, b, a);
}

/// The stamp a slot carries (`""` for an empty slot).
pub open spec fn slot_stamp<V>(s: Slot<V>) -> Seq<char> {
    match s {
        Slot::Live(h, _) => h,
        Slot::Dead(t) => t,
        Slot::Empty => Seq::empty(),
    }
}

/// Law: merging the same entity row twice is the same as merging it once.
pub proof fn lemma_entity_idempotent<V>(s: Slot<V>, h: Seq<char>, deleted: bool, v: V)
    ensures
        apply_entity(apply_entity(s, h, deleted, v), h, deleted, v) == apply_entity(s, h, deleted, v),
{
    lemma_order3(slot_stamp(s), h, h);
}

/// Law: two remote rows for one entity merge to the same state in either order (rows
/// with one stamp are one write, so two live rows with equal stamps carry one payload).
pub proof fn lemma_entity_commutes<V>(s: Slot<V>, h1: Seq<char>, d1: bool, v1: V, h2: Seq<char>, d2: bool, v2: V)
    requires
        h1 == h2 && !d1 && !d2 ==> v1 == v2,
    ensures
        apply_entity(apply_entity(s, h1, d1, v1), h2, d2, v2) == apply_entity(apply_entity(s, h2, d2, v2), h1, d1, v1),
{
    lemma_order3(slot_stamp(s), h1, h2);
}

/// Law: a delete and a live write at the same stamp leave an entity deleted, in either
/// order.
pub proof fn lemma_entity_delete_wins_tie<V>(s: Slot<V>, h: Seq<char>, v: V)
    requires
        s == Slot::<V>::Empty,
    ensures
        apply_entity(apply_entity(s, h, false, v), h, true, v) == Slot::<V>::Dead(h),
        apply_entity(apply_entity(s, h, true, v), h, false, v) == Slot::<V>::Dead(h),
{
    lemma_order3(h, h, h);
}

/// Law: merging the same link row twice is the same as merging it once.
pub proof fn lemma_junction_idempotent<V>(s: Slot<V>, h: Seq<char>, deleted: bool, v: V, ordered: bool)
    ensures
        apply_junction(apply_junction(s, h, deleted, v, ordered), h, deleted, v, ordered)
            == apply_junction(s, h, deleted, v, ordered),
{
    lemma_order3(slot_stamp(s), h, h);
}

/// Law: two remote rows for one link merge to the same state in either order. Ordered
/// links carry one payload per stamp; unordered links carry no payload of their own.
pub proof fn lemma_junction_commutes<V>(
    s: Slot<V>,
    h1: Seq<char>,
    d1: bool,
    v1: V,
    h2: Seq<char>,
    d2: bool,
    v2: V,
    ordered: bool,
)
    requires
        h1 == h2 && !d1 && !d2 ==> v1 == v2,
        !ordered ==> v1 == v2 && (s matches Slot::Live(_, v0) ==> v0 == v1),
    ensures
        apply_junction(apply_junction(s, h1, d1, v1, ordered), h2, d2, v2, ordered)
            == apply_junction(apply_junction(s, h2, d2, v2, ordered), h1, d1, v1, ordered),
{
    lemma_order3(slot_stamp(s), h1, h2);
}

/// Law: an add and a delete of a link at the same stamp leave the link present, in either
/// order.
pub proof fn lemma_junction_add_wins_tie<V>(h: Seq<char>, v: V, ordered: bool)
    ensures
        apply_junction(apply_junction(Slot::<V>::Empty, h, false, v, ordered), h, true, v, ordered)
            == Slot::<V>::Live(h, v),
        apply_junction(apply_junction(Slot::<V>::Empty, h, true, v, ordered), h, false, v, ordered)
            == Slot::<V>::Live(h, v),
{
    lemma_order3(h, h, h);
}

/// The state after merging remote rows `(stamp, deleted, payload)` for one entity, in
/// order.
pub open spec fn fold_entity<V>(s: Slot<V>, rows: Seq<(Seq<char>, bool, V)>) -> Slot<V>
    decreases rows.len(),
{
    if rows.len() == 0 {
        s
    } else {
        let r = rows.last();
        apply_entity(fold_entity(s, rows.drop_last()), r.0, r.1, r.2)
    }
}

/// Two live rows with one stamp are one write: they carry one payload.
pub open spec fn one_write_per_stamp<V>(rows: Seq<(Seq<char>, bool, V)>) -> bool {
    forall|i: int, j: int|
        0 <= i < rows.len() && 0 <= j < rows.len() && (#[trigger] rows[i]).0 == (#[trigger] rows[j]).0 && !rows[i].1
            && !rows[j].1 ==> rows[i].2 == rows[j].2
}

proof fn lemma_one_write_sub<V>(rows: Seq<(Seq<char>, bool, V)>, sub: Seq<(Seq<char>, bool, V)>)
    requires
        one_write_per_stamp(rows),
        forall|k: int| 0 <= k < sub.len() ==> rows.contains(#[trigger] sub[k]),
    ensures
        one_write_per_stamp(sub),
{
    assert forall|i: int, j: int|
        0 <= i < sub.len() && 0 <= j < sub.len() && (#[trigger] sub[i]).0 == (#[trigger] sub[j]).0 && !sub[i].1
            && !sub[j].1 implies sub[i].2 == sub[j].2 by {
        assert(rows.contains(sub[i]));
        assert(rows.contains(sub[j]));
        let a = choose|a: int| 0 <= a < rows.len() && rows[a] == sub[i];
        let b = choose|b: int| 0 <= b < rows.len() && rows[b] == sub[j];
        assert(rows[a].0 == rows[b].0);
    }
}

proof fn lemma_entity_move_to_end<V>(s: Slot<V>, p: Seq<(Seq<char>, bool, V)>, x: (Seq<char>, bool, V), q: Seq<(Seq<char>, bool, V)>)
    requires
        one_write_per_stamp(p.push(x) + q),
    ensures
        fold_entity(s, p.push(x) + q) == fold_entity(s, (p + q).push(x)),
    decreases q.len(),
{
    let l = p.push(x) + q;
    if q.len() == 0 {
        assert(l =~= p.push(x));
        assert((p + q).push(x) =~= p.push(x));
    } else {
        let y = q.last();
        let q0 = q.drop_last();
        assert(l.drop_last() =~= p.push(x) + q0);
        assert(l.last() == y);
        assert forall|k: int| 0 <= k < (p.push(x) + q0).len() implies l.contains(#[trigger] (p.push(x) + q0)[k]) by {
            assert(l[k] == (p.push(x) + q0)[k]);
        }
        lemma_one_write_sub(l, p.push(x) + q0);
        lemma_entity_move_to_end(s, p, x, q0);
        let f = fold_entity(s, p + q0);
        assert(((p + q0).push(x)).drop_last() =~= p + q0);
        assert(fold_entity(s, (p + q0).push(x)) == apply_entity(f, x.0, x.1, x.2));
        assert(l[p.len() as int] == x);
        assert(l[l.len() - 1] == y);
        lemma_entity_commutes(f, x.0, x.1, x.2, y.0, y.1, y.2);
        assert(((p + q0).push(y)).drop_last() =~= p + q0);
        assert((p + q0).push(y) =~= p + q);
        assert(((p + q).push(x)).drop_last() =~= p + q);
        assert(fold_entity(s, l) == apply_entity(fold_entity(s, p.push(x) + q0), y.0, y.1, y.2));
        assert(fold_entity(s, p + q) == apply_entity(f, y.0, y.1, y.2));
        assert(fold_entity(s, (p + q).push(x)) == apply_entity(fold_entity(s, p + q), x.0, x.1, x.2));
    }
}

/// Law (order independence): merging the same remote rows for one entity in any order
/// reaches the same state, so devices that receive each other's writes in different
/// orders converge.
pub proof fn lemma_entity_order_independent<V>(s: Slot<V>, a: Seq<(Seq<char>, bool, V)>, b: Seq<(Seq<char>, bool, V)>)
    requires
        a.to_multiset() == b.to_multiset(),
        one_write_per_stamp(a),
    ensures
        fold_entity(s, a) == fold_entity(s, b),
    decreases a.len(),
{
    broadcast use vstd::seq_lib::group_to_multiset_ensures;
    if b.len() == 0 {
        vstd::seq_lib::to_multiset_len(a);
        vstd::seq_lib::to_multiset_len(b);
        assert(a.len() == 0);
        assert(a =~= b);
    } else {
        let x = b.last();
        let b0 = b.drop_last();
        assert(b0.push(x) =~= b);
        assert(b.to_multiset() =~= b0.to_multiset().insert(x));
        assert(a.to_multiset().count(x) > 0);
        assert(a.contains(x));
        let i = choose|i: int| 0 <= i < a.len() && a[i] == x;
        let p = a.subrange(0, i);
        let q = a.subrange(i + 1, a.len() as int);
        assert(a =~= p.push(x) + q);
        let a0 = a.remove(i);
        assert(a0 =~= p + q);
        assert(a0.to_multiset() =~= a.to_multiset().remove(x));
        assert(a0.to_multiset() =~= b0.to_multiset());
        assert forall|k: int| 0 <= k < a0.len() implies a.contains(#[trigger] a0[k]) by {
            if k < i {
                assert(a[k] == a0[k]);
            } else {
                assert(a[k + 1] == a0[k]);
            }
        }
        lemma_one_write_sub(a, a0);
        lemma_entity_order_independent(s, a0, b0);
        lemma_entity_move_to_end(s, p, x, q);
        assert((p + q).push(x).drop_last() =~= p + q);
    }
}

/// The state after merging remote rows for one link (whose endpoints exist), in order.
pub open spec fn fold_junction<V>(s: Slot<V>, rows: Seq<(Seq<char>, bool, V)>, ordered: bool) -> Slot<V>
    decreases rows.len(),
{
    if rows.len() == 0 {
        s
    } else {
        let r = rows.last();
        apply_junction(fold_junction(s, rows.drop_last(), ordered), r.0, r.1, r.2, ordered)
    }
}

/// An unordered link carries no payload of its own: every row, and the local link,
/// holds the same one `w`.
pub open spec fn link_payloads<V>(s: Slot<V>, rows: Seq<(Seq<char>, bool, V)>, ordered: bool, w: V) -> bool {
    !ordered ==> (forall|k: int| 0 <= k < rows.len() ==> (#[trigger] rows[k]).2 == w) && (s matches Slot::Live(_, v0)
        ==> v0 == w)
}

proof fn lemma_fold_junction_payload<V>(s: Slot<V>, rows: Seq<(Seq<char>, bool, V)>, w: V)
    requires
        link_payloads(s, rows, false, w),
    ensures
        fold_junction(s, rows, false) matches Slot::Live(_, v0) ==> v0 == w,
    decreases rows.len(),
{
    if rows.len() > 0 {
        let r0 = rows.drop_last();
        assert forall|k: int| 0 <= k < r0.len() implies (#[trigger] r0[k]).2 == w by {
            assert(r0[k] == rows[k]);
        }
        lemma_fold_junction_payload(s, r0, w);
        assert(rows.last() == rows[rows.len() - 1]);
    }
}

proof fn lemma_junction_move_to_end<V>(
    s: Slot<V>,
    p: Seq<(Seq<char>, bool, V)>,
    x: (Seq<char>, bool, V),
    q: Seq<(Seq<char>, bool, V)>,
    ordered: bool,
    w: V,
)
    requires
        one_write_per_stamp(p.push(x) + q),
        link_payloads(s, p.push(x) + q, ordered, w),
    ensures
        fold_junction(s, p.push(x) + q, ordered) == fold_junction(s, (p + q).push(x), ordered),
    decreases q.len(),
{
    let l = p.push(x) + q;
    if q.len() == 0 {
        assert(l =~= p.push(x));
        assert((p + q).push(x) =~= p.push(x));
    } else {
        let y = q.last();
        let q0 = q.drop_last();
        let l0 = p.push(x) + q0;
        assert(l.drop_last() =~= l0);
        assert(l.last() == y);
        assert forall|k: int| 0 <= k < l0.len() implies l.contains(#[trigger] l0[k]) by {
            assert(l[k] == l0[k]);
        }
        lemma_one_write_sub(l, l0);
        assert forall|k: int| 0 <= k < l0.len() implies !ordered ==> (#[trigger] l0[k]).2 == w by {
            assert(l[k] == l0[k]);
        }
        lemma_junction_move_to_end(s, p, x, q0, ordered, w);
        let f = fold_junction(s, p + q0, ordered);
        assert(((p + q0).push(x)).drop_last() =~= p + q0);
        assert(l[p.len() as int] == x);
        assert(l[l.len() - 1] == y);
        if !ordered {
            assert forall|k: int| 0 <= k < (p + q0).len() implies (#[trigger] (p + q0)[k]).2 == w by {
                if k < p.len() {
                    assert((p + q0)[k] == l[k]);
                } else {
                    assert((p + q0)[k] == l[k + 1]);
                }
            }
            lemma_fold_junction_payload(s, p + q0, w);
        }
        lemma_junction_commutes(f, x.0, x.1, x.2, y.0, y.1, y.2, ordered);
        assert(((p + q0).push(y)).drop_last() =~= p + q0);
        assert((p + q0).push(y) =~= p + q);
        assert(((p + q).push(x)).drop_last() =~= p + q);
        assert(fold_junction(s, l, ordered) == apply_junction(fold_junction(s, l0, ordered), y.0, y.1, y.2, ordered));
        assert(fold_junction(s, (p + q0).push(x), ordered) == apply_junction(f, x.0, x.1, x.2, ordered));
        assert(fold_junction(s, p + q, ordered) == apply_junction(f, y.0, y.1, y.2, ordered));
        assert(fold_junction(s, (p + q).push(x), ordered) == apply_junction(
            fold_junction(s, p + q, ordered),
            x.0,
            x.1,
            x.2,
            ordered,
        ));
    }
}

/// Law (order independence): merging the same remote rows for one link in any order
/// reaches the same state. An unordered link's rows all carry the one payload the link
/// has.
pub proof fn lemma_junction_order_independent<V>(
    s: Slot<V>,
    a: Seq<(Seq<char>, bool, V)>,
    b: Seq<(Seq<char>, bool, V)>,
    ordered: bool,
    w: V,
)
    requires
        a.to_multiset() == b.to_multiset(),
        one_write_per_stamp(a),
        link_payloads(s, a, ordered, w),
    ensures
        fold_junction(s, a, ordered) == fold_junction(s, b, ordered),
    decreases a.len(),
{
    broadcast use vstd::seq_lib::group_to_multiset_ensures;
    if b.len() == 0 {
        vstd::seq_lib::to_multiset_len(a);
        vstd::seq_lib::to_multiset_len(b);
        assert(a =~= b);
    } else {
        let x = b.last();
        let b0 = b.drop_last();
        assert(b0.push(x) =~= b);
        assert(b.to_multiset() =~= b0.to_multiset().insert(x));
        assert(a.to_multiset().count(x) > 0);
        assert(a.contains(x));
        let i = choose|i: int| 0 <= i < a.len() && a[i] == x;
        let p = a.subrange(0, i);
        let q = a.subrange(i + 1, a.len() as int);
        assert(a =~= p.push(x) + q);
        let a0 = a.remove(i);
        assert(a0 =~= p + q);
        assert(a0.to_multiset() =~= a.to_multiset().remove(x));
        assert(a0.to_multiset() =~= b0.to_multiset());
        assert forall|k: int| 0 <= k < a0.len() implies a.contains(#[trigger] a0[k]) && (!ordered ==> a0[k].2 == w) by {
            if k < i {
                assert(a[k] == a0[k]);
            } else {
                assert(a[k + 1] == a0[k]);
            }
        }
        lemma_one_write_sub(a, a0);
        lemma_junction_order_independent(s, a0, b0, ordered, w);
        lemma_junction_move_to_end(s, p, x, q, ordered, w);
        assert((p + q).push(x).drop_last() =~= p + q);
    }
}

/// A synced setting's local state `(stamp, value)` after merging a remote row: the
/// remote value and stamp when its stamp is strictly newer (see [`setting_applies`]).
pub open spec fn apply_setting<V>(local: (Seq<char>, V), h: Seq<char>, v: V) -> (Seq<char>, V) {
    if setting_applies(true, local.0, h) { (h, v) } else { local }
}

/// Law: merging the same settings row twice is the same as merging it once.
pub proof fn lemma_setting_idempotent<V>(local: (Seq<char>, V), h: Seq<char>, v: V)
    ensures
        apply_setting(apply_setting(local, h, v), h, v) == apply_setting(local, h, v),
{
    lemma_order3(local.0, h, h);
}

/// Law: two remote rows for one setting merge to the same state in either order (rows
/// with one stamp are one write).
pub proof fn lemma_setting_commutes<V>(local: (Seq<char>, V), h1: Seq<char>, v1: V, h2: Seq<char>, v2: V)
    requires
        h1 == h2 ==> v1 == v2,
    ensures
        apply_setting(apply_setting(local, h1, v1), h2, v2) == apply_setting(apply_setting(local, h2, v2), h1, v1),
{
    lemma_order3(local.0, h1, h2);
}

/// Law (convergence): two devices that start from the same state and each merge both
/// their own writes and their peer's, in either order, hold the same state.
pub proof fn lemma_entity_devices_converge<V>(s: Slot<V>, mine: Seq<(Seq<char>, bool, V)>, theirs: Seq<(Seq<char>, bool, V)>)
    requires
        one_write_per_stamp(mine + theirs),
    ensures
        fold_entity(s, mine + theirs) == fold_entity(s, theirs + mine),
{
    vstd::seq_lib::lemma_multiset_commutative(mine, theirs);
    vstd::seq_lib::lemma_multiset_commutative(theirs, mine);
    assert((mine + theirs).to_multiset() =~= (theirs + mine).to_multiset());
    lemma_entity_order_independent(s, mine + theirs, theirs + mine);
}

/// Law (convergence): the same for a link whose endpoints exist on both devices.
pub proof fn lemma_junction_devices_converge<V>(
    s: Slot<V>,
    mine: Seq<(Seq<char>, bool, V)>,
    theirs: Seq<(Seq<char>, bool, V)>,
    ordered: bool,
    w: V,
)
    requires
        one_write_per_stamp(mine + theirs),
        link_payloads(s, mine + theirs, ordered, w),
    ensures
        fold_junction(s, mine + theirs, ordered) == fold_junction(s, theirs + mine, ordered),
{
    vstd::seq_lib::lemma_multiset_commutative(mine, theirs);
    vstd::seq_lib::lemma_multiset_commutative(theirs, mine);
    assert((mine + theirs).to_multiset() =~= (theirs + mine).to_multiset());
    lemma_junction_order_independent(s, mine + theirs, theirs + mine, ordered, w);
}

} // verus!

verus! {

// ---------------------------------------------------------------------------
// Whole buckets: the local state of a bucket is a map from row id to slot (an id the
// map lacks is an empty slot), and merging a pulled bucket folds its rows into it.
// ---------------------------------------------------------------------------

/// The slot of id `k` in a bucket's local state.
pub open spec fn slot_at<V>(m: Map<Seq<char>, Slot<V>>, k: Seq<char>) -> Slot<V> {
    if m.dom().contains(k) { m[k] } else { Slot::Empty }
}

/// The local state after merging a pulled entity bucket's rows `(id, stamp, deleted,
/// payload)`, in order.
pub open spec fn merge_entities<V>(m: Map<Seq<char>, Slot<V>>, rows: Seq<(Seq<char>, Seq<char>, bool, V)>) -> Map<Seq<char>, Slot<V>>
    decreases rows.len(),
{
    if rows.len() == 0 {
        m
    } else {
        let r = rows.last();
        let m0 = merge_entities(m, rows.drop_last());
        m0.insert(r.0, apply_entity(slot_at(m0, r.0), r.1, r.2, r.3))
    }
}

/// The rows of a bucket that carry id `k`, in order, without the id.
pub open spec fn rows_for<V>(rows: Seq<(Seq<char>, Seq<char>, bool, V)>, k: Seq<char>) -> Seq<(Seq<char>, bool, V)>
    decreases rows.len(),
{
    if rows.len() == 0 {
        Seq::empty()
    } else {
        let r = rows.last();
        let p = rows_for(rows.drop_last(), k);
        if r.0 == k { p.push((r.1, r.2, r.3)) } else { p }
    }
}

/// One write per id and stamp: two live rows of a bucket with one id and one stamp
/// carry one payload.
pub open spec fn one_write_per_id_stamp<V>(rows: Seq<(Seq<char>, Seq<char>, bool, V)>) -> bool {
    forall|i: int, j: int|
        0 <= i < rows.len() && 0 <= j < rows.len() && (#[trigger] rows[i]).0 == (#[trigger] rows[j]).0
            && rows[i].1 == rows[j].1 && !rows[i].2 && !rows[j].2 ==> rows[i].3 == rows[j].3
}

/// Two bucket states hold the same slot for every id.
pub open spec fn same_slots<V>(a: Map<Seq<char>, Slot<V>>, b: Map<Seq<char>, Slot<V>>) -> bool {
    forall|k: Seq<char>| #[trigger] slot_at(a, k) == slot_at(b, k)
}

proof fn lemma_fold_entity_concat<V>(s: Slot<V>, a: Seq<(Seq<char>, bool, V)>, b: Seq<(Seq<char>, bool, V)>)
    ensures
        fold_entity(fold_entity(s, a), b) == fold_entity(s, a + b),
    decreases b.len(),
{
    if b.len() == 0 {
        assert(a + b =~= a);
    } else {
        lemma_fold_entity_concat(s, a, b.drop_last());
        assert((a + b).drop_last() =~= a + b.drop_last());
        assert((a + b).last() == b.last());
    }
}

proof fn lemma_merge_entities_slot<V>(m: Map<Seq<char>, Slot<V>>, rows: Seq<(Seq<char>, Seq<char>, bool, V)>, k: Seq<char>)
    ensures
        slot_at(merge_entities(m, rows), k) == fold_entity(slot_at(m, k), rows_for(rows, k)),
    decreases rows.len(),
{
    if rows.len() > 0 {
        lemma_merge_entities_slot(m, rows.drop_last(), k);
        let r = rows.last();
        if r.0 == k {
            let p = rows_for(rows.drop_last(), k);
            assert(p.push((r.1, r.2, r.3)).drop_last() =~= p);
        }
    }
}

proof fn lemma_rows_for_concat<V>(a: Seq<(Seq<char>, Seq<char>, bool, V)>, b: Seq<(Seq<char>, Seq<char>, bool, V)>, k: Seq<char>)
    ensures
        rows_for(a + b, k) == rows_for(a, k) + rows_for(b, k),
    decreases b.len(),
{
    if b.len() == 0 {
        assert(a + b =~= a);
        assert(rows_for(a, k) + rows_for(b, k) =~= rows_for(a, k));
    } else {
        lemma_rows_for_concat(a, b.drop_last(), k);
        assert((a + b).drop_last() =~= a + b.drop_last());
        assert((a + b).last() == b.last());
        let r = b.last();
        if r.0 == k {
            assert(rows_for(a, k) + rows_for(b.drop_last(), k).push((r.1, r.2, r.3)) =~= (rows_for(a, k)
                + rows_for(b.drop_last(), k)).push((r.1, r.2, r.3)));
        }
    }
}

/// Row `e` of `rows_for(rows, k)` comes from a row of `rows` that carries id `k`.
spec fn comes_from<V>(rows: Seq<(Seq<char>, Seq<char>, bool, V)>, k: Seq<char>, e: (Seq<char>, bool, V)) -> bool {
    exists|i: int| 0 <= i < rows.len() && (#[trigger] rows[i]).0 == k && e == (rows[i].1, rows[i].2, rows[i].3)
}

proof fn lemma_rows_for_from<V>(rows: Seq<(Seq<char>, Seq<char>, bool, V)>, k: Seq<char>)
    ensures
        forall|j: int| 0 <= j < rows_for(rows, k).len() ==> comes_from(rows, k, #[trigger] rows_for(rows, k)[j]),
    decreases rows.len(),
{
    if rows.len() > 0 {
        let r0 = rows.drop_last();
        lemma_rows_for_from(r0, k);
        let f = rows_for(rows, k);
        let f0 = rows_for(r0, k);
        assert forall|j: int| 0 <= j < f.len() implies comes_from(rows, k, #[trigger] f[j]) by {
            if j < f0.len() {
                assert(f[j] == f0[j]);
                assert(comes_from(r0, k, f0[j]));
                let i = choose|i: int| 0 <= i < r0.len() && (#[trigger] r0[i]).0 == k && f0[j] == (r0[i].1, r0[i].2, r0[i].3);
                assert(rows[i] == r0[i]);
            } else {
                let r = rows.last();
                assert(r.0 == k);
                assert(f =~= f0.push((r.1, r.2, r.3)));
                assert(rows[rows.len() - 1] == r);
            }
        }
    }
}

proof fn lemma_rows_for_one_write<V>(rows: Seq<(Seq<char>, Seq<char>, bool, V)>, k: Seq<char>)
    requires
        one_write_per_id_stamp(rows),
    ensures
        one_write_per_stamp(rows_for(rows, k)),
{
    lemma_rows_for_from(rows, k);
    let f = rows_for(rows, k);
    assert forall|a: int, b: int|
        0 <= a < f.len() && 0 <= b < f.len() && (#[trigger] f[a]).0 == (#[trigger] f[b]).0 && !f[a].1 && !f[b].1 implies f[a].2
            == f[b].2 by {
        assert(comes_from(rows, k, f[a]) && comes_from(rows, k, f[b]));
        let i = choose|i: int| 0 <= i < rows.len() && (#[trigger] rows[i]).0 == k && f[a] == (rows[i].1, rows[i].2, rows[i].3);
        let j = choose|j: int| 0 <= j < rows.len() && (#[trigger] rows[j]).0 == k && f[b] == (rows[j].1, rows[j].2, rows[j].3);
        assert(rows[i].0 == rows[j].0);
    }
}

proof fn lemma_entity_absorbs<V>(s: Slot<V>, f: Seq<(Seq<char>, bool, V)>, i: int)
    requires
        one_write_per_stamp(f),
        0 <= i < f.len(),
    ensures
        apply_entity(fold_entity(s, f), f[i].0, f[i].1, f[i].2) == fold_entity(s, f),
{
    let x = f[i];
    let p = f.subrange(0, i);
    let q = f.subrange(i + 1, f.len() as int);
    assert(f =~= p.push(x) + q);
    lemma_entity_move_to_end(s, p, x, q);
    assert((p + q).push(x).drop_last() =~= p + q);
    lemma_entity_idempotent(fold_entity(s, p + q), x.0, x.1, x.2);
}

proof fn lemma_entity_fold_absorbs<V>(s: Slot<V>, f: Seq<(Seq<char>, bool, V)>, g: Seq<(Seq<char>, bool, V)>)
    requires
        one_write_per_stamp(f),
        forall|k: int| 0 <= k < g.len() ==> f.contains(#[trigger] g[k]),
    ensures
        fold_entity(fold_entity(s, f), g) == fold_entity(s, f),
    decreases g.len(),
{
    if g.len() > 0 {
        let g0 = g.drop_last();
        assert forall|k: int| 0 <= k < g0.len() implies f.contains(#[trigger] g0[k]) by {
            assert(g0[k] == g[k]);
        }
        lemma_entity_fold_absorbs(s, f, g0);
        assert(f.contains(g[g.len() - 1]));
        let i = choose|i: int| 0 <= i < f.len() && f[i] == g[g.len() - 1];
        lemma_entity_absorbs(s, f, i);
    }
}

/// Law: merging the same rows for one entity a second time changes nothing.
pub proof fn lemma_entity_fold_idempotent<V>(s: Slot<V>, f: Seq<(Seq<char>, bool, V)>)
    requires
        one_write_per_stamp(f),
    ensures
        fold_entity(fold_entity(s, f), f) == fold_entity(s, f),
{
    assert forall|k: int| 0 <= k < f.len() implies f.contains(#[trigger] f[k]) by {}
    lemma_entity_fold_absorbs(s, f, f);
}

/// Law (bucket idempotence): merging a pulled entity bucket a second time leaves every
/// row's slot as the first merge left it.
pub proof fn lemma_entity_bucket_idempotent<V>(m: Map<Seq<char>, Slot<V>>, rows: Seq<(Seq<char>, Seq<char>, bool, V)>)
    requires
        one_write_per_id_stamp(rows),
    ensures
        same_slots(merge_entities(merge_entities(m, rows), rows), merge_entities(m, rows)),
{
    assert forall|k: Seq<char>| #[trigger] slot_at(merge_entities(merge_entities(m, rows), rows), k) == slot_at(
        merge_entities(m, rows),
        k,
    ) by {
        lemma_merge_entities_slot(merge_entities(m, rows), rows, k);
        lemma_merge_entities_slot(m, rows, k);
        lemma_rows_for_one_write(rows, k);
        lemma_entity_fold_idempotent(slot_at(m, k), rows_for(rows, k));
    }
}

/// Law (bucket convergence): two devices that start from one state, one merging its own
/// rows and then its peer's and the other the peer's first, hold the same slot for every
/// row of the bucket.
pub proof fn lemma_entity_bucket_devices_converge<V>(
    m: Map<Seq<char>, Slot<V>>,
    mine: Seq<(Seq<char>, Seq<char>, bool, V)>,
    theirs: Seq<(Seq<char>, Seq<char>, bool, V)>,
)
    requires
        one_write_per_id_stamp(mine + theirs),
    ensures
        same_slots(merge_entities(merge_entities(m, mine), theirs), merge_entities(merge_entities(m, theirs), mine)),
{
    assert forall|k: Seq<char>| #[trigger] slot_at(merge_entities(merge_entities(m, mine), theirs), k) == slot_at(
        merge_entities(merge_entities(m, theirs), mine),
        k,
    ) by {
        let s = slot_at(m, k);
        let a = rows_for(mine, k);
        let b = rows_for(theirs, k);
        lemma_merge_entities_slot(merge_entities(m, mine), theirs, k);
        lemma_merge_entities_slot(m, mine, k);
        lemma_merge_entities_slot(merge_entities(m, theirs), mine, k);
        lemma_merge_entities_slot(m, theirs, k);
        lemma_fold_entity_concat(s, a, b);
        lemma_fold_entity_concat(s, b, a);
        lemma_rows_for_concat(mine, theirs, k);
        lemma_rows_for_one_write(mine + theirs, k);
        lemma_entity_devices_converge(s, a, b);
    }
}

/// The local state after merging a pulled link bucket's rows `(id, stamp, deleted,
/// payload)`, in order (links whose endpoints exist).
pub open spec fn merge_junctions<V>(
    m: Map<Seq<char>, Slot<V>>,
    rows: Seq<(Seq<char>, Seq<char>, bool, V)>,
    ordered: bool,
) -> Map<Seq<char>, Slot<V>>
    decreases rows.len(),
{
    if rows.len() == 0 {
        m
    } else {
        let r = rows.last();
        let m0 = merge_junctions(m, rows.drop_last(), ordered);
        m0.insert(r.0, apply_junction(slot_at(m0, r.0), r.1, r.2, r.3, ordered))
    }
}

/// An unordered link bucket carries no payload of its own: every row, and every local
/// link, holds the one payload `w`.
pub open spec fn bucket_link_payloads<V>(
    m: Map<Seq<char>, Slot<V>>,
    rows: Seq<(Seq<char>, Seq<char>, bool, V)>,
    ordered: bool,
    w: V,
) -> bool {
    !ordered ==> (forall|i: int| 0 <= i < rows.len() ==> (#[trigger] rows[i]).3 == w) && (forall|k: Seq<char>|
        #[trigger] slot_at(m, k) matches Slot::Live(_, v0) ==> v0 == w)
}

proof fn lemma_fold_junction_concat<V>(s: Slot<V>, a: Seq<(Seq<char>, bool, V)>, b: Seq<(Seq<char>, bool, V)>, ordered: bool)
    ensures
        fold_junction(fold_junction(s, a, ordered), b, ordered) == fold_junction(s, a + b, ordered),
    decreases b.len(),
{
    if b.len() == 0 {
        assert(a + b =~= a);
    } else {
        lemma_fold_junction_concat(s, a, b.drop_last(), ordered);
        assert((a + b).drop_last() =~= a + b.drop_last());
        assert((a + b).last() == b.last());
    }
}

proof fn lemma_merge_junctions_slot<V>(
    m: Map<Seq<char>, Slot<V>>,
    rows: Seq<(Seq<char>, Seq<char>, bool, V)>,
    ordered: bool,
    k: Seq<char>,
)
    ensures
        slot_at(merge_junctions(m, rows, ordered), k) == fold_junction(slot_at(m, k), rows_for(rows, k), ordered),
    decreases rows.len(),
{
    if rows.len() > 0 {
        lemma_merge_junctions_slot(m, rows.drop_last(), ordered, k);
        let r = rows.last();
        if r.0 == k {
            let p = rows_for(rows.drop_last(), k);
            assert(p.push((r.1, r.2, r.3)).drop_last() =~= p);
        }
    }
}

proof fn lemma_rows_for_payloads<V>(
    m: Map<Seq<char>, Slot<V>>,
    rows: Seq<(Seq<char>, Seq<char>, bool, V)>,
    ordered: bool,
    w: V,
    k: Seq<char>,
)
    requires
        bucket_link_payloads(m, rows, ordered, w),
    ensures
        link_payloads(slot_at(m, k), rows_for(rows, k), ordered, w),
{
    if !ordered {
        lemma_rows_for_from(rows, k);
        let f = rows_for(rows, k);
        assert forall|j: int| 0 <= j < f.len() implies (#[trigger] f[j]).2 == w by {
            assert(comes_from(rows, k, f[j]));
            let i = choose|i: int| 0 <= i < rows.len() && (#[trigger] rows[i]).0 == k && f[j] == (rows[i].1, rows[i].2, rows[i].3);
        }
        assert(slot_at(m, k) matches Slot::Live(_, v0) ==> v0 == w);
    }
}

proof fn lemma_junction_absorbs<V>(s: Slot<V>, f: Seq<(Seq<char>, bool, V)>, ordered: bool, w: V, i: int)
    requires
        one_write_per_stamp(f),
        link_payloads(s, f, ordered, w),
        0 <= i < f.len(),
    ensures
        apply_junction(fold_junction(s, f, ordered), f[i].0, f[i].1, f[i].2, ordered) == fold_junction(s, f, ordered),
{
    let x = f[i];
    let p = f.subrange(0, i);
    let q = f.subrange(i + 1, f.len() as int);
    assert(f =~= p.push(x) + q);
    lemma_junction_move_to_end(s, p, x, q, ordered, w);
    assert((p + q).push(x).drop_last() =~= p + q);
    lemma_junction_idempotent(fold_junction(s, p + q, ordered), x.0, x.1, x.2, ordered);
}

proof fn lemma_junction_fold_absorbs<V>(
    s: Slot<V>,
    f: Seq<(Seq<char>, bool, V)>,
    g: Seq<(Seq<char>, bool, V)>,
    ordered: bool,
    w: V,
)
    requires
        one_write_per_stamp(f),
        link_payloads(s, f, ordered, w),
        forall|k: int| 0 <= k < g.len() ==> f.contains(#[trigger] g[k]),
    ensures
        fold_junction(fold_junction(s, f, ordered), g, ordered) == fold_junction(s, f, ordered),
    decreases g.len(),
{
    if g.len() > 0 {
        let g0 = g.drop_last();
        assert forall|k: int| 0 <= k < g0.len() implies f.contains(#[trigger] g0[k]) by {
            assert(g0[k] == g[k]);
        }
        lemma_junction_fold_absorbs(s, f, g0, ordered, w);
        assert(f.contains(g[g.len() - 1]));
        let i = choose|i: int| 0 <= i < f.len() && f[i] == g[g.len() - 1];
        lemma_junction_absorbs(s, f, ordered, w, i);
    }
}

/// Law: merging the same rows for one link a second time changes nothing.
pub proof fn lemma_junction_fold_idempotent<V>(s: Slot<V>, f: Seq<(Seq<char>, bool, V)>, ordered: bool, w: V)
    requires
        one_write_per_stamp(f),
        link_payloads(s, f, ordered, w),
    ensures
        fold_junction(fold_junction(s, f, ordered), f, ordered) == fold_junction(s, f, ordered),
{
    assert forall|k: int| 0 <= k < f.len() implies f.contains(#[trigger] f[k]) by {}
    lemma_junction_fold_absorbs(s, f, f, ordered, w);
}

/// Law (bucket idempotence): merging a pulled link bucket a second time leaves every
/// link's slot as the first merge left it.
pub proof fn lemma_junction_bucket_idempotent<V>(
    m: Map<Seq<char>, Slot<V>>,
    rows: Seq<(Seq<char>, Seq<char>, bool, V)>,
    ordered: bool,
    w: V,
)
    requires
        one_write_per_id_stamp(rows),
        bucket_link_payloads(m, rows, ordered, w),
    ensures
        same_slots(merge_junctions(merge_junctions(m, rows, ordered), rows, ordered), merge_junctions(m, rows, ordered)),
{
    assert forall|k: Seq<char>| #[trigger] slot_at(merge_junctions(merge_junctions(m, rows, ordered), rows, ordered), k)
        == slot_at(merge_junctions(m, rows, ordered), k) by {
        lemma_merge_junctions_slot(merge_junctions(m, rows, ordered), rows, ordered, k);
        lemma_merge_junctions_slot(m, rows, ordered, k);
        lemma_rows_for_one_write(rows, k);
        lemma_rows_for_payloads(m, rows, ordered, w, k);
        lemma_junction_fold_idempotent(slot_at(m, k), rows_for(rows, k), ordered, w);
    }
}

/// Law (bucket convergence): two devices that start from one state, one merging its own
/// link rows and then its peer's and the other the peer's first, hold the same slot for
/// every link of the bucket.
pub proof fn lemma_junction_bucket_devices_converge<V>(
    m: Map<Seq<char>, Slot<V>>,
    mine: Seq<(Seq<char>, Seq<char>, bool, V)>,
    theirs: Seq<(Seq<char>, Seq<char>, bool, V)>,
    ordered: bool,
    w: V,
)
    requires
        one_write_per_id_stamp(mine + theirs),
        bucket_link_payloads(m, mine + theirs, ordered, w),
    ensures
        same_slots(
            merge_junctions(merge_junctions(m, mine, ordered), theirs, ordered),
            merge_junctions(merge_junctions(m, theirs, ordered), mine, ordered),
        ),
{
    assert forall|k: Seq<char>| #[trigger] slot_at(merge_junctions(merge_junctions(m, mine, ordered), theirs, ordered), k)
        == slot_at(merge_junctions(merge_junctions(m, theirs, ordered), mine, ordered), k) by {
        let s = slot_at(m, k);
        let a = rows_for(mine, k);
        let b = rows_for(theirs, k);
        lemma_merge_junctions_slot(merge_junctions(m, mine, ordered), theirs, ordered, k);
        lemma_merge_junctions_slot(m, mine, ordered, k);
        lemma_merge_junctions_slot(merge_junctions(m, theirs, ordered), mine, ordered, k);
        lemma_merge_junctions_slot(m, theirs, ordered, k);
        lemma_fold_junction_concat(s, a, b, ordered);
        lemma_fold_junction_concat(s, b, a, ordered);
        lemma_rows_for_concat(mine, theirs, k);
        lemma_rows_for_one_write(mine + theirs, k);
        lemma_rows_for_payloads(m, mine + theirs, ordered, w, k);
        lemma_junction_devices_converge(s, a, b, ordered, w);
    }
}

} // verus!

verus! {

/// Law (settings): a pulled setting is applied exactly when its key is on the sync
/// whitelist and its stamp is strictly newer than the local one (a never-stamped local
/// value, `""`, is older than any stamp).
pub proof fn lemma_setting_decision(key: Seq<char>, local_hlc: Seq<char>, remote_hlc: Seq<char>)
    ensures
        setting_applies(crate::settings::synced_setting_spec(key), local_hlc, remote_hlc) <==> (
        crate::settings::synced_keys().contains(key) && lex_lt(local_hlc, remote_hlc)),
        remote_hlc.len() > 0 ==> (setting_applies(crate::settings::synced_setting_spec(key), Seq::empty(), remote_hlc)
            <==> crate::settings::synced_keys().contains(key)),
{
    crate::settings::lemma_synced_settings_whitelist();
}

/// Law (links never dangle): when either row a link joins is missing locally, merging
/// never creates the link, neither as a new row nor by lifting its removal.
pub proof fn lemma_junction_no_orphan(live: Option<Seq<char>>, tomb: Option<Seq<char>>, h: Seq<char>, deleted: bool, ordered: bool)
    ensures
        junction_action(live, tomb, h, deleted, ordered, false) != JunctionAction::Insert,
        junction_action(live, tomb, h, deleted, ordered, false) != JunctionAction::Resurrect,
        live is None && !deleted ==> junction_action(live, tomb, h, deleted, ordered, false) == (if tomb is None {
            JunctionAction::SkipOrphan
        } else {
            JunctionAction::Keep
        }),
{
}

/// Law (links, add wins a tie): a pulled add over no local trace creates the link when
/// both ends exist; over a local removal (and both ends present) it lifts the removal
/// exactly when at least as new; over a present link it only advances the link, and only
/// to a strictly newer stamp. A pulled removal drops a present link exactly when strictly
/// newer, and is recorded where no link is present. Which ends exist matters only when a
/// link would be created.
pub proof fn lemma_junction_rules(
    h: Seq<char>,
    l: Seq<char>,
    t: Seq<char>,
    tomb: Option<Seq<char>>,
    ordered: bool,
    ends: bool,
)
    ensures
        junction_action(None, None, h, false, ordered, true) == JunctionAction::Insert,
        (junction_action(None, Some(t), h, false, ordered, true) == JunctionAction::Resurrect) <==> !lex_lt(h, t),
        (junction_action(None, Some(t), h, false, ordered, ends) == JunctionAction::Keep) <==> (lex_lt(h, t) || !ends),
        (junction_action(Some(l), tomb, h, true, ordered, ends) == JunctionAction::Delete) <==> lex_lt(l, h),
        (junction_action(Some(l), tomb, h, true, ordered, ends) == JunctionAction::Keep) <==> !lex_lt(l, h),
        (junction_action(Some(l), tomb, h, false, ordered, ends) == JunctionAction::Keep) <==> !lex_lt(l, h),
        lex_lt(l, h) ==> junction_action(Some(l), tomb, h, false, ordered, ends) == (if ordered {
            JunctionAction::UpdateOrdering
        } else {
            JunctionAction::AdvanceHlc
        }),
        junction_action(None, tomb, h, true, ordered, ends) == JunctionAction::RecordTombstone,
{
}

/// Law (entities, delete wins a tie): a pulled live row is inserted where nothing is
/// known, overwrites a local row only when strictly newer, and lifts a local removal only
/// when strictly newer than it (whatever else is local); a pulled removal deletes a local
/// row at an equal or newer stamp, and is recorded where there is no local row.
pub proof fn lemma_entity_rules(h: Seq<char>, l: Seq<char>, t: Seq<char>, live: Option<Seq<char>>, tomb: Option<Seq<char>>)
    ensures
        entity_action(None, None, h, false) == EntityAction::Insert,
        (entity_action(Some(l), None, h, false) == EntityAction::Replace) <==> lex_lt(l, h),
        (entity_action(Some(l), None, h, false) == EntityAction::Keep) <==> !lex_lt(l, h),
        (entity_action(live, Some(t), h, false) == EntityAction::Resurrect) <==> lex_lt(t, h),
        (entity_action(live, Some(t), h, false) == EntityAction::Keep) <==> !lex_lt(t, h),
        (entity_action(Some(l), tomb, h, true) == EntityAction::Delete) <==> !lex_lt(h, l),
        (entity_action(Some(l), tomb, h, true) == EntityAction::Keep) <==> lex_lt(h, l),
        entity_action(None, tomb, h, true) == EntityAction::RecordTombstone,
{
}

} // verus!
