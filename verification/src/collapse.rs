//! Content-based duplicate collapse for discovery entities.
//!
//! A discovery track is identified by `(release_id, normalized name)` and a release by
//! its normalized URL. When two live rows with the same natural key but different ids
//! meet, they collapse into one. Every step is a pure function of the two rows:
//!
//! - **Winner** = the row with the larger stamp (exact ties go to the smaller id).
//! - **Survivor id** = the smaller of the two ids; the larger id is tombstoned.
//! - **Merged fields**: the winner's row with empty fields filled from the loser; flags
//!   union across both (`is_liked` ORs; a release stays `is_new` only if both are new).
//! - **Survivor stamp**: the winner's stamp when the merged row *is* the winner (a fixed
//!   point for re-encounters with stale copies), otherwise `bump` of the winner's stamp —
//!   strictly greater than both inputs (for every stamp below the largest one a clock
//!   can show) yet derived without any clock, so every device
//!   computes the same stamp.
//! - **Tombstone stamp** = survivor stamp.
use vstd::prelude::*;
use crate::hlc::{bump, bump_spec};
use crate::rows::{DiscoveryReleaseRow, DiscoveryReleaseView};
use crate::text::{lemma_lex_asymmetric, lemma_lex_irreflexive, lex_lt, str_eq, str_lt};
use crate::audio::{lowercase, to_lowercase};
use crate::stamping::strs;

verus! {

pub open spec fn opt_view(o: Option<String>) -> Option<Seq<char>> {
    match o {
        Some(s) => Some(s@),
        None => None,
    }
}

pub fn clone_opt(o: &Option<String>) -> (r: Option<String>)
    ensures
        opt_view(r) == opt_view(*o),
{
    match o {
        Some(s) => Some(s.clone()),
        None => None,
    }
}

/// `a.or(b)` on optional strings.
pub fn or_opt(a: &Option<String>, b: &Option<String>) -> (r: Option<String>)
    ensures
        opt_view(r) == (if a is Some { opt_view(*a) } else { opt_view(*b) }),
{
    match a {
        Some(_) => clone_opt(a),
        None => clone_opt(b),
    }
}

pub fn opt_str_eq(a: &Option<String>, b: &Option<String>) -> (r: bool)
    ensures
        r == (opt_view(*a) == opt_view(*b)),
{
    match (a, b) {
        (Some(x), Some(y)) => str_eq(x.as_str(), y.as_str()),
        (None, None) => true,
        _ => false,
    }
}

/// Whether `l` (stamp `l_hlc`, id `l_id`) wins over `r`: larger stamp, ties to the
/// smaller id.
pub open spec fn left_wins(l_hlc: Seq<char>, l_id: Seq<char>, r_hlc: Seq<char>, r_id: Seq<char>) -> bool {
    if lex_lt(r_hlc, l_hlc) {
        true
    } else if lex_lt(l_hlc, r_hlc) {
        false
    } else {
        lex_lt(l_id, r_id)
    }
}

/// Whether the left row wins the collapse (the ordering rule of the module docs).
pub fn pick_winner(l_hlc: &str, l_id: &str, r_hlc: &str, r_id: &str) -> (left: bool)
    ensures
        left == left_wins(l_hlc@, l_id@, r_hlc@, r_id@),
{
    if str_lt(r_hlc, l_hlc) {
        true
    } else if str_lt(l_hlc, r_hlc) {
        false
    } else {
        str_lt(l_id, r_id)
    }
}

/// `std::cmp::min` on strings (the first argument on a tie).
pub open spec fn str_min(a: Seq<char>, b: Seq<char>) -> Seq<char> {
    if lex_lt(b, a) { b } else { a }
}

/// `std::cmp::max` on strings (the second argument on a tie).
pub open spec fn str_max(a: Seq<char>, b: Seq<char>) -> Seq<char> {
    if lex_lt(b, a) { a } else { b }
}

/// A discovery track row.
#[derive(Debug, Clone, PartialEq, Eq)]
pub struct DiscoveryTrack {
    pub id: String,
    pub release_id: String,
    pub name: String,
    pub position: i32,
    pub duration_ms: Option<i64>,
    pub video_id: Option<String>,
    pub url: Option<String>,
    pub is_liked: bool,
}

/// The plain contents of a [`DiscoveryTrack`].
pub struct DiscoveryTrackView {
    pub id: Seq<char>,
    pub release_id: Seq<char>,
    pub name: Seq<char>,
    pub position: i32,
    pub duration_ms: Option<i64>,
    pub video_id: Option<Seq<char>>,
    pub url: Option<Seq<char>>,
    pub is_liked: bool,
}

impl View for DiscoveryTrack {
    type V = DiscoveryTrackView;

    open spec fn view(&self) -> DiscoveryTrackView {
        DiscoveryTrackView {
            id: self.id@,
            release_id: self.release_id@,
            name: self.name@,
            position: self.position,
            duration_ms: self.duration_ms,
            video_id: opt_view(self.video_id),
            url: opt_view(self.url),
            is_liked: self.is_liked,
        }
    }
}

/// The result of collapsing two track rows.
pub struct CollapsedTrack {
    pub survivor: DiscoveryTrack,
    pub survivor_hlc: String,
    pub loser_id: String,
    pub tombstone_hlc: String,
}

/// The merged track row (before its stamp is chosen).
pub open spec fn merged_track(l: DiscoveryTrackView, l_hlc: Seq<char>, r: DiscoveryTrackView, r_hlc: Seq<char>) -> DiscoveryTrackView {
    let lw = left_wins(l_hlc, l.id, r_hlc, r.id);
    let w = if lw { l } else { r };
    let lo = if lw { r } else { l };
    DiscoveryTrackView {
        id: str_min(l.id, r.id),
        release_id: w.release_id,
        name: w.name,
        position: w.position,
        duration_ms: if w.duration_ms is Some { w.duration_ms } else { lo.duration_ms },
        video_id: if w.video_id is Some { w.video_id } else { lo.video_id },
        url: if w.url is Some { w.url } else { lo.url },
        is_liked: l.is_liked || r.is_liked,
    }
}

/// The survivor's stamp: the winner's when the merged row is the winner, else its bump.
pub open spec fn survivor_track_hlc(l: DiscoveryTrackView, l_hlc: Seq<char>, r: DiscoveryTrackView, r_hlc: Seq<char>) -> Seq<char> {
    let lw = left_wins(l_hlc, l.id, r_hlc, r.id);
    let w = if lw { l } else { r };
    let w_hlc = if lw { l_hlc } else { r_hlc };
    if merged_track(l, l_hlc, r, r_hlc) == w { w_hlc } else { bump_spec(w_hlc) }
}

fn tracks_equal(a: &DiscoveryTrack, b: &DiscoveryTrack) -> (r: bool)
    ensures
        r == (a@ == b@),
{
    str_eq(a.id.as_str(), b.id.as_str()) && str_eq(a.release_id.as_str(), b.release_id.as_str())
        && str_eq(a.name.as_str(), b.name.as_str()) && a.position == b.position && a.duration_ms
        == b.duration_ms && opt_str_eq(&a.video_id, &b.video_id) && opt_str_eq(&a.url, &b.url)
        && a.is_liked == b.is_liked
}

/// Pure, symmetric pairwise collapse of two same-`(release, normalized name)` track rows.
pub fn collapse_track_pair(l: &DiscoveryTrack, l_hlc: &str, r: &DiscoveryTrack, r_hlc: &str) -> (c: CollapsedTrack)
    ensures
        c.survivor@ == merged_track(l@, l_hlc@, r@, r_hlc@),
        c.survivor_hlc@ == survivor_track_hlc(l@, l_hlc@, r@, r_hlc@),
        c.loser_id@ == str_max(l.id@, r.id@),
        c.tombstone_hlc@ == c.survivor_hlc@,
{
    let lw = pick_winner(l_hlc, l.id.as_str(), r_hlc, r.id.as_str());
    let (w, w_hlc, lo) = if lw { (l, l_hlc, r) } else { (r, r_hlc, l) };
    let survivor_id = if str_lt(r.id.as_str(), l.id.as_str()) { r.id.clone() } else { l.id.clone() };
    let loser_id = if str_lt(r.id.as_str(), l.id.as_str()) { l.id.clone() } else { r.id.clone() };
    let survivor = DiscoveryTrack {
        id: survivor_id,
        release_id: w.release_id.clone(),
        name: w.name.clone(),
        position: w.position,
        duration_ms: match w.duration_ms {
            Some(d) => Some(d),
            None => lo.duration_ms,
        },
        video_id: or_opt(&w.video_id, &lo.video_id),
        url: or_opt(&w.url, &lo.url),
        is_liked: l.is_liked || r.is_liked,
    };
    let survivor_hlc = if tracks_equal(&survivor, w) {
        crate::text::to_owned_string(w_hlc)
    } else {
        bump(w_hlc)
    };
    let tombstone_hlc = survivor_hlc.clone();
    CollapsedTrack { loser_id, tombstone_hlc, survivor, survivor_hlc }
}

} // verus!

verus! {

/// The result of collapsing two release rows.
pub struct CollapsedRelease {
    pub survivor: DiscoveryReleaseRow,
    pub survivor_hlc: String,
    pub loser_id: String,
    pub tombstone_hlc: String,
}

pub open spec fn or_view(a: Option<Seq<char>>, b: Option<Seq<char>>) -> Option<Seq<char>> {
    if a is Some { a } else { b }
}

/// The merged release row (before its stamp is chosen).
pub open spec fn merged_release(l: DiscoveryReleaseView, l_hlc: Seq<char>, r: DiscoveryReleaseView, r_hlc: Seq<char>) -> DiscoveryReleaseView {
    let lw = left_wins(l_hlc, l.id, r_hlc, r.id);
    let w = if lw { l } else { r };
    let lo = if lw { r } else { l };
    DiscoveryReleaseView {
        id: str_min(l.id, r.id),
        url: w.url,
        source_type: w.source_type,
        artist: or_view(w.artist, lo.artist),
        title: or_view(w.title, lo.title),
        label: or_view(w.label, lo.label),
        release_date: or_view(w.release_date, lo.release_date),
        artwork_url: or_view(w.artwork_url, lo.artwork_url),
        artwork_path: or_view(w.artwork_path, lo.artwork_path),
        notes: or_view(w.notes, lo.notes),
        parent_url: or_view(w.parent_url, lo.parent_url),
        source_page_url: or_view(w.source_page_url, lo.source_page_url),
        date_added: str_min(l.date_added, r.date_added),
        date_modified: str_max(l.date_modified, r.date_modified),
        is_new: l.is_new && r.is_new,
        surfaced_at: or_view(w.surfaced_at, lo.surfaced_at),
    }
}

pub open spec fn survivor_release_hlc(l: DiscoveryReleaseView, l_hlc: Seq<char>, r: DiscoveryReleaseView, r_hlc: Seq<char>) -> Seq<char> {
    let lw = left_wins(l_hlc, l.id, r_hlc, r.id);
    let w = if lw { l } else { r };
    let w_hlc = if lw { l_hlc } else { r_hlc };
    if merged_release(l, l_hlc, r, r_hlc) == w { w_hlc } else { bump_spec(w_hlc) }
}

fn releases_equal(a: &DiscoveryReleaseRow, b: &DiscoveryReleaseRow) -> (r: bool)
    ensures
        r == (a@ == b@),
{
    str_eq(a.id.as_str(), b.id.as_str()) && str_eq(a.url.as_str(), b.url.as_str()) && str_eq(
        a.source_type.as_str(),
        b.source_type.as_str(),
    ) && opt_str_eq(&a.artist, &b.artist) && opt_str_eq(&a.title, &b.title) && opt_str_eq(
        &a.label,
        &b.label,
    ) && opt_str_eq(&a.release_date, &b.release_date) && opt_str_eq(
        &a.artwork_url,
        &b.artwork_url,
    ) && opt_str_eq(&a.artwork_path, &b.artwork_path) && opt_str_eq(&a.notes, &b.notes)
        && opt_str_eq(&a.parent_url, &b.parent_url) && opt_str_eq(
        &a.source_page_url,
        &b.source_page_url,
    ) && str_eq(a.date_added.as_str(), b.date_added.as_str()) && str_eq(
        a.date_modified.as_str(),
        b.date_modified.as_str(),
    ) && a.is_new == b.is_new && opt_str_eq(&a.surfaced_at, &b.surfaced_at)
}

fn min_string(a: &String, b: &String) -> (r: String)
    ensures
        r@ == str_min(a@, b@),
{
    if str_lt(b.as_str(), a.as_str()) { b.clone() } else { a.clone() }
}

fn max_string(a: &String, b: &String) -> (r: String)
    ensures
        r@ == str_max(a@, b@),
{
    if str_lt(b.as_str(), a.as_str()) { a.clone() } else { b.clone() }
}

/// Pure, symmetric pairwise collapse of two same-URL release rows.
pub fn collapse_release_pair(l: &DiscoveryReleaseRow, l_hlc: &str, r: &DiscoveryReleaseRow, r_hlc: &str) -> (c: CollapsedRelease)
    ensures
        c.survivor@ == merged_release(l@, l_hlc@, r@, r_hlc@),
        c.survivor_hlc@ == survivor_release_hlc(l@, l_hlc@, r@, r_hlc@),
        c.loser_id@ == str_max(l.id@, r.id@),
        c.tombstone_hlc@ == c.survivor_hlc@,
{
    let lw = pick_winner(l_hlc, l.id.as_str(), r_hlc, r.id.as_str());
    let (w, w_hlc, lo) = if lw { (l, l_hlc, r) } else { (r, r_hlc, l) };
    let survivor = DiscoveryReleaseRow {
        id: min_string(&l.id, &r.id),
        url: w.url.clone(),
        source_type: w.source_type.clone(),
        artist: or_opt(&w.artist, &lo.artist),
        title: or_opt(&w.title, &lo.title),
        label: or_opt(&w.label, &lo.label),
        release_date: or_opt(&w.release_date, &lo.release_date),
        artwork_url: or_opt(&w.artwork_url, &lo.artwork_url),
        artwork_path: or_opt(&w.artwork_path, &lo.artwork_path),
        notes: or_opt(&w.notes, &lo.notes),
        parent_url: or_opt(&w.parent_url, &lo.parent_url),
        source_page_url: or_opt(&w.source_page_url, &lo.source_page_url),
        date_added: min_string(&l.date_added, &r.date_added),
        date_modified: max_string(&l.date_modified, &r.date_modified),
        is_new: l.is_new && r.is_new,
        surfaced_at: or_opt(&w.surfaced_at, &lo.surfaced_at),
    };
    let survivor_hlc = if releases_equal(&survivor, w) {
        crate::text::to_owned_string(w_hlc)
    } else {
        bump(w_hlc)
    };
    let tombstone_hlc = survivor_hlc.clone();
    CollapsedRelease { loser_id: max_string(&l.id, &r.id), tombstone_hlc, survivor, survivor_hlc }
}

} // verus!

verus! {

proof fn lemma_winner_flip(lh: Seq<char>, lid: Seq<char>, rh: Seq<char>, rid: Seq<char>)
    requires
        lid != rid,
    ensures
        left_wins(lh, lid, rh, rid) == !left_wins(rh, rid, lh, lid),
        str_min(lid, rid) == str_min(rid, lid),
        str_max(lid, rid) == str_max(rid, lid),
{
    crate::text::lemma_lex_total(lh, rh);
    crate::text::lemma_lex_asymmetric(lh, rh);
    crate::text::lemma_lex_total(lid, rid);
    crate::text::lemma_lex_asymmetric(lid, rid);
    crate::text::lemma_lex_irreflexive(lh);
}

proof fn lemma_min_max_sym(a: Seq<char>, b: Seq<char>)
    ensures
        str_min(a, b) == str_min(b, a),
        str_max(a, b) == str_max(b, a),
{
    crate::text::lemma_lex_total(a, b);
    crate::text::lemma_lex_asymmetric(a, b);
}

/// Law: collapsing two distinct-id track rows gives the same survivor, survivor stamp,
/// loser id and tombstone stamp whichever row comes first; of the two devices that each
/// hold one of them, exactly one replaces its row (see [`plan_track_collapse`]).
pub proof fn lemma_track_pair_symmetric(l: DiscoveryTrackView, lh: Seq<char>, r: DiscoveryTrackView, rh: Seq<char>)
    requires
        l.id != r.id,
    ensures
        merged_track(l, lh, r, rh) == merged_track(r, rh, l, lh),
        survivor_track_hlc(l, lh, r, rh) == survivor_track_hlc(r, rh, l, lh),
        str_max(l.id, r.id) == str_max(r.id, l.id),
        lex_lt(l.id, r.id) != lex_lt(r.id, l.id),
{
    lemma_winner_flip(lh, l.id, rh, r.id);
    crate::text::lemma_lex_total(l.id, r.id);
    lemma_lex_asymmetric(l.id, r.id);
}

/// Law: collapsing two distinct-id release rows is symmetric in the same way, and the
/// survivor's history is the union of both: earliest `date_added`, latest
/// `date_modified`. Of the two devices that each hold one of them, exactly one re-keys
/// its row (see [`plan_release_collapse`]).
pub proof fn lemma_release_pair_symmetric(l: DiscoveryReleaseView, lh: Seq<char>, r: DiscoveryReleaseView, rh: Seq<char>)
    requires
        l.id != r.id,
    ensures
        merged_release(l, lh, r, rh) == merged_release(r, rh, l, lh),
        survivor_release_hlc(l, lh, r, rh) == survivor_release_hlc(r, rh, l, lh),
        str_max(l.id, r.id) == str_max(r.id, l.id),
        lex_lt(l.id, r.id) != lex_lt(r.id, l.id),
{
    lemma_winner_flip(lh, l.id, rh, r.id);
    crate::text::lemma_lex_total(l.id, r.id);
    lemma_lex_asymmetric(l.id, r.id);
    lemma_min_max_sym(l.date_added, r.date_added);
    lemma_min_max_sym(l.date_modified, r.date_modified);
}

/// Law: when the merged track is not the winner unchanged, its stamp sorts strictly after
/// both input stamps (for canonical stamps with a successor), so it wins last-writer-wins
/// everywhere.
pub proof fn lemma_track_bump_dominates(
    l: DiscoveryTrackView,
    a: crate::hlc::Hlc,
    r: DiscoveryTrackView,
    b: crate::hlc::Hlc,
)
    requires
        a.counter < u32::MAX || a.wall_ms < u64::MAX,
        b.counter < u32::MAX || b.wall_ms < u64::MAX,
        merged_track(l, crate::hlc::hlc_text(a), r, crate::hlc::hlc_text(b)) != (if left_wins(
            crate::hlc::hlc_text(a),
            l.id,
            crate::hlc::hlc_text(b),
            r.id,
        ) { l } else { r }),
    ensures
        lex_lt(crate::hlc::hlc_text(a), survivor_track_hlc(l, crate::hlc::hlc_text(a), r, crate::hlc::hlc_text(b))),
        lex_lt(crate::hlc::hlc_text(b), survivor_track_hlc(l, crate::hlc::hlc_text(a), r, crate::hlc::hlc_text(b))),
{
    let ta = crate::hlc::hlc_text(a);
    let tb = crate::hlc::hlc_text(b);
    crate::hlc::lemma_bump_greater(a);
    crate::hlc::lemma_bump_greater(b);
    crate::text::lemma_lex_total(ta, tb);
    crate::text::lemma_lex_transitive(ta, tb, bump_spec(tb));
    crate::text::lemma_lex_transitive(tb, ta, bump_spec(ta));
    crate::hlc::lemma_text_order(a, b);
}

/// Law: re-encountering a stale copy when the winner already holds the merged row is a
/// fixed point — the survivor is the winner and keeps the winner's stamp.
pub proof fn lemma_track_fixed_point(l: DiscoveryTrackView, lh: Seq<char>, r: DiscoveryTrackView, rh: Seq<char>)
    requires
        left_wins(lh, l.id, rh, r.id),
        merged_track(l, lh, r, rh) == l,
    ensures
        survivor_track_hlc(l, lh, r, rh) == lh,
{
}

} // verus!

verus! {

// ---------------------------------------------------------------------------
// Applying a collapse: which local row is paired with a remote one, what the pair
// becomes, and the statements that carry it out.
// ---------------------------------------------------------------------------

/// What a live remote release does to the local live release with the same URL.
pub struct ReleaseCollapsePlan {
    /// The collapsed pair (local row on the left).
    pub collapse: CollapsedRelease,
    /// Whether the local row takes the survivor's (remote) id, so its children move too;
    /// otherwise the local row keeps its id and is updated in place.
    pub rekey: bool,
}

/// Plan the collapse of a live remote release whose id has no local live row into the
/// local live release `local` (with its stamp) that carries the same URL, if there is one.
pub fn plan_release_collapse(
    local: Option<(&DiscoveryReleaseRow, &str)>,
    remote: &DiscoveryReleaseRow,
    remote_hlc: &str,
) -> (p: Option<ReleaseCollapsePlan>)
    ensures
        local is None <==> p is None,
        local matches Some((l, lh)) ==> (p matches Some(q)
            && q.collapse.survivor@ == merged_release(l@, lh@, remote@, remote_hlc@)
            && q.collapse.survivor_hlc@ == survivor_release_hlc(l@, lh@, remote@, remote_hlc@)
            && q.collapse.loser_id@ == str_max(l.id@, remote.id@)
            && q.collapse.tombstone_hlc@ == q.collapse.survivor_hlc@
            && q.rekey == (q.collapse.survivor.id@ != l.id@)
            && q.rekey == lex_lt(remote.id@, l.id@)),
{
    match local {
        None => None,
        Some((l, lh)) => {
            let c = collapse_release_pair(l, lh, remote, remote_hlc);
            let rekey = !str_eq(c.survivor.id.as_str(), l.id.as_str());
            proof {
                lemma_lex_irreflexive(l.id@);
                lemma_lex_asymmetric(remote.id@, l.id@);
            }
            Some(ReleaseCollapsePlan { collapse: c, rekey })
        },
    }
}

/// Whether local track `t` is a distinct copy of remote track `remote`: another id and the
/// same name up to Unicode lowercasing (both already share the release).
pub open spec fn is_track_copy(t: DiscoveryTrackView, remote: DiscoveryTrackView) -> bool {
    t.id != remote.id && lowercase(t.name) == lowercase(remote.name)
}

/// The first of the local tracks of `remote`'s release (read in id order, each with its
/// stamp) that is a distinct copy of `remote`: the smallest-id sibling with the same name.
pub fn find_track_copy(siblings: &Vec<(DiscoveryTrack, String)>, remote: &DiscoveryTrack) -> (r: Option<usize>)
    ensures
        match r {
            Some(i) => i < siblings@.len() && is_track_copy(siblings@[i as int].0@, remote@)
                && forall|j: int| 0 <= j < i ==> !is_track_copy(#[trigger] siblings@[j].0@, remote@),
            None => forall|j: int| 0 <= j < siblings@.len() ==> !is_track_copy(#[trigger] siblings@[j].0@, remote@),
        },
{
    let want = to_lowercase(remote.name.as_str());
    let mut i: usize = 0;
    while i < siblings.len()
        invariant
            i <= siblings@.len(),
            want@ == lowercase(remote.name@),
            forall|j: int| 0 <= j < i ==> !is_track_copy(#[trigger] siblings@[j].0@, remote@),
        decreases siblings@.len() - i,
    {
        let t = &siblings[i].0;
        if !str_eq(t.id.as_str(), remote.id.as_str()) {
            let name = to_lowercase(t.name.as_str());
            if str_eq(name.as_str(), want.as_str()) {
                return Some(i);
            }
        }
        i = i + 1;
    }
    None
}

/// What a live remote track does to its local copy.
pub struct TrackCollapsePlan {
    /// The collapsed pair (local row on the left).
    pub collapse: CollapsedTrack,
    /// Whether the local row is replaced by the survivor under the remote id; otherwise
    /// the local row keeps its id and is updated in place.
    pub replace_local: bool,
}

/// Plan the collapse of a live remote track whose id has no local live row into its
/// local copy `local` (with its stamp), if there is one.
pub fn plan_track_collapse(
    local: Option<(&DiscoveryTrack, &str)>,
    remote: &DiscoveryTrack,
    remote_hlc: &str,
) -> (p: Option<TrackCollapsePlan>)
    ensures
        local is None <==> p is None,
        local matches Some((l, lh)) ==> (p matches Some(q)
            && q.collapse.survivor@ == merged_track(l@, lh@, remote@, remote_hlc@)
            && q.collapse.survivor_hlc@ == survivor_track_hlc(l@, lh@, remote@, remote_hlc@)
            && q.collapse.loser_id@ == str_max(l.id@, remote.id@)
            && q.collapse.tombstone_hlc@ == q.collapse.survivor_hlc@
            && q.replace_local == (q.collapse.survivor.id@ != l.id@)
            && q.replace_local == lex_lt(remote.id@, l.id@)),
{
    match local {
        None => None,
        Some((l, lh)) => {
            let c = collapse_track_pair(l, lh, remote, remote_hlc);
            let replace_local = !str_eq(c.survivor.id.as_str(), l.id.as_str());
            proof {
                lemma_lex_irreflexive(l.id@);
                lemma_lex_asymmetric(remote.id@, l.id@);
            }
            Some(TrackCollapsePlan { collapse: c, replace_local })
        },
    }
}

/// The local live release other than `?2` whose URL is `?1`, with its stamp.
pub const RELEASE_BY_URL_SQL: &'static str = "SELECT id, url, source_type, artist, title, label, release_date, artwork_url, artwork_path, notes, parent_url, source_page_url, date_added, date_modified, is_new, surfaced_at, _hlc FROM discovery_releases WHERE url = ?1 AND id != ?2";

/// Updates the local release `?16` to the survivor's fields (`?1`..`?14`) and stamp (`?15`).
pub const RELEASE_SURVIVOR_UPDATE_SQL: &'static str = "UPDATE discovery_releases SET source_type = ?1, artist = ?2, title = ?3, label = ?4, release_date = ?5, artwork_url = ?6, artwork_path = ?7, notes = ?8, parent_url = ?9, source_page_url = ?10, date_added = ?11, date_modified = ?12, is_new = ?13, surfaced_at = ?14, _hlc = ?15 WHERE id = ?16";

/// Re-keys the local release `?17` to the survivor's id (`?1`), fields (`?2`..`?15`) and
/// stamp (`?16`).
pub const RELEASE_REKEY_SQL: &'static str = "UPDATE discovery_releases SET id = ?1, source_type = ?2, artist = ?3, title = ?4, label = ?5, release_date = ?6, artwork_url = ?7, artwork_path = ?8, notes = ?9, parent_url = ?10, source_page_url = ?11, date_added = ?12, date_modified = ?13, is_new = ?14, surfaced_at = ?15, _hlc = ?16 WHERE id = ?17";

/// Moves the tracks of release `?2` under release `?1` (tracks keep their own ids).
pub const REPARENT_TRACKS_SQL: &'static str = "UPDATE discovery_tracks SET release_id = ?1 WHERE release_id = ?2";

/// The link tables whose key embeds a release id, in the order they are moved.
pub open spec fn release_link_tables_spec() -> Seq<Seq<char>> {
    seq!["discovery_release_tags"@, "playlist_discovery_releases"@, "discovery_release_sources"@]
}

/// The link tables whose key embeds a release id (see [`release_link_tables_spec`]).
pub fn release_link_tables() -> (v: Vec<&'static str>)
    ensures
        strs(v@) == release_link_tables_spec(),
{
    let mut v: Vec<&'static str> = Vec::new();
    v.push("discovery_release_tags");
    v.push("playlist_discovery_releases");
    v.push("discovery_release_sources");
    assert(strs(v@) =~= release_link_tables_spec());
    v
}

/// The device-local caches keyed by a release id, whose rows a re-key drops.
pub open spec fn release_cache_tables_spec() -> Seq<Seq<char>> {
    seq!["discovery_stream_cache"@, "discovery_audio_cache"@, "discovery_artwork_cache"@]
}

/// The device-local caches keyed by a release id (see [`release_cache_tables_spec`]).
pub fn release_cache_tables() -> (v: Vec<&'static str>)
    ensures
        strs(v@) == release_cache_tables_spec(),
{
    let mut v: Vec<&'static str> = Vec::new();
    v.push("discovery_stream_cache");
    v.push("discovery_audio_cache");
    v.push("discovery_artwork_cache");
    assert(strs(v@) =~= release_cache_tables_spec());
    v
}

/// Moves the links of release `?2` in `table` to release `?1`, leaving in place those
/// whose moved key already exists.
pub fn move_release_links_sql(table: &str) -> (s: String)
    ensures
        s@ == "UPDATE OR IGNORE "@ + table@ + " SET release_id = ?1 WHERE release_id = ?2"@,
{
    let mut s = crate::text::to_owned_string("UPDATE OR IGNORE ");
    crate::text::push_str(&mut s, table);
    crate::text::push_str(&mut s, " SET release_id = ?1 WHERE release_id = ?2");
    s
}

/// Deletes the rows of `table` that still belong to release `?1` (links left behind by
/// the move, or cache rows).
pub fn delete_release_rows_sql(table: &str) -> (s: String)
    ensures
        s@ == "DELETE FROM "@ + table@ + " WHERE release_id = ?1"@,
{
    let mut s = crate::text::to_owned_string("DELETE FROM ");
    crate::text::push_str(&mut s, table);
    crate::text::push_str(&mut s, " WHERE release_id = ?1");
    s
}

/// The local tracks of release `?1` in id order, each with its stamp.
pub const TRACKS_OF_RELEASE_SQL: &'static str = "SELECT id, release_id, name, position, duration_ms, video_id, url, is_liked, _hlc FROM discovery_tracks WHERE release_id = ?1 ORDER BY id";

/// Updates the local track `?8` to the survivor's fields (`?1`..`?6`) and stamp (`?7`).
pub const TRACK_SURVIVOR_UPDATE_SQL: &'static str = "UPDATE discovery_tracks SET name = ?1, position = ?2, duration_ms = ?3, video_id = ?4, url = ?5, is_liked = ?6, _hlc = ?7 WHERE id = ?8";

/// Writes the surviving track under its own id (`?1`), with its synced fields
/// (`?2`..`?7`) and stamp (`?8`).
pub const TRACK_SURVIVOR_INSERT_SQL: &'static str = "INSERT INTO discovery_tracks (id, release_id, name, position, duration_ms, video_id, is_liked, _hlc) VALUES (?1,?2,?3,?4,?5,?6,?7,?8) ON CONFLICT(id) DO UPDATE SET release_id=excluded.release_id, name=excluded.name, position=excluded.position, duration_ms=excluded.duration_ms, video_id=excluded.video_id, is_liked=excluded.is_liked, _hlc=excluded._hlc";

} // verus!

verus! {

/// Whether the row stamped `wh` with id `wid` beats the row stamped `oh` with id `oid`
/// in a collapse: the newer stamp wins, and between equal stamps the smaller id.
pub open spec fn beats(wh: Seq<char>, wid: Seq<char>, oh: Seq<char>, oid: Seq<char>) -> bool {
    lex_lt(oh, wh) || (wh == oh && lex_lt(wid, oid))
}

/// An optional field of a collapsed row: the winner's value when it has one, else the
/// loser's.
pub open spec fn coalesced<T>(m: Option<T>, w: Option<T>, lo: Option<T>) -> bool {
    (w is Some ==> m == w) && (w is None ==> m == lo)
}

/// The id a collapse keeps: one of the two, and not after either of them.
pub open spec fn smaller_of(m: Seq<char>, a: Seq<char>, b: Seq<char>) -> bool {
    (m == a || m == b) && !lex_lt(a, m) && !lex_lt(b, m)
}

/// The merged track against its winner `w` and loser `lo`: the winner's identity and
/// position fields, every optional field coalesced from the loser only where the winner
/// has none.
pub open spec fn track_from_winner(m: DiscoveryTrackView, w: DiscoveryTrackView, lo: DiscoveryTrackView) -> bool {
    &&& m.release_id == w.release_id
    &&& m.name == w.name
    &&& m.position == w.position
    &&& coalesced(m.duration_ms, w.duration_ms, lo.duration_ms)
    &&& coalesced(m.video_id, w.video_id, lo.video_id)
    &&& coalesced(m.url, w.url, lo.url)
}

/// The merged release against its winner `w` and loser `lo`: the winner's URL and source
/// type, every optional field coalesced from the loser only where the winner has none.
pub open spec fn release_from_winner(m: DiscoveryReleaseView, w: DiscoveryReleaseView, lo: DiscoveryReleaseView) -> bool {
    &&& m.url == w.url
    &&& m.source_type == w.source_type
    &&& coalesced(m.artist, w.artist, lo.artist)
    &&& coalesced(m.title, w.title, lo.title)
    &&& coalesced(m.label, w.label, lo.label)
    &&& coalesced(m.release_date, w.release_date, lo.release_date)
    &&& coalesced(m.artwork_url, w.artwork_url, lo.artwork_url)
    &&& coalesced(m.artwork_path, w.artwork_path, lo.artwork_path)
    &&& coalesced(m.notes, w.notes, lo.notes)
    &&& coalesced(m.parent_url, w.parent_url, lo.parent_url)
    &&& coalesced(m.source_page_url, w.source_page_url, lo.source_page_url)
    &&& coalesced(m.surfaced_at, w.surfaced_at, lo.surfaced_at)
}

proof fn lemma_beats_is_left_wins(lh: Seq<char>, lid: Seq<char>, rh: Seq<char>, rid: Seq<char>)
    requires
        lid != rid,
    ensures
        beats(lh, lid, rh, rid) == left_wins(lh, lid, rh, rid),
        beats(rh, rid, lh, lid) == !left_wins(lh, lid, rh, rid),
{
    crate::text::lemma_lex_total(lh, rh);
    crate::text::lemma_lex_total(lid, rid);
    lemma_lex_asymmetric(lh, rh);
    lemma_lex_asymmetric(lid, rid);
    lemma_lex_irreflexive(lh);
    lemma_lex_irreflexive(lid);
}

/// Law (track collapse): the survivor keeps the smaller id; its fields come from the row
/// with the newer stamp (the smaller id on a tie), with each optional field taken from
/// the other row only where the winner's is empty; a like on either copy survives.
pub proof fn lemma_track_collapse_fields(l: DiscoveryTrackView, lh: Seq<char>, r: DiscoveryTrackView, rh: Seq<char>)
    requires
        l.id != r.id,
    ensures
        smaller_of(merged_track(l, lh, r, rh).id, l.id, r.id),
        beats(lh, l.id, rh, r.id) ==> track_from_winner(merged_track(l, lh, r, rh), l, r),
        beats(rh, r.id, lh, l.id) ==> track_from_winner(merged_track(l, lh, r, rh), r, l),
        beats(lh, l.id, rh, r.id) != beats(rh, r.id, lh, l.id),
        merged_track(l, lh, r, rh).is_liked == (l.is_liked || r.is_liked),
{
    lemma_beats_is_left_wins(lh, l.id, rh, r.id);
    crate::text::lemma_lex_total(l.id, r.id);
    lemma_lex_asymmetric(l.id, r.id);
    lemma_lex_irreflexive(l.id);
    lemma_lex_irreflexive(r.id);
}

/// Law (release collapse): the survivor keeps the smaller id; its fields come from the
/// row with the newer stamp (the smaller id on a tie), each optional field taken from the
/// other row only where the winner's is empty; its history spans both (the earlier
/// `date_added`, the later `date_modified`); it stays new only if both copies are new.
pub proof fn lemma_release_collapse_fields(l: DiscoveryReleaseView, lh: Seq<char>, r: DiscoveryReleaseView, rh: Seq<char>)
    requires
        l.id != r.id,
    ensures
        smaller_of(merged_release(l, lh, r, rh).id, l.id, r.id),
        beats(lh, l.id, rh, r.id) ==> release_from_winner(merged_release(l, lh, r, rh), l, r),
        beats(rh, r.id, lh, l.id) ==> release_from_winner(merged_release(l, lh, r, rh), r, l),
        smaller_of(merged_release(l, lh, r, rh).date_added, l.date_added, r.date_added),
        merged_release(l, lh, r, rh).date_modified == l.date_modified || merged_release(l, lh, r, rh).date_modified
            == r.date_modified,
        !lex_lt(merged_release(l, lh, r, rh).date_modified, l.date_modified),
        !lex_lt(merged_release(l, lh, r, rh).date_modified, r.date_modified),
        merged_release(l, lh, r, rh).is_new == (l.is_new && r.is_new),
{
    lemma_beats_is_left_wins(lh, l.id, rh, r.id);
    crate::text::lemma_lex_total(l.id, r.id);
    lemma_lex_asymmetric(l.id, r.id);
    lemma_lex_irreflexive(l.id);
    lemma_lex_irreflexive(r.id);
    crate::text::lemma_lex_total(l.date_added, r.date_added);
    lemma_lex_asymmetric(l.date_added, r.date_added);
    lemma_lex_irreflexive(l.date_added);
    lemma_lex_irreflexive(r.date_added);
    crate::text::lemma_lex_total(l.date_modified, r.date_modified);
    lemma_lex_asymmetric(l.date_modified, r.date_modified);
    lemma_lex_irreflexive(l.date_modified);
    lemma_lex_irreflexive(r.date_modified);
}

/// Law (survivor stamp): the survivor keeps the winner's stamp exactly when the merged
/// row is the winner unchanged; otherwise it is stamped with the winner's stamp bumped.
pub proof fn lemma_collapse_survivor_stamps(
    l: DiscoveryTrackView,
    lh: Seq<char>,
    r: DiscoveryTrackView,
    rh: Seq<char>,
    lr: DiscoveryReleaseView,
    rr: DiscoveryReleaseView,
)
    requires
        l.id != r.id,
        lr.id != rr.id,
    ensures
        beats(lh, l.id, rh, r.id) ==> survivor_track_hlc(l, lh, r, rh) == (if merged_track(l, lh, r, rh) == l { lh } else {
            bump_spec(lh)
        }),
        beats(rh, r.id, lh, l.id) ==> survivor_track_hlc(l, lh, r, rh) == (if merged_track(l, lh, r, rh) == r { rh } else {
            bump_spec(rh)
        }),
        beats(lh, lr.id, rh, rr.id) ==> survivor_release_hlc(lr, lh, rr, rh) == (if merged_release(lr, lh, rr, rh) == lr {
            lh
        } else {
            bump_spec(lh)
        }),
        beats(rh, rr.id, lh, lr.id) ==> survivor_release_hlc(lr, lh, rr, rh) == (if merged_release(lr, lh, rr, rh) == rr {
            rh
        } else {
            bump_spec(rh)
        }),
{
    lemma_beats_is_left_wins(lh, l.id, rh, r.id);
    lemma_beats_is_left_wins(lh, lr.id, rh, rr.id);
}

/// Law (loser id): the id a collapse tombstones is the other of the two ids: one of
/// them, not before either, and never the one that survives.
pub proof fn lemma_collapse_loser_id(a: Seq<char>, b: Seq<char>)
    requires
        a != b,
    ensures
        str_max(a, b) == a || str_max(a, b) == b,
        !lex_lt(str_max(a, b), a) && !lex_lt(str_max(a, b), b),
        smaller_of(str_min(a, b), a, b),
        str_max(a, b) != str_min(a, b),
{
    crate::text::lemma_lex_total(a, b);
    lemma_lex_asymmetric(a, b);
    lemma_lex_irreflexive(a);
    lemma_lex_irreflexive(b);
}

} // verus!
