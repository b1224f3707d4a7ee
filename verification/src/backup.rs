//! Restore order of playlists in a backup: parents before their children, so every
//! parent row exists before a child row that references it.
//!
//! The order is breadth-first from the roots (no parent): the roots in list order, then
//! the children of each placed playlist in turn, each group in list order. Playlists no
//! root reaches (a missing parent, or a cycle) follow at the end, in list order.
//!
//! Each row of the list is placed exactly once, also when two rows share an id. Ids come
//! from the playlists table's primary key, so a backup this library writes never
//! repeats one; on a hand-made list that does, a row is not placed a second time under
//! another parent of the same id, and a row no root reaches still follows at the end
//! even if a row with its id was placed (a walk that re-queued repeated ids would not
//! end on a row that is its own parent's namesake).
//!
//! A backup file is read only if it declares the one format version there is. It
//! carries the artwork files its tracks and releases name, each once, in standard
//! base64; a restore writes back each file whose text decodes.
use vstd::prelude::*;
use crate::collapse::{opt_str_eq, opt_view};
use crate::rows::PlaylistRow;
use crate::error::SyncError;
use crate::stamping::{decimal, push_decimal};
use crate::text::{str_eq, to_owned_string};
use base64::Engine;

verus! {

/// A playlist's parent id.
pub open spec fn parent_of(p: PlaylistRow) -> Option<Seq<char>> {
    opt_view(p.parent_id)
}

/// The indices below `n` of the playlists whose parent is `parent` and that are not in
/// `out`, ascending.
pub open spec fn fresh_children(ps: Seq<PlaylistRow>, parent: Option<Seq<char>>, out: Seq<int>, n: int) -> Seq<int>
    decreases n,
{
    if n <= 0 {
        Seq::empty()
    } else {
        let rest = fresh_children(ps, parent, out, n - 1);
        if parent_of(ps[n - 1]) == parent && !out.contains(n - 1) { rest.push(n - 1) } else { rest }
    }
}

/// How many indices below `n` are not in `out`.
pub open spec fn unplaced(n: int, out: Seq<int>) -> nat
    decreases n,
{
    if n <= 0 {
        0
    } else {
        unplaced(n - 1, out) + (if out.contains(n - 1) { 0nat } else { 1nat })
    }
}

/// The ids the placed children are queued under.
pub open spec fn child_keys(ps: Seq<PlaylistRow>, kids: Seq<int>) -> Seq<Option<Seq<char>>> {
    kids.map_values(|i: int| Some(ps[i].id@))
}

/// Breadth-first placement: pop the next parent key, place its unplaced children, queue
/// their ids.
pub open spec fn bfs(ps: Seq<PlaylistRow>, queue: Seq<Option<Seq<char>>>, out: Seq<int>) -> Seq<int>
    decreases unplaced(ps.len() as int, out), queue.len(),
    via bfs_decreases
{
    if queue.len() == 0 {
        out
    } else {
        let kids = fresh_children(ps, queue[0], out, ps.len() as int);
        bfs(ps, queue.drop_first() + child_keys(ps, kids), out + kids)
    }
}

proof fn lemma_fresh_children(ps: Seq<PlaylistRow>, parent: Option<Seq<char>>, out: Seq<int>, n: int)
    ensures
        forall|k: int| 0 <= k < fresh_children(ps, parent, out, n).len() ==> {
            let i = #[trigger] fresh_children(ps, parent, out, n)[k];
            0 <= i < n && !out.contains(i) && parent_of(ps[i]) == parent
        },
        forall|a: int, b: int| 0 <= a < b < fresh_children(ps, parent, out, n).len() ==>
            #[trigger] fresh_children(ps, parent, out, n)[a] < #[trigger] fresh_children(ps, parent, out, n)[b],
    decreases n,
{
    if n > 0 {
        lemma_fresh_children(ps, parent, out, n - 1);
    }
}

proof fn lemma_unplaced_add(n: int, out: Seq<int>, kids: Seq<int>)
    requires
        forall|k: int| 0 <= k < kids.len() ==> !out.contains(#[trigger] kids[k]),
    ensures
        unplaced(n, out + kids) <= unplaced(n, out),
        (exists|k: int| 0 <= k < kids.len() && 0 <= #[trigger] kids[k] < n) ==> unplaced(n, out + kids) < unplaced(n, out),
    decreases n,
{
    if n > 0 {
        lemma_unplaced_add(n - 1, out, kids);
        let both = out + kids;
        if both.contains(n - 1) && !out.contains(n - 1) {
        }
        if exists|k: int| 0 <= k < kids.len() && 0 <= #[trigger] kids[k] < n {
            let k = choose|k: int| 0 <= k < kids.len() && 0 <= #[trigger] kids[k] < n;
            if kids[k] == n - 1 {
                assert(both[out.len() + k] == n - 1);
            } else {
                assert(exists|k2: int| 0 <= k2 < kids.len() && 0 <= #[trigger] kids[k2] < n - 1);
            }
        }
        if out.contains(n - 1) {
            let j = choose|j: int| 0 <= j < out.len() && out[j] == n - 1;
            assert(both[j] == n - 1);
        }
    }
}

proof fn lemma_bfs_step(ps: Seq<PlaylistRow>, parent: Option<Seq<char>>, out: Seq<int>)
    ensures
        ({
            let kids = fresh_children(ps, parent, out, ps.len() as int);
            if kids.len() > 0 {
                unplaced(ps.len() as int, out + kids) < unplaced(ps.len() as int, out)
            } else {
                out + kids == out
            }
        }),
{
    let kids = fresh_children(ps, parent, out, ps.len() as int);
    lemma_fresh_children(ps, parent, out, ps.len() as int);
    lemma_unplaced_add(ps.len() as int, out, kids);
    if kids.len() > 0 {
        assert(0 <= kids[0] < ps.len());
    } else {
        assert(out + kids =~= out);
    }
}

#[via_fn]
proof fn bfs_decreases(ps: Seq<PlaylistRow>, queue: Seq<Option<Seq<char>>>, out: Seq<int>) {
    if queue.len() > 0 {
        lemma_bfs_step(ps, queue[0], out);
    }
}

/// The indices not in `r` below `n`, ascending.
pub open spec fn not_reached(r: Seq<int>, n: int) -> Seq<int>
    decreases n,
{
    if n <= 0 {
        Seq::empty()
    } else {
        let rest = not_reached(r, n - 1);
        if r.contains(n - 1) { rest } else { rest.push(n - 1) }
    }
}

/// The restore order of `ps`, as indices: the breadth-first placement from the roots,
/// then the not_reached playlists.
pub open spec fn playlist_order(ps: Seq<PlaylistRow>) -> Seq<int> {
    let r = bfs(ps, seq![None::<Seq<char>>], Seq::empty());
    r + not_reached(r, ps.len() as int)
}

/// Indices of a `Vec<usize>` as integers.
pub open spec fn as_ints(v: Seq<usize>) -> Seq<int> {
    v.map_values(|i: usize| i as int)
}

/// The restore order of `ps`, as indices into it.
pub fn order_playlists(ps: &[PlaylistRow]) -> (order: Vec<usize>)
    ensures
        as_ints(order@) == playlist_order(ps@),
{
    let n = ps.len();
    let mut placed: Vec<bool> = Vec::new();
    let mut z: usize = 0;
    while z < n
        invariant
            z <= n,
            n == ps@.len(),
            placed@.len() == z,
            forall|i: int| 0 <= i < z ==> !(#[trigger] placed@[i]),
        decreases n - z,
    {
        placed.push(false);
        z = z + 1;
    }
    let mut out: Vec<usize> = Vec::new();
    let mut queue: Vec<Option<String>> = Vec::new();
    queue.push(None);
    let mut head: usize = 0;
    let ghost target = bfs(ps@, seq![None::<Seq<char>>], Seq::empty());
    proof {
        assert(queue@.skip(0).map_values(|q: Option<String>| opt_view(q)) =~= seq![None::<Seq<char>>]);
        assert(as_ints(out@) =~= Seq::<int>::empty());
    }
    while head < queue.len()
        invariant
            n == ps@.len(),
            placed@.len() == n,
            head <= queue@.len(),
            forall|i: int| 0 <= i < n ==> (#[trigger] placed@[i] <==> as_ints(out@).contains(i)),
            forall|k: int| 0 <= k < out@.len() ==> (#[trigger] out@[k]) < n,
            bfs(ps@, queue@.skip(head as int).map_values(|q: Option<String>| opt_view(q)), as_ints(out@)) == target,
        decreases unplaced(n as int, as_ints(out@)), queue@.len() - head,
    {
        let ghost q_before = queue@.skip(head as int).map_values(|q: Option<String>| opt_view(q));
        let ghost out_before = as_ints(out@);
        let ghost parent = opt_view(queue@[head as int]);
        assert(q_before[0] == parent);
        let p = clone_key(&queue[head]);
        head = head + 1;
        let ghost queue_mid = queue@;
        let mut i: usize = 0;
        while i < n
            invariant
                n == ps@.len(),
                placed@.len() == n,
                i <= n,
                head <= queue_mid.len(),
                opt_view(p) == parent,
                as_ints(out@) == out_before + fresh_children(ps@, parent, out_before, i as int),
                queue@ == queue_mid + queue@.skip(queue_mid.len() as int),
                queue@.skip(queue_mid.len() as int).map_values(|q: Option<String>| opt_view(q))
                    == child_keys(ps@, fresh_children(ps@, parent, out_before, i as int)),
                forall|j: int| 0 <= j < n ==> (#[trigger] placed@[j] <==> as_ints(out@).contains(j)),
                forall|j: int| i <= j < n ==> (placed@[j] <==> out_before.contains(j)),
                forall|k: int| 0 <= k < out@.len() ==> (#[trigger] out@[k]) < n,
            decreases n - i,
        {
            let ghost kids_before = fresh_children(ps@, parent, out_before, i as int);
            if !placed[i] && opt_str_eq(&ps[i].parent_id, &p) {
                let ghost ob = out@;
                let ghost qb = queue@;
                out.push(i);
                placed.set(i, true);
                queue.push(Some(ps[i].id.clone()));
                proof {
                    assert(as_ints(out@) =~= as_ints(ob).push(i as int));
                    assert(queue@.skip(queue_mid.len() as int) =~= qb.skip(queue_mid.len() as int).push(Some(ps@[i as int].id)));
                    assert(child_keys(ps@, kids_before.push(i as int)) =~= child_keys(ps@, kids_before).push(Some(ps@[i as int].id@)));
                    assert(queue@ =~= queue_mid + queue@.skip(queue_mid.len() as int));
                    assert forall|j: int| 0 <= j < n implies (#[trigger] placed@[j] <==> as_ints(out@).contains(j)) by {
                        if as_ints(ob).contains(j) {
                            let k = choose|k: int| 0 <= k < as_ints(ob).len() && as_ints(ob)[k] == j;
                            assert(as_ints(out@)[k] == j);
                        }
                        if j == i {
                            assert(as_ints(out@)[ob.len() as int] == j);
                        }
                    }
                }
            }
            i = i + 1;
        }
        proof {
            let kids = fresh_children(ps@, parent, out_before, n as int);
            lemma_fresh_children(ps@, parent, out_before, n as int);
            assert(queue@.skip(head as int) =~= queue_mid.skip(head as int) + queue@.skip(queue_mid.len() as int));
            assert(queue@.skip(head as int).map_values(|q: Option<String>| opt_view(q))
                =~= q_before.drop_first() + child_keys(ps@, kids));
            lemma_unplaced_add(n as int, out_before, kids);
            assert(as_ints(out@) == out_before + kids);
            if kids.len() == 0 {
                assert(as_ints(out@) =~= out_before);
                assert(queue@.skip(queue_mid.len() as int).len() == 0);
                assert(queue@.len() == queue_mid.len());
            } else {
                assert(0 <= kids[0] < n);
            }
        }
    }
    proof {
        assert(queue@.skip(head as int).map_values(|q: Option<String>| opt_view(q)) =~= Seq::<Option<Seq<char>>>::empty());
    }
    let ghost reached = as_ints(out@);
    let mut i: usize = 0;
    while i < n
        invariant
            n == ps@.len(),
            placed@.len() == n,
            i <= n,
            reached == target,
            forall|j: int| 0 <= j < n ==> (#[trigger] placed@[j] <==> reached.contains(j)),
            as_ints(out@) == reached + not_reached(reached, i as int),
        decreases n - i,
    {
        if !placed[i] {
            let ghost ob = out@;
            out.push(i);
            assert(as_ints(out@) =~= as_ints(ob).push(i as int));
        }
        i = i + 1;
    }
    out
}

proof fn lemma_unplaced_bound(n: int, out: Seq<int>)
    ensures
        unplaced(n, out) <= if n < 0 { 0 } else { n },
    decreases n,
{
    if n > 0 {
        lemma_unplaced_bound(n - 1, out);
    }
}

fn clone_key(k: &Option<String>) -> (r: Option<String>)
    ensures
        opt_view(r) == opt_view(*k),
{
    match k {
        Some(s) => Some(s.clone()),
        None => None,
    }
}

/// Every index in `out` is a valid, distinct playlist index.
pub open spec fn placement_ok(ps: Seq<PlaylistRow>, out: Seq<int>) -> bool {
    &&& out.no_duplicates()
    &&& forall|k: int| 0 <= k < out.len() ==> 0 <= #[trigger] out[k] < ps.len()
}

/// Each placed playlist is a root or follows a placed playlist with its parent's id.
pub open spec fn parents_placed_first(ps: Seq<PlaylistRow>, out: Seq<int>) -> bool {
    forall|k: int| 0 <= k < out.len() ==> match #[trigger] parent_of(ps[out[k]]) {
        None => true,
        Some(pid) => exists|j: int| 0 <= j < k && ps[out[j]].id@ == pid,
    }
}

/// Each queued key is the root key or the id of a placed playlist.
pub open spec fn queue_keys_placed(ps: Seq<PlaylistRow>, queue: Seq<Option<Seq<char>>>, out: Seq<int>) -> bool {
    forall|q: int| 0 <= q < queue.len() ==> match #[trigger] queue[q] {
        None => true,
        Some(id) => exists|j: int| 0 <= j < out.len() && ps[out[j]].id@ == id,
    }
}

proof fn lemma_bfs_placement(ps: Seq<PlaylistRow>, queue: Seq<Option<Seq<char>>>, out: Seq<int>)
    requires
        placement_ok(ps, out),
    ensures
        placement_ok(ps, bfs(ps, queue, out)),
        out.len() <= bfs(ps, queue, out).len(),
        bfs(ps, queue, out).subrange(0, out.len() as int) == out,
    decreases unplaced(ps.len() as int, out), queue.len(),
{
    if queue.len() > 0 {
        let kids = fresh_children(ps, queue[0], out, ps.len() as int);
        lemma_fresh_children(ps, queue[0], out, ps.len() as int);
        lemma_bfs_step(ps, queue[0], out);
        let nxt = out + kids;
        assert(nxt.no_duplicates()) by {
            assert forall|a: int, b: int| 0 <= a < b < nxt.len() implies nxt[a] != nxt[b] by {
                if b >= out.len() && a < out.len() {
                    assert(out.contains(nxt[a]));
                    assert(kids[b - out.len()] == nxt[b]);
                }
                if a >= out.len() {
                    assert(kids[a - out.len()] < kids[b - out.len()]);
                }
            }
        }
        lemma_bfs_placement(ps, queue.drop_first() + child_keys(ps, kids), nxt);
        let r = bfs(ps, queue, out);
        assert(r.subrange(0, out.len() as int) =~= r.subrange(0, nxt.len() as int).subrange(0, out.len() as int));
        assert(nxt.subrange(0, out.len() as int) =~= out);
    } else {
        assert(out.subrange(0, out.len() as int) =~= out);
    }
}

proof fn lemma_bfs_parents(ps: Seq<PlaylistRow>, queue: Seq<Option<Seq<char>>>, out: Seq<int>)
    requires
        placement_ok(ps, out),
        parents_placed_first(ps, out),
        queue_keys_placed(ps, queue, out),
    ensures
        parents_placed_first(ps, bfs(ps, queue, out)),
    decreases unplaced(ps.len() as int, out), queue.len(),
{
    if queue.len() > 0 {
        let kids = fresh_children(ps, queue[0], out, ps.len() as int);
        lemma_fresh_children(ps, queue[0], out, ps.len() as int);
        lemma_bfs_step(ps, queue[0], out);
        let nxt = out + kids;
        let nq = queue.drop_first() + child_keys(ps, kids);
        lemma_bfs_placement(ps, queue, out);
        assert(placement_ok(ps, nxt)) by {
            assert forall|a: int, b: int| 0 <= a < b < nxt.len() implies nxt[a] != nxt[b] by {
                if b >= out.len() && a < out.len() {
                    assert(out.contains(nxt[a]));
                    assert(kids[b - out.len()] == nxt[b]);
                }
                if a >= out.len() {
                    assert(kids[a - out.len()] < kids[b - out.len()]);
                }
            }
        }
        assert(parents_placed_first(ps, nxt)) by {
            assert forall|k: int| 0 <= k < nxt.len() implies match #[trigger] parent_of(ps[nxt[k]]) {
                None => true,
                Some(pid) => exists|j: int| 0 <= j < k && ps[nxt[j]].id@ == pid,
            } by {
                if k < out.len() {
                    assert(nxt[k] == out[k]);
                    if let Some(pid) = parent_of(ps[out[k]]) {
                        let j = choose|j: int| 0 <= j < k && ps[out[j]].id@ == pid;
                        assert(nxt[j] == out[j]);
                    }
                } else {
                    let c = kids[k - out.len()];
                    assert(nxt[k] == c);
                    assert(parent_of(ps[c]) == queue[0]);
                    if let Some(pid) = queue[0] {
                        assert(match queue[0] {
                            None => true,
                            Some(id) => exists|j: int| 0 <= j < out.len() && ps[out[j]].id@ == id,
                        });
                        let j = choose|j: int| 0 <= j < out.len() && ps[out[j]].id@ == pid;
                        assert(nxt[j] == out[j]);
                    }
                }
            }
        }
        assert(queue_keys_placed(ps, nq, nxt)) by {
            assert forall|q: int| 0 <= q < nq.len() implies match #[trigger] nq[q] {
                None => true,
                Some(id) => exists|j: int| 0 <= j < nxt.len() && ps[nxt[j]].id@ == id,
            } by {
                if q < queue.len() - 1 {
                    assert(nq[q] == queue[q + 1]);
                    if let Some(id) = queue[q + 1] {
                        assert(match queue[q + 1] {
                            None => true,
                            Some(id) => exists|j: int| 0 <= j < out.len() && ps[out[j]].id@ == id,
                        });
                        let j = choose|j: int| 0 <= j < out.len() && ps[out[j]].id@ == id;
                        assert(nxt[j] == out[j]);
                    }
                } else {
                    let m = q - (queue.len() - 1);
                    assert(nq[q] == Some(ps[kids[m]].id@));
                    assert(nxt[out.len() + m] == kids[m]);
                }
            }
        }
        lemma_bfs_parents(ps, nq, nxt);
    }
}

proof fn lemma_not_reached(r: Seq<int>, n: int)
    ensures
        forall|k: int| 0 <= k < not_reached(r, n).len() ==> {
            let i = #[trigger] not_reached(r, n)[k];
            0 <= i < n && !r.contains(i)
        },
        forall|a: int, b: int| 0 <= a < b < not_reached(r, n).len() ==>
            #[trigger] not_reached(r, n)[a] < #[trigger] not_reached(r, n)[b],
        forall|i: int| 0 <= i < n && !r.contains(i) ==> #[trigger] not_reached(r, n).contains(i),
    decreases n,
{
    if n > 0 {
        lemma_not_reached(r, n - 1);
        let rest = not_reached(r, n - 1);
        assert forall|i: int| 0 <= i < n && !r.contains(i) implies #[trigger] not_reached(r, n).contains(i) by {
            if i < n - 1 {
                assert(rest.contains(i));
                let k = choose|k: int| 0 <= k < rest.len() && rest[k] == i;
                assert(not_reached(r, n)[k] == i);
            } else {
                assert(not_reached(r, n)[rest.len() as int] == i);
            }
        }
    }
}

/// The restore order is a permutation: every playlist index occurs in it exactly once.
pub proof fn lemma_order_is_permutation(ps: Seq<PlaylistRow>)
    ensures
        playlist_order(ps).no_duplicates(),
        forall|i: int| #[trigger] playlist_order(ps).contains(i) <==> 0 <= i < ps.len(),
{
    let r = bfs(ps, seq![None::<Seq<char>>], Seq::empty());
    lemma_bfs_placement(ps, seq![None::<Seq<char>>], Seq::empty());
    let t = not_reached(r, ps.len() as int);
    lemma_not_reached(r, ps.len() as int);
    let o = playlist_order(ps);
    assert(o == r + t);
    assert forall|a: int, b: int| 0 <= a < b < o.len() implies o[a] != o[b] by {
        if a < r.len() && b >= r.len() {
            assert(r.contains(o[a]));
            assert(t[b - r.len()] == o[b]);
        }
        if a >= r.len() {
            assert(t[a - r.len()] < t[b - r.len()]);
        }
    }
    assert forall|i: int| #[trigger] o.contains(i) <==> 0 <= i < ps.len() by {
        if o.contains(i) {
            let k = choose|k: int| 0 <= k < o.len() && o[k] == i;
            if k >= r.len() {
                assert(t[k - r.len()] == i);
            }
        }
        if 0 <= i < ps.len() {
            if r.contains(i) {
                let k = choose|k: int| 0 <= k < r.len() && r[k] == i;
                assert(o[k] == i);
            } else {
                assert(t.contains(i));
                let k = choose|k: int| 0 <= k < t.len() && t[k] == i;
                assert(o[r.len() + k] == i);
            }
        }
    }
}

/// Parents are restored first: every playlist in the breadth-first part of the order is
/// a root or comes after a playlist carrying its parent's id.
pub proof fn lemma_parents_restored_first(ps: Seq<PlaylistRow>, k: int)
    requires
        0 <= k < bfs(ps, seq![None::<Seq<char>>], Seq::empty()).len(),
    ensures
        match parent_of(ps[playlist_order(ps)[k]]) {
            None => true,
            Some(pid) => exists|j: int| 0 <= j < k && ps[playlist_order(ps)[j]].id@ == pid,
        },
{
    let r = bfs(ps, seq![None::<Seq<char>>], Seq::empty());
    lemma_bfs_parents(ps, seq![None::<Seq<char>>], Seq::empty());
    let o = playlist_order(ps);
    assert(o[k] == r[k]);
    assert(parents_placed_first(ps, r));
    assert(match parent_of(ps[r[k]]) {
        None => true,
        Some(pid) => exists|j: int| 0 <= j < k && ps[r[j]].id@ == pid,
    });
    if let Some(pid) = parent_of(ps[r[k]]) {
        let j = choose|j: int| 0 <= j < k && ps[r[j]].id@ == pid;
        assert(o[j] == r[j]);
    }
}

/// Topologically sort playlists so that roots come first, then their children, and
/// so on (see [`playlist_order`]); playlists no root reaches are appended at the end.
/// Every row is placed exactly once (see the module docs on repeated ids).
pub fn topological_sort_playlists(playlists: &[PlaylistRow]) -> (sorted: Vec<PlaylistRow>)
    ensures
        sorted@.len() == playlist_order(playlists@).len(),
        forall|k: int| 0 <= k < sorted@.len() ==> #[trigger] sorted@[k] == playlists@[playlist_order(playlists@)[k]],
{
    let order = order_playlists(playlists);
    proof {
        lemma_order_is_permutation(playlists@);
    }
    let mut sorted: Vec<PlaylistRow> = Vec::new();
    let mut k: usize = 0;
    while k < order.len()
        invariant
            k <= order@.len(),
            as_ints(order@) == playlist_order(playlists@),
            forall|i: int| #[trigger] playlist_order(playlists@).contains(i) ==> 0 <= i < playlists@.len(),
            sorted@.len() == k,
            forall|j: int| 0 <= j < k ==> #[trigger] sorted@[j] == playlists@[playlist_order(playlists@)[j]],
        decreases order@.len() - k,
    {
        let idx = order[k];
        assert(as_ints(order@)[k as int] == idx as int);
        assert(playlist_order(playlists@).contains(idx as int));
        sorted.push(playlists[idx].duplicate());
        k = k + 1;
    }
    sorted
}

/// The backup format version this library writes and reads.
pub const BACKUP_FORMAT_VERSION: u32 = 1;

/// The message a backup of another format version is refused with.
pub open spec fn unsupported_version_message(version: u32) -> Seq<char> {
    "Unsupported backup version: "@ + decimal(version as nat)
}

/// Accept a decoded backup only if it declares format version 1; any other version is
/// refused with a `Backup` error naming it.
pub fn check_backup_version(version: u32) -> (r: Result<(), SyncError>)
    ensures
        version == BACKUP_FORMAT_VERSION ==> r is Ok,
        version != BACKUP_FORMAT_VERSION ==> (r matches Err(SyncError::Backup(m))
            && m@ == unsupported_version_message(version)),
{
    if version == BACKUP_FORMAT_VERSION {
        Ok(())
    } else {
        let mut m = to_owned_string("Unsupported backup version: ");
        push_decimal(&mut m, version as usize);
        Err(SyncError::Backup(m))
    }
}

} // verus!

verus! {

// ---------------------------------------------------------------------------
// Artwork files in a backup.
// ---------------------------------------------------------------------------

/// The standard base64 digit for a 6-bit value (`A`-`Z`, `a`-`z`, `0`-`9`, `+`, `/`).
pub open spec fn b64_std_digit(n: nat) -> char {
    if n < 26 {
        ((65 + n) as u8) as char
    } else if n < 52 {
        ((71 + n) as u8) as char
    } else if n < 62 {
        ((n - 4) as u8) as char
    } else if n == 62 {
        '+'
    } else {
        '/'
    }
}

/// Standard base64 with padding: each 3 bytes become 4 digits; a trailing 1 or 2 bytes
/// become 2 or 3 digits padded with `=` to 4.
pub open spec fn base64_std(b: Seq<u8>) -> Seq<char>
    decreases b.len(),
{
    if b.len() == 0 {
        Seq::empty()
    } else if b.len() == 1 {
        seq![b64_std_digit((b[0] / 4) as nat), b64_std_digit(((b[0] % 4) * 16) as nat), '=', '=']
    } else if b.len() == 2 {
        seq![
            b64_std_digit((b[0] / 4) as nat),
            b64_std_digit(((b[0] % 4) * 16 + b[1] / 16) as nat),
            b64_std_digit(((b[1] % 16) * 4) as nat),
            '=',
        ]
    } else {
        seq![
            b64_std_digit((b[0] / 4) as nat),
            b64_std_digit(((b[0] % 4) * 16 + b[1] / 16) as nat),
            b64_std_digit(((b[1] % 16) * 4 + b[2] / 64) as nat),
            b64_std_digit((b[2] % 64) as nat),
        ] + base64_std(b.skip(3))
    }
}

/// `base64::engine::general_purpose::STANDARD.encode`: the bytes in standard base64
/// with padding. The encoder panics only when the output length overflows `usize`,
/// which the length bound rules out.
#[verifier::external_body]
fn base64_encode(bytes: &[u8]) -> (s: String)
    requires
        bytes@.len() <= usize::MAX / 2,
    ensures
        s@ == base64_std(bytes@),
{
    base64::engine::general_purpose::STANDARD.encode(bytes)
}

/// `base64::engine::general_purpose::STANDARD.decode`. The engine requires canonical
/// padding and zero trailing bits, so it accepts exactly the texts the encoder writes:
/// it succeeds with the bytes whose encoding is `s`, and fails when no bytes encode to
/// `s`. The error's message is not described.
#[verifier::external_body]
fn base64_decode(s: &str) -> (r: Result<Vec<u8>, String>)
    ensures
        match r {
            Ok(b) => base64_std(b@) == s@,
            Err(_) => forall|b: Seq<u8>| base64_std(b) != s@,
        },
{
    base64::engine::general_purpose::STANDARD.decode(s).map_err(|e| e.to_string())
}

/// The views of a list of strings.
pub open spec fn string_views(v: Seq<String>) -> Seq<Seq<char>> {
    v.map_values(|s: String| s@)
}

/// The paths among optional paths, in order.
pub open spec fn present_paths(xs: Seq<Option<String>>) -> Seq<Seq<char>>
    decreases xs.len(),
{
    if xs.len() == 0 {
        Seq::empty()
    } else {
        let p = present_paths(xs.drop_last());
        match xs.last() {
            Some(s) => p.push(s@),
            None => p,
        }
    }
}

/// `xs` with every repeat of an earlier element dropped.
pub open spec fn dedup(xs: Seq<Seq<char>>) -> Seq<Seq<char>>
    decreases xs.len(),
{
    if xs.len() == 0 {
        Seq::empty()
    } else {
        let d = dedup(xs.drop_last());
        if d.contains(xs.last()) { d } else { d.push(xs.last()) }
    }
}

proof fn lemma_dedup(xs: Seq<Seq<char>>)
    ensures
        dedup(xs).no_duplicates(),
        forall|p: Seq<char>| dedup(xs).contains(p) <==> xs.contains(p),
    decreases xs.len(),
{
    if xs.len() > 0 {
        let x0 = xs.drop_last();
        lemma_dedup(x0);
        let d = dedup(x0);
        assert forall|p: Seq<char>| xs.contains(p) <==> (x0.contains(p) || p == xs.last()) by {
            if xs.contains(p) {
                let i = choose|i: int| 0 <= i < xs.len() && xs[i] == p;
                if i < x0.len() {
                    assert(x0[i] == p);
                }
            }
            if x0.contains(p) {
                let i = choose|i: int| 0 <= i < x0.len() && x0[i] == p;
                assert(xs[i] == p);
            }
            if p == xs.last() {
                assert(xs[xs.len() - 1] == p);
            }
        }
        if !d.contains(xs.last()) {
            let e = d.push(xs.last());
            assert forall|i: int, j: int| 0 <= i < j < e.len() implies e[i] != e[j] by {
                if j == e.len() - 1 {
                    assert(d[i] == e[i]);
                }
            }
            assert forall|p: Seq<char>| e.contains(p) <==> (d.contains(p) || p == xs.last()) by {
                if e.contains(p) {
                    let i = choose|i: int| 0 <= i < e.len() && e[i] == p;
                    if i < d.len() {
                        assert(d[i] == p);
                    }
                }
                if d.contains(p) {
                    let i = choose|i: int| 0 <= i < d.len() && d[i] == p;
                    assert(e[i] == p);
                }
                if p == xs.last() {
                    assert(e[e.len() - 1] == p);
                }
            }
        }
    }
}

/// Whether the list of strings `v` holds `s`.
fn holds_str(v: &Vec<String>, s: &str) -> (r: bool)
    ensures
        r == string_views(v@).contains(s@),
{
    let mut i: usize = 0;
    while i < v.len()
        invariant
            i <= v@.len(),
            forall|j: int| 0 <= j < i ==> v@[j]@ != s@,
        decreases v@.len() - i,
    {
        if str_eq(v[i].as_str(), s) {
            assert(string_views(v@)[i as int] == s@);
            return true;
        }
        i = i + 1;
    }
    proof {
        if string_views(v@).contains(s@) {
            let j = choose|j: int| 0 <= j < string_views(v@).len() && string_views(v@)[j] == s@;
            assert(v@[j]@ == s@);
        }
    }
    false
}

/// Append to `out` each path of `xs` that it does not hold yet.
fn add_paths(out: &mut Vec<String>, xs: &[Option<String>], Ghost(base): Ghost<Seq<Seq<char>>>)
    requires
        string_views(old(out)@) == dedup(base),
    ensures
        string_views(final(out)@) == dedup(base + present_paths(xs@)),
{
    let mut i: usize = 0;
    assert(xs@.take(0) =~= Seq::<Option<String>>::empty());
    assert(base + present_paths(xs@.take(0)) =~= base);
    while i < xs.len()
        invariant
            i <= xs@.len(),
            string_views(out@) == dedup(base + present_paths(xs@.take(i as int))),
        decreases xs@.len() - i,
    {
        let ghost prev = base + present_paths(xs@.take(i as int));
        assert(xs@.take(i + 1).drop_last() =~= xs@.take(i as int));
        assert(xs@.take(i + 1).last() == xs@[i as int]);
        match &xs[i] {
            Some(p) => {
                assert(base + present_paths(xs@.take(i + 1)) =~= prev.push(p@));
                assert(prev.push(p@).drop_last() =~= prev);
                if !holds_str(out, p.as_str()) {
                    let ghost before = out@;
                    out.push(p.clone());
                    assert(string_views(out@) =~= string_views(before).push(p@));
                }
            },
            None => {
                assert(base + present_paths(xs@.take(i + 1)) =~= prev);
            },
        }
        i = i + 1;
    }
    assert(xs@.take(xs@.len() as int) =~= xs@);
}

/// The artwork files a backup carries: every path a track or a discovery release names,
/// each once, in order of first mention (tracks first).
pub fn artwork_paths(tracks: &[Option<String>], releases: &[Option<String>]) -> (v: Vec<String>)
    ensures
        string_views(v@) == dedup(present_paths(tracks@) + present_paths(releases@)),
        string_views(v@).no_duplicates(),
        forall|p: Seq<char>| string_views(v@).contains(p) <==> (present_paths(tracks@).contains(p)
            || present_paths(releases@).contains(p)),
{
    let mut v: Vec<String> = Vec::new();
    assert(string_views(v@) =~= dedup(Seq::<Seq<char>>::empty()));
    add_paths(&mut v, tracks, Ghost(Seq::empty()));
    assert(Seq::<Seq<char>>::empty() + present_paths(tracks@) =~= present_paths(tracks@));
    add_paths(&mut v, releases, Ghost(present_paths(tracks@)));
    proof {
        let all = present_paths(tracks@) + present_paths(releases@);
        lemma_dedup(all);
        assert forall|p: Seq<char>| all.contains(p) <==> (present_paths(tracks@).contains(p)
            || present_paths(releases@).contains(p)) by {
            let a = present_paths(tracks@);
            let b = present_paths(releases@);
            if all.contains(p) {
                let i = choose|i: int| 0 <= i < all.len() && all[i] == p;
                if i < a.len() {
                    assert(a[i] == p);
                } else {
                    assert(b[i - a.len()] == p);
                }
            }
            if a.contains(p) {
                let i = choose|i: int| 0 <= i < a.len() && a[i] == p;
                assert(all[i] == p);
            }
            if b.contains(p) {
                let i = choose|i: int| 0 <= i < b.len() && b[i] == p;
                assert(all[a.len() + i] == p);
            }
        }
        assert forall|p: Seq<char>| string_views(v@).contains(p) <==> (present_paths(tracks@).contains(p)
            || present_paths(releases@).contains(p)) by {
            assert(dedup(all).contains(p) <==> all.contains(p));
        }
    }
    v
}

/// The artwork section of a backup: each file read, under its path, with its bytes in
/// standard base64; none at all when no file was read.
pub fn encode_artwork(files: &[(String, Vec<u8>)]) -> (m: Option<Vec<(String, String)>>)
    requires
        forall|i: int| 0 <= i < files@.len() ==> (#[trigger] files@[i]).1@.len() <= usize::MAX / 2,
    ensures
        m is None <==> files@.len() == 0,
        m matches Some(v) ==> v@.len() == files@.len() && forall|i: int| 0 <= i < v@.len() ==> (#[trigger] v@[i]).0@
            == files@[i].0@ && v@[i].1@ == base64_std(files@[i].1@),
{
    if files.len() == 0 {
        return None;
    }
    let mut v: Vec<(String, String)> = Vec::new();
    let mut i: usize = 0;
    while i < files.len()
        invariant
            i <= files@.len(),
            v@.len() == i,
            forall|j: int| 0 <= j < files@.len() ==> (#[trigger] files@[j]).1@.len() <= usize::MAX / 2,
            forall|j: int| 0 <= j < i ==> (#[trigger] v@[j]).0@ == files@[j].0@ && v@[j].1@ == base64_std(files@[j].1@),
        decreases files@.len() - i,
    {
        let (path, bytes) = &files[i];
        let enc = base64_encode(bytes.as_slice());
        v.push((to_owned_string(path.as_str()), enc));
        i = i + 1;
    }
    Some(v)
}

/// The bytes of one artwork file of a backup, or `None` when its text is not standard
/// base64 (a restore skips such a file).
pub fn decode_artwork(s: &str) -> (r: Option<Vec<u8>>)
    ensures
        match r {
            Some(b) => base64_std(b@) == s@,
            None => forall|b: Seq<u8>| base64_std(b) != s@,
        },
{
    match base64_decode(s) {
        Ok(b) => Some(b),
        Err(_) => None,
    }
}

/// The tracks whose artwork path is set, for the check after a restore (`id`, path).
pub const TRACKS_WITH_ARTWORK_SQL: &'static str = "SELECT id, artwork_path FROM tracks WHERE artwork_path IS NOT NULL";

/// Forgets the artwork of track `?1`, whose file is missing after a restore.
pub const CLEAR_TRACK_ARTWORK_SQL: &'static str = "UPDATE tracks SET artwork_path = NULL, artwork_source = NULL WHERE id = ?1";

/// The discovery releases whose artwork path is set (`id`, path).
pub const RELEASES_WITH_ARTWORK_SQL: &'static str = "SELECT id, artwork_path FROM discovery_releases WHERE artwork_path IS NOT NULL";

/// Forgets the artwork of discovery release `?1`, whose file is missing after a restore.
pub const CLEAR_RELEASE_ARTWORK_SQL: &'static str = "UPDATE discovery_releases SET artwork_path = NULL WHERE id = ?1";

} // verus!
