//! The decisions of the pull, push and garbage-collection loops. The loops themselves
//! (reading and writing the remote manifest, moving blobs, touching the local database)
//! run outside this crate; each step asks these functions what to do next.
use vstd::prelude::*;
use crate::assoc::{has_key, key_index, lemma_key_index, lemma_unique};
use crate::buckets::{bucket_name, merge_order_spec, Bucket};
use crate::manifest::{names_of, Manifest};
use crate::stamping::{rfc3339_millis, rfc3339_to_millis};
use crate::text::{push_str, str_eq, to_owned_string};

verus! {

/// What a pull does after reading the remote manifest.
#[derive(Clone, Copy, Debug, PartialEq, Eq, Structural)]
pub enum PullStep {
    /// No remote vault yet: nothing to pull.
    NoVault,
    /// The manifest has not been rewritten since the last pull (same etag).
    UpToDate,
    /// This device wrote the manifest: record its etag, merge nothing.
    SelfEcho,
    /// Download and merge the buckets that differ.
    Merge,
}

/// The pull decision: the etag gate first, then the self-echo check.
pub open spec fn pull_step_spec(
    remote: Option<(Seq<char>, Seq<char>)>,
    last_etag: Option<Seq<char>>,
    self_device: Seq<char>,
) -> PullStep {
    match remote {
        None => PullStep::NoVault,
        Some((etag, writer)) => {
            if last_etag == Some(etag) {
                PullStep::UpToDate
            } else if writer == self_device {
                PullStep::SelfEcho
            } else {
                PullStep::Merge
            }
        },
    }
}

/// Decide a pull step from the remote manifest's serialized etag and last writer (when
/// a vault exists), the etag recorded at the last pull, and this device's id.
pub fn pull_step(remote: Option<(&str, &str)>, last_etag: Option<&str>, self_device: &str) -> (s: PullStep)
    ensures
        s == pull_step_spec(
            match remote { Some((e, w)) => Some((e@, w@)), None => None },
            match last_etag { Some(e) => Some(e@), None => None },
            self_device@,
        ),
{
    match remote {
        None => PullStep::NoVault,
        Some((etag, writer)) => {
            let same = match last_etag {
                Some(l) => str_eq(l, etag),
                None => false,
            };
            if same {
                PullStep::UpToDate
            } else if str_eq(writer, self_device) {
                PullStep::SelfEcho
            } else {
                PullStep::Merge
            }
        },
    }
}

/// The names in `names` equal to `n`, in order.
pub open spec fn named(names: Seq<Seq<char>>, n: Seq<char>) -> Seq<Seq<char>>
    decreases names.len(),
{
    if names.len() == 0 {
        Seq::empty()
    } else {
        let rest = named(names.drop_last(), n);
        if names.last() == n { rest.push(names.last()) } else { rest }
    }
}

/// Whether `n` names one of `order`.
pub open spec fn in_order(order: Seq<Bucket>, n: Seq<char>) -> bool {
    exists|i: int| 0 <= i < order.len() && bucket_name(#[trigger] order[i]) == n
}

/// The names not naming any of `order`, in order.
pub open spec fn unknown_names(names: Seq<Seq<char>>, order: Seq<Bucket>) -> Seq<Seq<char>>
    decreases names.len(),
{
    if names.len() == 0 {
        Seq::empty()
    } else {
        let rest = unknown_names(names.drop_last(), order);
        if in_order(order, names.last()) { rest } else { rest.push(names.last()) }
    }
}

/// `names` grouped by the bucket order: first those naming `order[0]`, then `order[1]`,
/// and so on (each group in input order), then the names of no bucket. This is the
/// stable sort of `names` by position in the order.
pub open spec fn grouped(names: Seq<Seq<char>>, order: Seq<Bucket>, k: int) -> Seq<Seq<char>>
    decreases k,
{
    if k <= 0 {
        Seq::empty()
    } else {
        grouped(names, order, k - 1) + named(names, bucket_name(order[k - 1]))
    }
}

/// The buckets of a download in merge order: parents before children, names of no
/// bucket last.
pub fn download_order(names: &Vec<String>) -> (sorted: Vec<String>)
    ensures
        names_of(sorted@) == grouped(names_of(names@), merge_order_spec(), merge_order_spec().len() as int)
            + unknown_names(names_of(names@), merge_order_spec()),
{
    let order = Bucket::merge_order();
    let ghost ns = names_of(names@);
    let ghost os = order@;
    let mut sorted: Vec<String> = Vec::new();
    let mut k: usize = 0;
    while k < order.len()
        invariant
            k <= os.len(),
            os == order@,
            os == merge_order_spec(),
            ns == names_of(names@),
            names_of(sorted@) == grouped(ns, os, k as int),
        decreases os.len() - k,
    {
        let bn = order[k].as_str();
        let ghost base = names_of(sorted@);
        let mut i: usize = 0;
        while i < names.len()
            invariant
                i <= names@.len(),
                ns == names_of(names@),
                bn@ == bucket_name(os[k as int]),
                names_of(sorted@) == base + named(ns.subrange(0, i as int), bn@),
            decreases names@.len() - i,
        {
            let ghost before = names_of(sorted@);
            assert(ns.subrange(0, i + 1).drop_last() =~= ns.subrange(0, i as int));
            if str_eq(names[i].as_str(), bn.as_str()) {
                sorted.push(names[i].clone());
                assert(names_of(sorted@) =~= before.push(names@[i as int]@));
            }
            i = i + 1;
        }
        assert(ns.subrange(0, names@.len() as int) =~= ns);
        k = k + 1;
    }
    let ghost head = names_of(sorted@);
    let mut i: usize = 0;
    while i < names.len()
        invariant
            i <= names@.len(),
            ns == names_of(names@),
            os == merge_order_spec(),
            os == order@,
            names_of(sorted@) == head + unknown_names(ns.subrange(0, i as int), os),
        decreases names@.len() - i,
    {
        let ghost before = names_of(sorted@);
        assert(ns.subrange(0, i + 1).drop_last() =~= ns.subrange(0, i as int));
        let mut known = false;
        let mut k: usize = 0;
        while k < order.len()
            invariant
                k <= os.len(),
                os == order@,
                i < names@.len(),
                known == exists|j: int| 0 <= j < k && bucket_name(#[trigger] os[j]) == names@[i as int]@,
            decreases os.len() - k,
        {
            let bn = order[k].as_str();
            if str_eq(names[i].as_str(), bn.as_str()) {
                known = true;
            }
            k = k + 1;
        }
        if !known {
            sorted.push(names[i].clone());
            assert(names_of(sorted@) =~= before.push(names@[i as int]@));
        }
        i = i + 1;
    }
    assert(ns.subrange(0, names@.len() as int) =~= ns);
    sorted
}

/// Manifest compare-and-swap attempts a push makes before giving up.
pub const MAX_PUSH_ATTEMPTS: usize = 8;
/// The first retry delay after a lost compare-and-swap, in milliseconds.
pub const FIRST_BACKOFF_MS: u64 = 200;
/// The longest retry delay, in milliseconds.
pub const MAX_BACKOFF_MS: u64 = 3000;

/// The delay after `backoff_ms`: doubled, capped at [`MAX_BACKOFF_MS`].
pub fn next_backoff(backoff_ms: u64) -> (r: u64)
    ensures
        r == (if 2 * backoff_ms < MAX_BACKOFF_MS { 2 * backoff_ms } else { MAX_BACKOFF_MS as int }),
{
    if backoff_ms < MAX_BACKOFF_MS / 2 {
        2 * backoff_ms
    } else {
        MAX_BACKOFF_MS
    }
}

/// Entries taken from the GC queue per round.
pub const GC_BATCH: usize = 100;
/// Hard cap on queue entries one sweep processes.
pub const GC_MAX_TOTAL: usize = 10000;

/// What the sweep does with one due queue entry.
#[derive(Clone, Copy, Debug, PartialEq, Eq, Structural)]
pub enum GcAction {
    /// Delete the blob, then acknowledge the entry.
    Delete,
    /// The manifest references the blob again: acknowledge without deleting.
    KeepReferenced,
}

/// One garbage-collection sweep: the blob keys the current manifest references, and the
/// number of queue entries processed so far.
pub struct GcSweep {
    live: Vec<String>,
    processed: usize,
}

/// The full storage keys of a manifest's blobs.
pub open spec fn live_keys(m: Manifest, uid: Seq<char>) -> Set<Seq<char>> {
    Set::new(|k: Seq<char>| exists|n: Seq<char>| m.buckets.contains_spec(n)
        && k == "users/"@ + uid + "/vault/"@ + (#[trigger] m.buckets.get_spec(n)).object_key@)
}

impl GcSweep {
    pub closed spec fn live_set(&self) -> Set<Seq<char>> {
        names_of(self.live@).to_set()
    }

    pub closed spec fn count(&self) -> nat {
        self.processed as nat
    }

    /// Start a sweep against the current manifest (none when there is no vault).
    pub fn new(manifest: Option<&Manifest>, uid: &str) -> (s: GcSweep)
        ensures
            s.live_set() == match manifest {
                Some(m) => live_keys(*m, uid@),
                None => Set::<Seq<char>>::empty(),
            },
            s.count() == 0,
    {
        let mut live: Vec<String> = Vec::new();
        match manifest {
            Some(m) => {
                let n = m.buckets.len();
                let mut i: usize = 0;
                while i < n
                    invariant
                        i <= n,
                        n == m.buckets.entries_spec().len(),
                        forall|k: Seq<char>| #[trigger] names_of(live@).contains(k) <==>
                            exists|j: int| 0 <= j < i && k == "users/"@ + uid@ + "/vault/"@ + m.buckets.entries_spec()[j].1.object_key@,
                    decreases n - i,
                {
                    let (_, e) = m.buckets.entry(i);
                    let mut k = to_owned_string("users/");
                    push_str(&mut k, uid);
                    push_str(&mut k, "/vault/");
                    push_str(&mut k, e.object_key.as_str());
                    let ghost before = names_of(live@);
                    live.push(k);
                    proof {
                        let lv = names_of(live@);
                        assert(lv =~= before.push(k@));
                        assert forall|q: Seq<char>| #[trigger] lv.contains(q) <==>
                            exists|j: int| 0 <= j < i + 1 && q == "users/"@ + uid@ + "/vault/"@ + m.buckets.entries_spec()[j].1.object_key@ by {
                            if lv.contains(q) && q != k@ {
                                let t = choose|t: int| 0 <= t < lv.len() && #[trigger] lv[t] == q;
                                assert(before[t] == q);
                                assert(before.contains(q));
                            }
                            if exists|j: int| 0 <= j < i && q == "users/"@ + uid@ + "/vault/"@ + m.buckets.entries_spec()[j].1.object_key@ {
                                assert(before.contains(q));
                                let t = choose|t: int| 0 <= t < before.len() && #[trigger] before[t] == q;
                                assert(lv[t] == q);
                            }
                            if q == k@ {
                                assert(lv[before.len() as int] == q);
                            }
                        }
                    }
                    i = i + 1;
                }
                proof {
                    use_type_invariant(&m.buckets);
                    let es = m.buckets.entries_spec();
                    assert forall|q: Seq<char>| names_of(live@).to_set().contains(q) == live_keys(*m, uid@).contains(q) by {
                        if live_keys(*m, uid@).contains(q) {
                            let nm = choose|nm: Seq<char>| m.buckets.contains_spec(nm)
                                && q == "users/"@ + uid@ + "/vault/"@ + (#[trigger] m.buckets.get_spec(nm)).object_key@;
                            lemma_key_index(es, nm);
                            let j = key_index(es, nm);
                            assert(exists|j2: int| 0 <= j2 < n && q == "users/"@ + uid@ + "/vault/"@ + es[j2].1.object_key@);
                            assert(names_of(live@).contains(q));
                        }
                        if names_of(live@).contains(q) {
                            let j = choose|j: int| 0 <= j < n && q == "users/"@ + uid@ + "/vault/"@ + es[j].1.object_key@;
                            let nm = es[j].0@;
                            lemma_unique(es, j, nm);
                            assert(m.buckets.contains_spec(nm) && m.buckets.get_spec(nm) == es[j].1);
                            assert(live_keys(*m, uid@).contains(q));
                        }
                    }
                    assert(names_of(live@).to_set() =~= live_keys(*m, uid@));
                }
            },
            None => {
                assert(names_of(live@).to_set() =~= Set::<Seq<char>>::empty());
            },
        }
        GcSweep { live, processed: 0 }
    }

    /// What to do with a due entry for `object_key`.
    pub fn decide(&self, object_key: &str) -> (a: GcAction)
        ensures
            a == (if self.live_set().contains(object_key@) { GcAction::KeepReferenced } else { GcAction::Delete }),
    {
        let mut i: usize = 0;
        while i < self.live.len()
            invariant
                i <= self.live@.len(),
                forall|j: int| 0 <= j < i ==> (#[trigger] self.live@[j])@ != object_key@,
            decreases self.live@.len() - i,
        {
            if str_eq(self.live[i].as_str(), object_key) {
                assert(names_of(self.live@)[i as int] == object_key@);
                return GcAction::KeepReferenced;
            }
            i = i + 1;
        }
        proof {
            if self.live_set().contains(object_key@) {
                let lv = names_of(self.live@);
                assert(lv.contains(object_key@));
                let t = choose|t: int| 0 <= t < lv.len() && #[trigger] lv[t] == object_key@;
                assert(self.live@[t]@ == object_key@);
            }
        }
        GcAction::Delete
    }

    /// Count an acknowledged entry; `true` when the sweep has reached its cap and must
    /// stop.
    pub fn acknowledged(&mut self) -> (stop: bool)
        requires
            old(self).count() < GC_MAX_TOTAL,
        ensures
            final(self).count() == old(self).count() + 1,
            final(self).live_set() == old(self).live_set(),
            stop == (final(self).count() >= GC_MAX_TOTAL),
    {
        self.processed = self.processed + 1;
        self.processed >= GC_MAX_TOTAL
    }

    /// Entries processed so far.
    pub fn processed(&self) -> (n: usize)
        ensures
            n == self.count(),
    {
        self.processed
    }
}

/// The debounce condition of a push: the dirty queue is non-empty (its newest mark is
/// `newest_mark`, RFC 3339) and that mark is at least `quiescent_ms` old at `now_ms`
/// (milliseconds since the epoch). An unparseable mark never holds a push back; a mark
/// in the future is not yet quiet.
pub open spec fn quiescent(newest_mark: Option<Seq<char>>, now_ms: i64, quiescent_ms: u64) -> bool {
    match newest_mark {
        None => false,
        Some(m) => match rfc3339_millis(m) {
            None => true,
            Some(t) => now_ms >= t && now_ms - t >= quiescent_ms,
        },
    }
}

/// Whether the dirty queue has been quiet long enough to push (see [`quiescent`]).
pub fn dirty_quiescent(newest_mark: Option<&str>, now_ms: i64, quiescent_ms: u64) -> (r: bool)
    ensures
        r == quiescent(match newest_mark { Some(m) => Some(m@), None => None }, now_ms, quiescent_ms),
{
    match newest_mark {
        None => false,
        Some(m) => match rfc3339_to_millis(m) {
            None => true,
            Some(t) => {
                let age: i128 = now_ms as i128 - t as i128;
                now_ms >= t && age >= quiescent_ms as i128
            },
        },
    }
}

} // verus!
