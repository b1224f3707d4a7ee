//! The vault manifest — the index of every bucket's current blob — and the
//! backend-agnostic diffing over it.
//!
//! Diffing keys on `blob_hash` only (`count`/`hlc` are diagnostics). A scoped node
//! (mobile) relies on [`preserve_unmanaged`] so its manifest write still carries a peer's
//! entries for buckets it does not manage.
use vstd::prelude::*;
use crate::buckets::{bucket_name, Bucket};
use crate::rows::{blake3_hex, bucket_hash};
use crate::text::{lex_lt, push_str, str_eq, str_lt, to_owned_string};
use crate::assoc::{entry_at, has_key, insert_sorted, key_index, keys_sorted, lemma_key_index, lemma_unique};

verus! {

/// Wire-format version of the manifest document.
pub const MANIFEST_FORMAT_VERSION: u32 = 1;

/// One bucket's entry in the manifest. The blob hash is the identity used for diffing.
#[derive(Clone, Debug, PartialEq, Eq)]
pub struct BucketEntry {
    /// blake3 hex of the bucket's serialized (uncompressed) JSONL.
    pub blob_hash: String,
    /// Storage object key the bytes live under, relative to the user's vault.
    pub object_key: String,
    /// Live row count — diagnostic only.
    pub count: u64,
    /// Max `_hlc` across the bucket's rows and tombstones (`""` if empty).
    pub hlc: String,
}

impl BucketEntry {
    /// A copy of this entry.
    pub fn duplicate(&self) -> (r: BucketEntry)
        ensures
            r == *self,
    {
        BucketEntry {
            blob_hash: self.blob_hash.clone(),
            object_key: self.object_key.clone(),
            count: self.count,
            hlc: self.hlc.clone(),
        }
    }
}

/// Bucket name → entry, kept in ascending name order (the order a `BTreeMap<String, _>`
/// iterates and serializes in).
#[derive(Debug, PartialEq, Eq)]
pub struct BucketMap {
    entries: Vec<(String, BucketEntry)>,
}

impl BucketMap {
    pub closed spec fn entries_spec(&self) -> Seq<(String, BucketEntry)> {
        self.entries@
    }

    /// Keys ascend strictly.
    #[verifier::type_invariant]
    pub open spec fn wf(&self) -> bool {
        keys_sorted(self.entries_spec())
    }

    pub open spec fn contains_spec(&self, k: Seq<char>) -> bool {
        has_key(self.entries_spec(), k)
    }

    pub open spec fn get_spec(&self, k: Seq<char>) -> BucketEntry {
        entry_at(self.entries_spec(), k)
    }

    /// An empty map.
    pub fn new() -> (m: BucketMap)
        ensures
            m.entries_spec().len() == 0,
    {
        BucketMap { entries: Vec::new() }
    }

    /// A copy of this map.
    pub fn duplicate(&self) -> (r: BucketMap)
        ensures
            r.entries_spec() == self.entries_spec(),
    {
        proof {
            use_type_invariant(self);
        }
        let mut v: Vec<(String, BucketEntry)> = Vec::new();
        let mut i: usize = 0;
        while i < self.entries.len()
            invariant
                i <= self.entries@.len(),
                v@ == self.entries@.subrange(0, i as int),
            decreases self.entries@.len() - i,
        {
            let e = &self.entries[i];
            v.push((e.0.clone(), e.1.duplicate()));
            assert(v@ =~= self.entries@.subrange(0, i + 1));
            i = i + 1;
        }
        assert(v@ =~= self.entries@);
        BucketMap { entries: v }
    }

    /// Number of entries.
    pub fn len(&self) -> (n: usize)
        ensures
            n == self.entries_spec().len(),
    {
        self.entries.len()
    }

    /// The `i`-th entry in ascending name order.
    pub fn entry(&self, i: usize) -> (r: (&String, &BucketEntry))
        requires
            i < self.entries_spec().len(),
        ensures
            *r.0 == self.entries_spec()[i as int].0,
            *r.1 == self.entries_spec()[i as int].1,
    {
        let e = &self.entries[i];
        (&e.0, &e.1)
    }

    /// Index of the entry named `k`, if any.
    fn find(&self, k: &str) -> (r: Option<usize>)
        ensures
            match r {
                Some(i) => i < self.entries@.len() && self.entries@[i as int].0@ == k@,
                None => !has_key(self.entries@, k@),
            },
    {
        let mut i: usize = 0;
        while i < self.entries.len()
            invariant
                i <= self.entries@.len(),
                forall|j: int| 0 <= j < i ==> (#[trigger] self.entries@[j]).0@ != k@,
            decreases self.entries@.len() - i,
        {
            if str_eq(self.entries[i].0.as_str(), k) {
                return Some(i);
            }
            i = i + 1;
        }
        None
    }

    /// The entry named `k`.
    pub fn get(&self, k: &str) -> (r: Option<&BucketEntry>)
        ensures
            match r {
                Some(e) => self.contains_spec(k@) && *e == self.get_spec(k@),
                None => !self.contains_spec(k@),
            },
    {
        match self.find(k) {
            Some(i) => {
                proof {
                    use_type_invariant(self);
                    lemma_unique(self.entries@, i as int, k@);
                }
                Some(&self.entries[i].1)
            },
            None => None,
        }
    }

    /// Insert or replace the entry named `k`; returns the entry it replaced.
    pub fn insert(&mut self, k: String, v: BucketEntry) -> (r: Option<BucketEntry>)
        ensures
            forall|n: Seq<char>| #[trigger] final(self).contains_spec(n) == (old(self).contains_spec(n) || n == k@),
            final(self).contains_spec(k@) && final(self).get_spec(k@) == v,
            forall|n: Seq<char>| n != k@ && old(self).contains_spec(n) ==> #[trigger] final(self).get_spec(n) == old(self).get_spec(n),
            match r {
                Some(e) => old(self).contains_spec(k@) && e == old(self).get_spec(k@),
                None => !old(self).contains_spec(k@),
            },
    {
        proof {
            use_type_invariant(&*self);
        }
        let mut vec: Vec<(String, BucketEntry)> = Vec::new();
        std::mem::swap(&mut vec, &mut self.entries);
        let ghost es = vec@;
        let (ins, r) = insert_sorted(&mut vec, k, v);
        self.entries = vec;
        r
    }
}

} // verus!

verus! {

/// The vault manifest: the authoritative index of every bucket's current blob.
#[derive(Debug, PartialEq, Eq)]
pub struct Manifest {
    pub format_version: u32,
    /// Device id of whoever last wrote the manifest.
    pub last_writer_device: String,
    /// Max bucket hlc across the whole manifest.
    pub manifest_hlc: String,
    /// Bucket name → entry, in ascending name order.
    pub buckets: BucketMap,
}

impl Manifest {
    /// An empty manifest written by `device_id`.
    pub fn empty(device_id: &str) -> (m: Manifest)
        ensures
            m.format_version == MANIFEST_FORMAT_VERSION,
            m.last_writer_device@ == device_id@,
            m.manifest_hlc@ == Seq::<char>::empty(),
            m.buckets.entries_spec().len() == 0,
    {
        Manifest {
            format_version: MANIFEST_FORMAT_VERSION,
            last_writer_device: to_owned_string(device_id),
            manifest_hlc: String::new(),
            buckets: BucketMap::new(),
        }
    }

    /// The entry for bucket `name`.
    pub fn bucket(&self, name: &str) -> (r: Option<&BucketEntry>)
        ensures
            match r {
                Some(e) => self.buckets.contains_spec(name@) && *e == self.buckets.get_spec(name@),
                None => !self.buckets.contains_spec(name@),
            },
    {
        self.buckets.get(name)
    }

    /// A copy of this manifest.
    pub fn duplicate(&self) -> (r: Manifest)
        ensures
            r.format_version == self.format_version,
            r.last_writer_device == self.last_writer_device,
            r.manifest_hlc == self.manifest_hlc,
            r.buckets.entries_spec() == self.buckets.entries_spec(),
    {
        Manifest {
            format_version: self.format_version,
            last_writer_device: self.last_writer_device.clone(),
            manifest_hlc: self.manifest_hlc.clone(),
            buckets: self.buckets.duplicate(),
        }
    }
}

/// Opaque compare-and-swap token: a monotonic counter (in-memory store) or a server
/// token (the document's update time).
#[derive(Clone, Debug, PartialEq, Eq)]
pub struct ManifestEtag(pub EtagInner);

#[derive(Clone, Debug, PartialEq, Eq)]
/// What an etag holds.
pub enum EtagInner {
    /// In-memory store: a monotonically increasing version counter.
    Counter(u64),
    /// Server store: an opaque token (the document update time).
    Token(String),
}

impl ManifestEtag {
    pub fn counter(n: u64) -> (e: ManifestEtag)
        ensures
            e.0 == EtagInner::Counter(n),
    {
        ManifestEtag(EtagInner::Counter(n))
    }

    /// A server token etag.
    pub fn token(s: String) -> (e: ManifestEtag)
        ensures
            e.0 == EtagInner::Token(s),
    {
        ManifestEtag(EtagInner::Token(s))
    }

    /// The server token, if this etag is one; `None` for a counter etag.
    pub fn as_token(&self) -> (r: Option<&str>)
        ensures
            match self.0 {
                EtagInner::Token(s) => r matches Some(t) && t@ == s@,
                EtagInner::Counter(_) => r is None,
            },
    {
        match &self.0 {
            EtagInner::Token(s) => Some(s.as_str()),
            EtagInner::Counter(_) => None,
        }
    }
}

/// The storage object key a bucket blob lives under:
/// `users/{uid}/vault/{bucket}-{blob_hash}.jsonl.gz`.
pub open spec fn object_key_spec(uid: Seq<char>, bucket: Bucket, blob_hash: Seq<char>) -> Seq<char> {
    "users/"@ + uid + "/vault/"@ + bucket_name(bucket) + "-"@ + blob_hash + ".jsonl.gz"@
}

/// The storage object key a bucket blob lives under.
pub fn object_key(uid: &str, bucket: &Bucket, blob_hash: &str) -> (k: String)
    ensures
        k@ == object_key_spec(uid@, *bucket, blob_hash@),
{
    let mut k = to_owned_string("users/");
    push_str(&mut k, uid);
    push_str(&mut k, "/vault/");
    let name = bucket.as_str();
    push_str(&mut k, name.as_str());
    push_str(&mut k, "-");
    push_str(&mut k, blob_hash);
    push_str(&mut k, ".jsonl.gz");
    k
}

/// The full storage key of a manifest entry's blob: its relative object key under the
/// user's vault, `users/{uid}/vault/{object_key}`.
pub fn vault_key(uid: &str, object_key: &str) -> (k: String)
    ensures
        k@ == "users/"@ + uid@ + "/vault/"@ + object_key@,
{
    let mut k = to_owned_string("users/");
    push_str(&mut k, uid);
    push_str(&mut k, "/vault/");
    push_str(&mut k, object_key);
    k
}

/// Which buckets must be uploaded (local differs) / downloaded (remote differs).
#[derive(Debug, PartialEq, Eq)]
pub struct ManifestDiff {
    /// Bucket names whose local blob differs from (or is missing on) the remote.
    pub to_upload: Vec<String>,
    /// Bucket names whose remote blob differs from (or is missing on) local.
    pub to_download: Vec<String>,
}

pub open spec fn names_of(v: Seq<String>) -> Seq<Seq<char>> {
    v.map_values(|s: String| s@)
}

pub open spec fn strictly_sorted(v: Seq<Seq<char>>) -> bool {
    forall|i: int, j: int| 0 <= i < j < v.len() ==> lex_lt(#[trigger] v[i], #[trigger] v[j])
}

/// `a` holds bucket `n` and `b` lacks it or holds a different blob for it.
pub open spec fn differs_from(a: &BucketMap, b: &BucketMap, n: Seq<char>) -> bool {
    a.contains_spec(n) && (!b.contains_spec(n) || a.get_spec(n).blob_hash@ != b.get_spec(n).blob_hash@)
}

/// The names `a` holds that differ from `b`, in ascending order, each once.
pub open spec fn differing_names(v: Seq<Seq<char>>, a: &BucketMap, b: &BucketMap) -> bool {
    &&& strictly_sorted(v)
    &&& forall|n: Seq<char>| v.contains(n) <==> #[trigger] differs_from(a, b, n)
}

/// The names `a` holds whose blob differs from (or is missing in) `b`, ascending.
fn differing(a: &BucketMap, b: &BucketMap) -> (out: Vec<String>)
    ensures
        differing_names(names_of(out@), a, b),
{
    proof {
        use_type_invariant(a);
        use_type_invariant(b);
    }
    let mut out: Vec<String> = Vec::new();
    let mut i: usize = 0;
    let n = a.len();
    while i < n
        invariant
            n == a.entries_spec().len(),
            i <= n,
            keys_sorted(a.entries_spec()),
            keys_sorted(b.entries_spec()),
            strictly_sorted(names_of(out@)),
            forall|k: int| 0 <= k < out@.len() ==> exists|j: int| 0 <= j < i && (#[trigger] names_of(out@)[k]) == a.entries_spec()[j].0@,
            forall|j: int| 0 <= j < i && differs_from(a, b, #[trigger] a.entries_spec()[j].0@) ==> names_of(out@).contains(a.entries_spec()[j].0@),
            forall|j: int| 0 <= j < i && #[trigger] names_of(out@).contains(a.entries_spec()[j].0@) ==> differs_from(a, b, a.entries_spec()[j].0@),
        decreases n - i,
    {
        let (name, entry) = a.entry(i);
        let ghost es = a.entries_spec();
        proof {
            lemma_unique(es, i as int, name@);
        }
        let differs = match b.get(name.as_str()) {
            None => true,
            Some(other) => !str_eq(entry.blob_hash.as_str(), other.blob_hash.as_str()),
        };
        let ghost old_out = out@;
        if differs {
            out.push(name.clone());
            proof {
                let no = names_of(out@);
                assert(no == names_of(old_out).push(name@));
                assert forall|x: int, y: int| 0 <= x < y < no.len() implies lex_lt(#[trigger] no[x], #[trigger] no[y]) by {
                    if y == no.len() - 1 {
                        let j = choose|j: int| 0 <= j < i && (#[trigger] names_of(old_out)[x]) == es[j].0@;
                        assert(lex_lt(es[j].0@, es[i as int].0@));
                    }
                }
            }
        }
        proof {
            let no = names_of(out@);
            assert forall|k: int| 0 <= k < out@.len() implies exists|j: int| 0 <= j < i + 1 && (#[trigger] names_of(out@)[k]) == es[j].0@ by {
                if k < old_out.len() {
                    assert(no[k] == names_of(old_out)[k]);
                    let j = choose|j: int| 0 <= j < i && (#[trigger] names_of(old_out)[k]) == es[j].0@;
                } else {
                    assert(no[k] == es[i as int].0@);
                }
            }
            assert forall|j: int| 0 <= j < i + 1 && differs_from(a, b, #[trigger] es[j].0@) implies no.contains(es[j].0@) by {
                if j < i {
                    assert(names_of(old_out).contains(es[j].0@));
                    let k = choose|k: int| 0 <= k < names_of(old_out).len() && names_of(old_out)[k] == es[j].0@;
                    assert(no[k] == es[j].0@);
                } else {
                    assert(no[no.len() - 1] == es[i as int].0@);
                }
            }
            assert forall|j: int| 0 <= j < i + 1 && #[trigger] no.contains(es[j].0@) implies differs_from(a, b, es[j].0@) by {
                let k = choose|k: int| 0 <= k < no.len() && no[k] == es[j].0@;
                if j < i {
                    if k < old_out.len() {
                        assert(names_of(old_out)[k] == es[j].0@);
                        assert(names_of(old_out).contains(es[j].0@));
                    } else {
                        assert(es[j].0@ == es[i as int].0@);
                        assert(lex_lt(es[j].0@, es[i as int].0@));
                        crate::text::lemma_lex_irreflexive(es[j].0@);
                    }
                } else {
                    if k < old_out.len() {
                        let j2 = choose|j2: int| 0 <= j2 < i && (#[trigger] names_of(old_out)[k]) == es[j2].0@;
                        assert(lex_lt(es[j2].0@, es[i as int].0@));
                        crate::text::lemma_lex_irreflexive(es[j].0@);
                    }
                }
            }
        }
        i = i + 1;
    }
    proof {
        let es = a.entries_spec();
        let no = names_of(out@);
        assert forall|nm: Seq<char>| no.contains(nm) <==> #[trigger] differs_from(a, b, nm) by {
            if no.contains(nm) {
                let k = choose|k: int| 0 <= k < no.len() && no[k] == nm;
                let j = choose|j: int| 0 <= j < n && (#[trigger] names_of(out@)[k]) == es[j].0@;
                assert(no.contains(es[j].0@));
            }
            if differs_from(a, b, nm) {
                lemma_key_index(es, nm);
                let j = key_index(es, nm);
                assert(es[j].0@ == nm);
            }
        }
    }
    out
}

/// Which buckets must be uploaded (local differs) / downloaded (remote differs). Both
/// lists ascend by name.
pub fn diff_manifest(local: &Manifest, remote: &Manifest) -> (d: ManifestDiff)
    ensures
        differing_names(names_of(d.to_upload@), &local.buckets, &remote.buckets),
        differing_names(names_of(d.to_download@), &remote.buckets, &local.buckets),
{
    ManifestDiff {
        to_upload: differing(&local.buckets, &remote.buckets),
        to_download: differing(&remote.buckets, &local.buckets),
    }
}

/// Carry forward a peer's entries for buckets this node does not manage: every `remote`
/// bucket absent from `local` is copied in unchanged; `local` wins for the buckets it
/// holds.
pub fn preserve_unmanaged(local: Manifest, remote: Option<&Manifest>) -> (m: Manifest)
    ensures
        m.format_version == local.format_version,
        m.last_writer_device == local.last_writer_device,
        m.manifest_hlc == local.manifest_hlc,
        forall|n: Seq<char>| #[trigger] m.buckets.contains_spec(n) == (local.buckets.contains_spec(n)
            || (remote matches Some(r) && r.buckets.contains_spec(n))),
        forall|n: Seq<char>| #[trigger] m.buckets.contains_spec(n) ==> m.buckets.get_spec(n) == (
        if local.buckets.contains_spec(n) {
            local.buckets.get_spec(n)
        } else {
            remote.unwrap().buckets.get_spec(n)
        }),
{
    let mut m = local;
    match remote {
        None => m,
        Some(r) => {
            let ghost orig = m.buckets;
            proof {
                use_type_invariant(&r.buckets);
            }
            let n = r.buckets.len();
            let mut i: usize = 0;
            while i < n
                invariant
                    n == r.buckets.entries_spec().len(),
                    m.format_version == local.format_version,
                    m.last_writer_device == local.last_writer_device,
                    m.manifest_hlc == local.manifest_hlc,
                    orig == local.buckets,
                    i <= n,
                    keys_sorted(r.buckets.entries_spec()),
                    forall|nm: Seq<char>| #[trigger] m.buckets.contains_spec(nm) == (orig.contains_spec(nm)
                        || exists|j: int| 0 <= j < i && r.buckets.entries_spec()[j].0@ == nm),
                    forall|nm: Seq<char>| #[trigger] m.buckets.contains_spec(nm) ==> m.buckets.get_spec(nm) == (
                        if orig.contains_spec(nm) { orig.get_spec(nm) } else { r.buckets.get_spec(nm) }),
                decreases n - i,
            {
                let (name, entry) = r.buckets.entry(i);
                proof {
                    lemma_unique(r.buckets.entries_spec(), i as int, name@);
                }
                if m.buckets.get(name.as_str()).is_none() {
                    m.buckets.insert(name.clone(), entry.duplicate());
                }
                proof {
                    let es = r.buckets.entries_spec();
                    assert forall|nm: Seq<char>| #[trigger] m.buckets.contains_spec(nm) == (orig.contains_spec(nm)
                        || exists|j: int| 0 <= j < i + 1 && es[j].0@ == nm) by {
                        if nm == name@ {
                            assert(es[i as int].0@ == nm);
                        }
                        if exists|j: int| 0 <= j < i + 1 && es[j].0@ == nm {
                            let j = choose|j: int| 0 <= j < i + 1 && es[j].0@ == nm;
                            if j < i {
                                assert(exists|j: int| 0 <= j < i && es[j].0@ == nm);
                            }
                        }
                    }
                }
                i = i + 1;
            }
            proof {
                let es = r.buckets.entries_spec();
                assert forall|nm: Seq<char>| #[trigger] m.buckets.contains_spec(nm) == (orig.contains_spec(nm)
                    || r.buckets.contains_spec(nm)) by {
                    if r.buckets.contains_spec(nm) {
                        lemma_key_index(es, nm);
                        assert(es[key_index(es, nm)].0@ == nm);
                    }
                    if exists|j: int| 0 <= j < n && es[j].0@ == nm {
                        let j = choose|j: int| 0 <= j < n && es[j].0@ == nm;
                        assert(has_key(es, nm));
                    }
                }
            }
            m
        },
    }
}

} // verus!

verus! {

/// Two strictly ascending name lists with the same members are the same list.
pub proof fn lemma_sorted_unique(v1: Seq<Seq<char>>, v2: Seq<Seq<char>>)
    requires
        strictly_sorted(v1),
        strictly_sorted(v2),
        forall|n: Seq<char>| v1.contains(n) <==> v2.contains(n),
    ensures
        v1 == v2,
    decreases v1.len(),
{
    if v1.len() == 0 {
        if v2.len() > 0 {
            assert(v2.contains(v2[0]));
        }
        assert(v1 =~= v2);
    } else {
        assert(v1.contains(v1[0]));
        assert(v2.len() > 0);
        assert(v2.contains(v2[0]));
        let x1 = v1[0];
        let x2 = v2[0];
        let k2 = choose|k: int| 0 <= k < v2.len() && v2[k] == x1;
        let k1 = choose|k: int| 0 <= k < v1.len() && v1[k] == x2;
        if x1 != x2 {
            assert(k2 > 0);
            assert(k1 > 0);
            assert(lex_lt(v2[0], v2[k2]));
            assert(lex_lt(v1[0], v1[k1]));
            crate::text::lemma_lex_asymmetric(x1, x2);
        }
        let r1 = v1.drop_first();
        let r2 = v2.drop_first();
        assert forall|n: Seq<char>| r1.contains(n) <==> r2.contains(n) by {
            if r1.contains(n) {
                let k = choose|k: int| 0 <= k < r1.len() && r1[k] == n;
                assert(v1[k + 1] == n);
                assert(lex_lt(v1[0], v1[k + 1]));
                crate::text::lemma_lex_irreflexive(n);
                assert(v2.contains(n));
                let j = choose|j: int| 0 <= j < v2.len() && v2[j] == n;
                assert(j != 0);
                assert(r2[j - 1] == n);
            }
            if r2.contains(n) {
                let k = choose|k: int| 0 <= k < r2.len() && r2[k] == n;
                assert(v2[k + 1] == n);
                assert(lex_lt(v2[0], v2[k + 1]));
                crate::text::lemma_lex_irreflexive(n);
                assert(v1.contains(n));
                let j = choose|j: int| 0 <= j < v1.len() && v1[j] == n;
                assert(j != 0);
                assert(r1[j - 1] == n);
            }
        }
        assert forall|i: int, j: int| 0 <= i < j < r1.len() implies lex_lt(#[trigger] r1[i], #[trigger] r1[j]) by {
            assert(r1[i] == v1[i + 1] && r1[j] == v1[j + 1]);
        }
        assert forall|i: int, j: int| 0 <= i < j < r2.len() implies lex_lt(#[trigger] r2[i], #[trigger] r2[j]) by {
            assert(r2[i] == v2[i + 1] && r2[j] == v2[j + 1]);
        }
        lemma_sorted_unique(r1, r2);
        assert(v1 =~= seq![x1] + r1);
        assert(v2 =~= seq![x2] + r2);
    }
}

/// Law: the diff is fully determined by the two manifests — any two name lists that meet
/// [`diff_manifest`]'s contract are equal. In particular what `diff(a, b)` uploads is what
/// `diff(b, a)` downloads.
pub proof fn lemma_diff_determined(v1: Seq<Seq<char>>, v2: Seq<Seq<char>>, a: &BucketMap, b: &BucketMap)
    requires
        differing_names(v1, a, b),
        differing_names(v2, a, b),
    ensures
        v1 == v2,
{
    assert forall|n: Seq<char>| v1.contains(n) <==> v2.contains(n) by {
        assert(v1.contains(n) == differs_from(a, b, n));
        assert(v2.contains(n) == differs_from(a, b, n));
    }
    lemma_sorted_unique(v1, v2);
}

/// Law: a manifest never differs from itself — diffing identical bucket maps uploads and
/// downloads nothing.
pub proof fn lemma_diff_self_empty(v: Seq<Seq<char>>, a: &BucketMap)
    requires
        differing_names(v, a, a),
    ensures
        v.len() == 0,
{
    if v.len() > 0 {
        assert(v.contains(v[0]));
        assert(differs_from(a, a, v[0]));
    }
}

/// Law: after carrying a remote manifest forward, nothing the remote holds is missing
/// locally any more — the remote's only differences are buckets both sides hold.
pub proof fn lemma_preserve_covers_remote(m: &BucketMap, local: &BucketMap, remote: &BucketMap, n: Seq<char>)
    requires
        forall|x: Seq<char>| #[trigger] m.contains_spec(x) == (local.contains_spec(x) || remote.contains_spec(x)),
    ensures
        remote.contains_spec(n) ==> m.contains_spec(n),
{
}

/// One bucket's state as read from the local database: its serialized JSONL, live row
/// count and max HLC.
pub struct BucketSnapshot {
    pub bucket: Bucket,
    pub jsonl: Vec<u8>,
    pub count: u64,
    pub hlc: String,
}

/// The index of the last snapshot of the bucket named `name`.
pub open spec fn last_snapshot(snaps: Seq<BucketSnapshot>, name: Seq<char>) -> Option<int>
    decreases snaps.len(),
{
    if snaps.len() == 0 {
        None
    } else if bucket_name(snaps.last().bucket) == name {
        Some(snaps.len() - 1)
    } else {
        last_snapshot(snaps.drop_last(), name)
    }
}

/// The greatest snapshot HLC (`""` when there is none).
pub open spec fn max_snapshot_hlc(snaps: Seq<BucketSnapshot>) -> Seq<char>
    decreases snaps.len(),
{
    if snaps.len() == 0 {
        Seq::empty()
    } else {
        let m = max_snapshot_hlc(snaps.drop_last());
        if lex_lt(m, snaps.last().hlc@) { snaps.last().hlc@ } else { m }
    }
}

/// The manifest entry a snapshot yields: the blob is addressed by its blake3 hex, and
/// lives under `<bucket>-<hash>.jsonl.gz` relative to the vault.
pub open spec fn entry_of(e: BucketEntry, s: BucketSnapshot) -> bool {
    &&& e.blob_hash@ == blake3_hex(s.jsonl@)
    &&& e.object_key@ == bucket_name(s.bucket) + "-"@ + blake3_hex(s.jsonl@) + ".jsonl.gz"@
    &&& e.count == s.count
    &&& e.hlc@ == s.hlc@
}

/// Build this device's manifest from the snapshots of the buckets it syncs.
pub fn compute_local_manifest(device_id: &str, snaps: Vec<BucketSnapshot>) -> (m: Manifest)
    ensures
        m.format_version == MANIFEST_FORMAT_VERSION,
        m.last_writer_device@ == device_id@,
        m.manifest_hlc@ == max_snapshot_hlc(snaps@),
        forall|n: Seq<char>| #[trigger] m.buckets.contains_spec(n) == last_snapshot(snaps@, n).is_some(),
        forall|n: Seq<char>| m.buckets.contains_spec(n) ==>
            entry_of(#[trigger] m.buckets.get_spec(n), snaps@[last_snapshot(snaps@, n).unwrap()]),
{
    let mut map = BucketMap::new();
    let mut manifest_hlc = String::new();
    let mut i: usize = 0;
    while i < snaps.len()
        invariant
            i <= snaps@.len(),
            manifest_hlc@ == max_snapshot_hlc(snaps@.subrange(0, i as int)),
            forall|n: Seq<char>| #[trigger] map.contains_spec(n) == last_snapshot(snaps@.subrange(0, i as int), n).is_some(),
            forall|n: Seq<char>| map.contains_spec(n) ==>
                entry_of(#[trigger] map.get_spec(n), snaps@[last_snapshot(snaps@.subrange(0, i as int), n).unwrap()]),
        decreases snaps@.len() - i,
    {
        let ghost pre = snaps@.subrange(0, i as int);
        let ghost cur = snaps@.subrange(0, i + 1);
        assert(cur.drop_last() =~= pre);
        assert(cur.last() == snaps@[i as int]);
        let s = &snaps[i];
        let name = s.bucket.as_str();
        let blob_hash = bucket_hash(s.jsonl.as_slice());
        let mut object_key = name.clone();
        push_str(&mut object_key, "-");
        push_str(&mut object_key, blob_hash.as_str());
        push_str(&mut object_key, ".jsonl.gz");
        if str_lt(manifest_hlc.as_str(), s.hlc.as_str()) {
            manifest_hlc = s.hlc.clone();
        }
        let entry = BucketEntry { blob_hash, object_key, count: s.count, hlc: s.hlc.clone() };
        assert(entry_of(entry, snaps@[i as int]));
        map.insert(name, entry);
        proof {
            assert forall|n: Seq<char>| map.contains_spec(n) implies
                entry_of(#[trigger] map.get_spec(n), snaps@[last_snapshot(cur, n).unwrap()]) by {
            }
        }
        i = i + 1;
    }
    assert(snaps@.subrange(0, snaps@.len() as int) =~= snaps@);
    Manifest {
        format_version: MANIFEST_FORMAT_VERSION,
        last_writer_device: to_owned_string(device_id),
        manifest_hlc,
        buckets: map,
    }
}

/// The vault keys of the prior blobs that uploading `names` supersedes: a bucket whose
/// remote entry lives under a different object key than its new local entry.
pub open spec fn superseded_keys(names: Seq<Seq<char>>, local: Manifest, remote: Manifest, uid: Seq<char>) -> Seq<Seq<char>>
    decreases names.len(),
{
    if names.len() == 0 {
        Seq::empty()
    } else {
        let rest = superseded_keys(names.drop_last(), local, remote, uid);
        let n = names.last();
        if remote.buckets.contains_spec(n) && local.buckets.contains_spec(n)
            && remote.buckets.get_spec(n).object_key@ != local.buckets.get_spec(n).object_key@ {
            rest.push("users/"@ + uid + "/vault/"@ + remote.buckets.get_spec(n).object_key@)
        } else {
            rest
        }
    }
}

/// The full storage keys of the blobs to enqueue for garbage collection after
/// uploading `to_upload` over `remote` (none when there is no remote manifest yet).
pub fn superseded_blobs(local: &Manifest, remote: Option<&Manifest>, uid: &str, to_upload: &Vec<String>) -> (keys: Vec<String>)
    ensures
        names_of(keys@) == match remote {
            Some(r) => superseded_keys(names_of(to_upload@), *local, *r, uid@),
            None => Seq::<Seq<char>>::empty(),
        },
{
    let mut keys: Vec<String> = Vec::new();
    let r = match remote {
        Some(r) => r,
        None => {
            assert(names_of(keys@) =~= Seq::<Seq<char>>::empty());
            return keys;
        },
    };
    let mut i: usize = 0;
    while i < to_upload.len()
        invariant
            i <= to_upload@.len(),
            names_of(keys@) == superseded_keys(names_of(to_upload@.subrange(0, i as int)), *local, *r, uid@),
        decreases to_upload@.len() - i,
    {
        let ghost pre = names_of(to_upload@.subrange(0, i as int));
        let ghost cur = names_of(to_upload@.subrange(0, i + 1));
        assert(cur.drop_last() =~= pre);
        assert(cur.last() == to_upload@[i as int]@);
        let name = to_upload[i].as_str();
        match (r.bucket(name), local.bucket(name)) {
            (Some(prev), Some(now)) => {
                if !str_eq(prev.object_key.as_str(), now.object_key.as_str()) {
                    let mut k = to_owned_string("users/");
                    push_str(&mut k, uid);
                    push_str(&mut k, "/vault/");
                    push_str(&mut k, prev.object_key.as_str());
                    let ghost before = keys@;
                    keys.push(k);
                    assert(names_of(keys@) =~= names_of(before).push(k@));
                }
            },
            _ => {},
        }
        i = i + 1;
    }
    assert(to_upload@.subrange(0, to_upload@.len() as int) =~= to_upload@);
    keys
}

} // verus!
