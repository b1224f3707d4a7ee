//! Composite identities of junction rows.
use vstd::prelude::*;
use vstd::string::*;
use crate::text::{push_str, to_owned_string};
use crate::buckets::{bucket_for_track_id, shard_char};
use crate::manifest::{names_of, strictly_sorted};
use crate::status::merged_bucket_names;

verus! {

/// Canonical composite-key identity for a junction row: the two ids joined by `|` in
/// fixed PK-declaration column order.
pub open spec fn junction_id_spec(a: Seq<char>, b: Seq<char>) -> Seq<char> {
    a + seq!['|'] + b
}

/// Canonical composite-key identity for a junction row (`a|b`).
pub fn junction_entity_id(a: &str, b: &str) -> (s: String)
    ensures
        s@ == junction_id_spec(a@, b@),
{
    let mut s = to_owned_string(a);
    crate::text::push_char(&mut s, '|');
    push_str(&mut s, b);
    s
}

/// The index of the first `c` in `s`, if any.
pub open spec fn first_index_of(s: Seq<char>, c: char) -> Option<int> {
    if s.contains(c) {
        Some(choose|i: int| 0 <= i < s.len() && s[i] == c && forall|j: int| 0 <= j < i ==> s[j] != c)
    } else {
        None
    }
}

/// What `s.split_once('|')` yields: the text before the first `|` and the text after it.
pub open spec fn split_junction_spec(s: Seq<char>) -> Option<(Seq<char>, Seq<char>)> {
    match first_index_of(s, '|') {
        Some(i) => Some((s.subrange(0, i), s.subrange(i + 1, s.len() as int))),
        None => None,
    }
}

/// Split a [`junction_entity_id`] back into its two parts at the first `|`.
pub fn split_junction_id(s: &str) -> (r: Option<(&str, &str)>)
    ensures
        match r {
            Some((a, b)) => split_junction_spec(s@) == Some((a@, b@)),
            None => split_junction_spec(s@) is None,
        },
{
    let n = s.unicode_len();
    let mut i: usize = 0;
    while i < n
        invariant
            n == s@.len(),
            i <= n,
            forall|j: int| 0 <= j < i ==> s@[j] != '|',
        decreases n - i,
    {
        if s.get_char(i) == '|' {
            let a = s.substring_char(0, i);
            let b = s.substring_char(i + 1, n);
            proof {
                assert(s@.contains('|'));
                let k = choose|k: int| 0 <= k < s@.len() && s@[k] == '|' && forall|j: int| 0 <= j < k ==> s@[j] != '|';
                if k < i {
                } else if k > i {
                    assert(s@[i as int] == '|');
                }
            }
            return Some((a, b));
        }
        i = i + 1;
    }
    proof {
        if s@.contains('|') {
            let k = choose|k: int| 0 <= k < s@.len() && s@[k] == '|';
        }
    }
    None
}

/// Law: splitting a junction id whose first part has no `|` gives back both parts.
pub proof fn lemma_junction_id_roundtrip(a: Seq<char>, b: Seq<char>)
    requires
        !a.contains('|'),
    ensures
        split_junction_spec(junction_id_spec(a, b)) == Some((a, b)),
{
    let s = junction_id_spec(a, b);
    assert(s[a.len() as int] == '|');
    assert(s.contains('|'));
    let k = choose|k: int| 0 <= k < s.len() && s[k] == '|' && forall|j: int| 0 <= j < k ==> s[j] != '|';
    assert forall|j: int| 0 <= j < a.len() implies s[j] != '|' by {
        assert(s[j] == a[j]);
        if a[j] == '|' {
            assert(a.contains('|'));
        }
    }
    assert(exists|k: int| 0 <= k < s.len() && s[k] == '|' && forall|j: int| 0 <= j < k ==> s[j] != '|') by {
        assert(forall|j: int| 0 <= j < a.len() ==> s[j] != '|');
    }
    if k < a.len() {
        assert(s[k] == a[k]);
    } else if k > a.len() {
        assert(s[a.len() as int] == '|');
    }
    assert(s.subrange(0, a.len() as int) =~= a);
    assert(s.subrange(a.len() as int + 1, s.len() as int) =~= b);
}

/// The distinct track-shard buckets touched by `track_ids`, in ascending name order
/// (each is marked dirty once).
pub fn dirty_track_shards(track_ids: &Vec<String>) -> (shards: Vec<String>)
    ensures
        strictly_sorted(names_of(shards@)),
        forall|n: Seq<char>| #[trigger] names_of(shards@).contains(n) <==>
            exists|i: int| 0 <= i < track_ids@.len() && n == "tracks/"@ + seq![shard_char(track_ids@[i]@)],
{
    let mut names: Vec<String> = Vec::new();
    let mut i: usize = 0;
    while i < track_ids.len()
        invariant
            i <= track_ids@.len(),
            names@.len() == i,
            forall|k: int| 0 <= k < i ==> (#[trigger] names@[k])@ == "tracks/"@ + seq![shard_char(track_ids@[k]@)],
        decreases track_ids@.len() - i,
    {
        names.push(bucket_for_track_id(track_ids[i].as_str()));
        i = i + 1;
    }
    let shards = merged_bucket_names(&names);
    proof {
        assert forall|n: Seq<char>| #[trigger] names_of(shards@).contains(n) <==>
            exists|i: int| 0 <= i < track_ids@.len() && n == "tracks/"@ + seq![shard_char(track_ids@[i]@)] by {
            if names_of(names@).contains(n) {
                let k = choose|k: int| 0 <= k < names_of(names@).len() && names_of(names@)[k] == n;
                assert(names@[k]@ == n);
            }
            if exists|i: int| 0 <= i < track_ids@.len() && n == "tracks/"@ + seq![shard_char(track_ids@[i]@)] {
                let i = choose|i: int| 0 <= i < track_ids@.len() && n == "tracks/"@ + seq![shard_char(track_ids@[i]@)];
                assert(names_of(names@)[i] == n);
            }
        }
    }
    shards
}

} // verus!
