//! Association lists keyed by text, kept in strictly ascending key order: the shape
//! a `BTreeMap<String, V>` iterates in.
use vstd::prelude::*;
use crate::text::{lex_lt, str_eq, str_lt};

verus! {

/// Strictly increasing keys.
pub open spec fn keys_sorted<V>(es: Seq<(String, V)>) -> bool {
    forall|i: int, j: int| 0 <= i < j < es.len() ==> lex_lt(#[trigger] es[i].0@, #[trigger] es[j].0@)
}

/// Whether `k` names an entry.
pub open spec fn has_key<V>(es: Seq<(String, V)>, k: Seq<char>) -> bool {
    exists|i: int| 0 <= i < es.len() && (#[trigger] es[i]).0@ == k
}

/// An index of the entry named `k` (meaningful when [`has_key`]).
pub open spec fn key_index<V>(es: Seq<(String, V)>, k: Seq<char>) -> int {
    choose|i: int| 0 <= i < es.len() && (#[trigger] es[i]).0@ == k
}

/// The entry named `k` (meaningful when [`has_key`]).
pub open spec fn entry_at<V>(es: Seq<(String, V)>, k: Seq<char>) -> V {
    es[key_index(es, k)].1
}

/// In a sorted entry list the entry named `k` sits at exactly one index.
pub proof fn lemma_unique<V>(es: Seq<(String, V)>, i: int, k: Seq<char>)
    requires
        keys_sorted(es),
        0 <= i < es.len(),
        es[i].0@ == k,
    ensures
        has_key(es, k),
        entry_at(es, k) == es[i].1,
{
    assert(has_key(es, k));
    lemma_key_index(es, k);
    let j = key_index(es, k);
    if j != i {
        crate::text::lemma_lex_irreflexive(k);
        if j < i {
            assert(lex_lt(es[j].0@, es[i].0@));
        } else {
            assert(lex_lt(es[i].0@, es[j].0@));
        }
    }
}

pub proof fn lemma_key_index<V>(es: Seq<(String, V)>, k: Seq<char>)
    requires
        has_key(es, k),
    ensures
        0 <= key_index(es, k) < es.len(),
        es[key_index(es, k)].0@ == k,
{
}

/// Insert or replace `k` in a sorted entry list.
pub fn insert_sorted<V>(vec: &mut Vec<(String, V)>, k: String, v: V) -> (r: (bool, Option<V>))
    requires
        keys_sorted(old(vec)@),
    ensures
        keys_sorted(final(vec)@),
        forall|n: Seq<char>| #[trigger] has_key(final(vec)@, n) == (has_key(old(vec)@, n) || n == k@),
        has_key(final(vec)@, k@) && entry_at(final(vec)@, k@) == v,
        forall|n: Seq<char>| n != k@ && has_key(old(vec)@, n) ==> #[trigger] entry_at(final(vec)@, n) == entry_at(old(vec)@, n),
        match r.1 {
            Some(e) => has_key(old(vec)@, k@) && e == entry_at(old(vec)@, k@),
            None => !has_key(old(vec)@, k@),
        },
{
    let ghost es = vec@;
    let mut i: usize = 0;
    let mut scanning = true;
    while scanning && i < vec.len()
        invariant
            es == vec@,
            keys_sorted(es),
            i <= es.len(),
            forall|j: int| 0 <= j < i ==> lex_lt(#[trigger] es[j].0@, k@),
            !scanning ==> i < es.len() && !lex_lt(es[i as int].0@, k@),
        decreases es.len() - i + (if scanning { 1int } else { 0int }),
    {
        if str_lt(vec[i].0.as_str(), k.as_str()) {
            i = i + 1;
        } else {
            scanning = false;
        }
    }
    if i < vec.len() && str_eq(vec[i].0.as_str(), k.as_str()) {
        proof {
            lemma_unique(es, i as int, k@);
        }
        let (_, old_entry) = vec.remove(i);
        vec.insert(i, (k, v));
        proof {
            let ns = vec@;
            assert forall|a: int, b: int| 0 <= a < b < ns.len() implies lex_lt(#[trigger] ns[a].0@, #[trigger] ns[b].0@) by {
                assert(ns[a].0@ == es[a].0@);
                assert(ns[b].0@ == es[b].0@);
            }
            lemma_unique(ns, i as int, k@);
            assert forall|n: Seq<char>| #[trigger] has_key(ns, n) == (has_key(es, n) || n == k@) by {
                if has_key(es, n) {
                    lemma_key_index(es, n);
                    assert(ns[key_index(es, n)].0@ == n);
                }
                if has_key(ns, n) {
                    lemma_key_index(ns, n);
                    assert(es[key_index(ns, n)].0@ == n);
                }
            }
            assert forall|n: Seq<char>| n != k@ && has_key(es, n) implies #[trigger] entry_at(ns, n) == entry_at(es, n) by {
                lemma_key_index(es, n);
                let j = key_index(es, n);
                lemma_unique(es, j, n);
                assert(j != i);
                assert(ns[j] == es[j]);
                lemma_unique(ns, j, n);
            }
        }
        (false, Some(old_entry))
    } else {
        proof {
            assert(!has_key(es, k@)) by {
                if has_key(es, k@) {
                    lemma_key_index(es, k@);
                    let j = key_index(es, k@);
                    crate::text::lemma_lex_irreflexive(k@);
                    if j >= i {
                        if j > i {
                            assert(lex_lt(es[i as int].0@, es[j].0@));
                        }
                        crate::text::lemma_lex_total(es[i as int].0@, k@);
                        crate::text::lemma_lex_asymmetric(es[i as int].0@, k@);
                    }
                }
            }
        }
        vec.insert(i, (k, v));
        proof {
            let ns = vec@;
            if i < es.len() {
                crate::text::lemma_lex_total(es[i as int].0@, k@);
            }
            assert forall|a: int, b: int| 0 <= a < b < ns.len() implies lex_lt(#[trigger] ns[a].0@, #[trigger] ns[b].0@) by {
                if a < i && b == i {
                } else if a == i && b > i {
                    assert(ns[b] == es[b - 1]);
                    if b - 1 > i {
                        crate::text::lemma_lex_transitive(k@, es[i as int].0@, es[b - 1].0@);
                    }
                } else if a < i && b > i {
                    assert(ns[b] == es[b - 1]);
                } else if a > i {
                    assert(ns[a] == es[a - 1]);
                    assert(ns[b] == es[b - 1]);
                }
            }
            assert(ns[i as int].0@ == k@);
            lemma_unique(ns, i as int, k@);
            assert forall|n: Seq<char>| #[trigger] has_key(ns, n) == (has_key(es, n) || n == k@) by {
                if has_key(es, n) {
                    lemma_key_index(es, n);
                    let j = key_index(es, n);
                    if j < i {
                        assert(ns[j].0@ == n);
                    } else {
                        assert(ns[j + 1].0@ == n);
                    }
                }
                if has_key(ns, n) && n != k@ {
                    lemma_key_index(ns, n);
                    let j = key_index(ns, n);
                    if j < i {
                        assert(es[j].0@ == n);
                    } else {
                        assert(es[j - 1].0@ == n);
                    }
                }
            }
            assert forall|n: Seq<char>| n != k@ && has_key(es, n) implies #[trigger] entry_at(ns, n) == entry_at(es, n) by {
                lemma_key_index(es, n);
                let j = key_index(es, n);
                lemma_unique(es, j, n);
                if j < i {
                    assert(ns[j] == es[j]);
                    lemma_unique(ns, j, n);
                } else {
                    assert(ns[j + 1] == es[j]);
                    lemma_unique(ns, j + 1, n);
                }
            }
        }
        (true, None)
    }
}

} // verus!
