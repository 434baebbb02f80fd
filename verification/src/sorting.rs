//! Stable sorting by an integer key, as a specification: insertion that puts
//! each item after every earlier one whose key is not greater.
use vstd::prelude::*;

verus! {

/// Where an item with key `k` goes in a list sorted by `key`: after every
/// item whose key is at most `k`.
pub open spec fn key_insert_pos<T>(s: Seq<T>, key: spec_fn(T) -> u64, k: u64) -> int
    decreases s.len(),
{
    if s.len() == 0 {
        0
    } else if key(s[0]) > k {
        0
    } else {
        1 + key_insert_pos(s.drop_first(), key, k)
    }
}

/// The items sorted by `key`, items with equal keys kept in their order (a
/// stable sort).
pub open spec fn stable_sort<T>(s: Seq<T>, key: spec_fn(T) -> u64) -> Seq<T>
    decreases s.len(),
{
    if s.len() == 0 {
        Seq::empty()
    } else {
        let sorted = stable_sort(s.drop_last(), key);
        sorted.insert(key_insert_pos(sorted, key, key(s.last())), s.last())
    }
}

/// The keys never decrease along `s`.
pub open spec fn sorted_by<T>(s: Seq<T>, key: spec_fn(T) -> u64) -> bool {
    forall|i: int, j: int| 0 <= i < j < s.len() ==> key(#[trigger] s[i]) <= key(#[trigger] s[j])
}

pub proof fn lemma_key_insert_pos_bounds<T>(s: Seq<T>, key: spec_fn(T) -> u64, k: u64)
    ensures
        0 <= key_insert_pos(s, key, k) <= s.len(),
    decreases s.len(),
{
    if s.len() > 0 {
        lemma_key_insert_pos_bounds(s.drop_first(), key, k);
    }
}

/// Every item before the insertion place has a key at most `k`, and, where
/// the list is sorted, every one from it on a greater key.
proof fn lemma_key_insert_pos_split<T>(s: Seq<T>, key: spec_fn(T) -> u64, k: u64)
    requires
        sorted_by(s, key),
    ensures
        forall|i: int| 0 <= i < key_insert_pos(s, key, k) ==> key(#[trigger] s[i]) <= k,
        forall|i: int| key_insert_pos(s, key, k) <= i < s.len() ==> key(#[trigger] s[i]) > k,
    decreases s.len(),
{
    lemma_key_insert_pos_bounds(s, key, k);
    if s.len() > 0 {
        let t = s.drop_first();
        assert(sorted_by(t, key)) by {
            assert forall|i: int, j: int| 0 <= i < j < t.len() implies key(#[trigger] t[i]) <= key(#[trigger] t[j]) by {
                assert(t[i] == s[i + 1]);
                assert(t[j] == s[j + 1]);
            }
        }
        lemma_key_insert_pos_split(t, key, k);
        lemma_key_insert_pos_bounds(t, key, k);
        if key(s[0]) > k {
            assert forall|i: int| 0 <= i < s.len() implies key(#[trigger] s[i]) > k by {
                if i > 0 {
                    assert(key(s[0]) <= key(s[i]));
                }
            }
        } else {
            assert forall|i: int| 0 <= i < key_insert_pos(s, key, k) implies key(#[trigger] s[i]) <= k by {
                if i > 0 {
                    assert(s[i] == t[i - 1]);
                }
            }
            assert forall|i: int| key_insert_pos(s, key, k) <= i < s.len() implies key(#[trigger] s[i]) > k by {
                assert(s[i] == t[i - 1]);
            }
        }
    }
}

/// A stably sorted list is in order: its keys never decrease, and it is as
/// long as the list sorted.
pub proof fn lemma_stable_sort_sorted<T>(s: Seq<T>, key: spec_fn(T) -> u64)
    ensures
        stable_sort(s, key).len() == s.len(),
        sorted_by(stable_sort(s, key), key),
    decreases s.len(),
{
    if s.len() > 0 {
        let prev = stable_sort(s.drop_last(), key);
        lemma_stable_sort_sorted(s.drop_last(), key);
        let k = key(s.last());
        lemma_key_insert_pos_bounds(prev, key, k);
        lemma_key_insert_pos_split(prev, key, k);
        let p = key_insert_pos(prev, key, k);
        let r = prev.insert(p, s.last());
        assert(r == stable_sort(s, key));
        assert forall|i: int, j: int| 0 <= i < j < r.len() implies key(#[trigger] r[i]) <= key(#[trigger] r[j]) by {
            if j < p {
                assert(r[i] == prev[i]);
                assert(r[j] == prev[j]);
            } else if i < p && j == p {
                assert(r[i] == prev[i]);
            } else if i < p {
                assert(r[i] == prev[i]);
                assert(r[j] == prev[j - 1]);
            } else if i == p {
                assert(r[j] == prev[j - 1]);
            } else {
                assert(r[i] == prev[i - 1]);
                assert(r[j] == prev[j - 1]);
            }
        }
    }
}

/// Sorting only reorders: the sorted list holds the same items, each as
/// often.
pub proof fn lemma_stable_sort_permutes<T>(s: Seq<T>, key: spec_fn(T) -> u64)
    ensures
        stable_sort(s, key).to_multiset() == s.to_multiset(),
    decreases s.len(),
{
    broadcast use vstd::seq_lib::group_seq_properties;
    broadcast use vstd::multiset::group_multiset_axioms;

    if s.len() > 0 {
        let prev = stable_sort(s.drop_last(), key);
        lemma_stable_sort_permutes(s.drop_last(), key);
        let x = s.last();
        lemma_key_insert_pos_bounds(prev, key, key(x));
        let p = key_insert_pos(prev, key, key(x));
        let r = prev.insert(p, x);
        assert(r.remove(p) =~= prev);
        assert(r[p] == x);
        assert(r.remove(p).to_multiset() =~= r.to_multiset().remove(x));
        assert(s.drop_last().push(x) =~= s);
        assert(s.to_multiset() =~= s.drop_last().to_multiset().insert(x));
        assert(r.to_multiset().count(x) > 0) by {
            assert(r.contains(x));
        }
        assert(r.to_multiset() =~= r.to_multiset().remove(x).insert(x));
    }
}

} // verus!
