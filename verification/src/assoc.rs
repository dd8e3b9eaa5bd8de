//! Association sequences: the spec-level view of the vector-backed key-value
//! stores that the contracts keep their records in. A store is a sequence of
//! key-value pairs with pairwise-distinct keys; `assoc_lookup` is its reading
//! as a partial map.

use vstd::prelude::*;

verus! {

/// The value stored under `k`, or `None` when no pair carries `k`.
pub open spec fn assoc_lookup<K, V>(s: Seq<(K, V)>, k: K) -> Option<V>
    decreases s.len(),
{
    if s.len() == 0 {
        None
    } else if s.last().0 == k {
        Some(s.last().1)
    } else {
        assoc_lookup(s.drop_last(), k)
    }
}

/// No two pairs carry the same key.
pub open spec fn assoc_unique<K, V>(s: Seq<(K, V)>) -> bool {
    forall|i: int, j: int|
        0 <= i < j < s.len() ==> (#[trigger] s[i]).0 != (#[trigger] s[j]).0
}

/// In a store with distinct keys, the pair at index `i` is what lookup of its
/// key finds.
pub proof fn lemma_assoc_lookup_index<K, V>(s: Seq<(K, V)>, i: int)
    requires
        assoc_unique(s),
        0 <= i < s.len(),
    ensures
        assoc_lookup(s, s[i].0) == Some(s[i].1),
    decreases s.len(),
{
    if i == s.len() - 1 {
    } else {
        assert(s.last().0 != s[i].0);
        assert(s.drop_last()[i] == s[i]);
        lemma_assoc_lookup_index(s.drop_last(), i);
    }
}

/// A key carried by no pair looks up to `None`.
pub proof fn lemma_assoc_lookup_none<K, V>(s: Seq<(K, V)>, k: K)
    requires
        forall|i: int| 0 <= i < s.len() ==> (#[trigger] s[i]).0 != k,
    ensures
        assoc_lookup(s, k) == None::<V>,
    decreases s.len(),
{
    if s.len() > 0 {
        lemma_assoc_lookup_none(s.drop_last(), k);
    }
}

/// A successful lookup names a pair in the store.
pub proof fn lemma_assoc_lookup_some_index<K, V>(s: Seq<(K, V)>, k: K)
    requires
        assoc_lookup(s, k) is Some,
    ensures
        exists|i: int|
            0 <= i < s.len() && (#[trigger] s[i]).0 == k && s[i].1 == assoc_lookup(
                s,
                k,
            )->Some_0,
    decreases s.len(),
{
    if s.last().0 == k {
        assert(s[s.len() - 1].0 == k);
    } else {
        lemma_assoc_lookup_some_index(s.drop_last(), k);
        let i = choose|i: int|
            0 <= i < s.drop_last().len() && (#[trigger] s.drop_last()[i]).0 == k
                && s.drop_last()[i].1 == assoc_lookup(s.drop_last(), k)->Some_0;
        assert(s[i] == s.drop_last()[i]);
    }
}

/// Overwriting the value at index `i` updates the key's binding and nothing
/// else.
pub proof fn lemma_assoc_update<K, V>(s: Seq<(K, V)>, i: int, v: V)
    requires
        assoc_unique(s),
        0 <= i < s.len(),
    ensures
        assoc_unique(s.update(i, (s[i].0, v))),
        assoc_lookup(s.update(i, (s[i].0, v)), s[i].0) == Some(v),
        forall|k: K|
            k != s[i].0 ==> #[trigger] assoc_lookup(s.update(i, (s[i].0, v)), k)
                == assoc_lookup(s, k),
    decreases s.len(),
{
    let s2 = s.update(i, (s[i].0, v));
    assert(forall|j: int| 0 <= j < s.len() && j != i ==> s2[j] == s[j]);
    if i == s.len() - 1 {
        assert(s2.last() == (s[i].0, v));
        assert(s2.drop_last() =~= s.drop_last());
        assert forall|k: K| k != s[i].0 implies #[trigger] assoc_lookup(s2, k)
            == assoc_lookup(s, k) by {
            assert(assoc_lookup(s2, k) == assoc_lookup(s2.drop_last(), k));
        }
    } else {
        assert(s2.last() == s.last());
        assert(s2.drop_last() =~= s.drop_last().update(i, (s[i].0, v)));
        assert(s.drop_last()[i] == s[i]);
        lemma_assoc_update(s.drop_last(), i, v);
        assert(s.last().0 != s[i].0);
        assert forall|k: K| k != s[i].0 implies #[trigger] assoc_lookup(s2, k)
            == assoc_lookup(s, k) by {
            if s.last().0 != k {
                assert(assoc_lookup(s2, k) == assoc_lookup(s2.drop_last(), k));
                assert(assoc_lookup(s2.drop_last(), k) == assoc_lookup(s.drop_last(), k));
            }
        }
    }
}

/// Appending a pair under a fresh key adds that binding and nothing else.
pub proof fn lemma_assoc_push<K, V>(s: Seq<(K, V)>, k: K, v: V)
    requires
        assoc_unique(s),
        assoc_lookup(s, k) == None::<V>,
    ensures
        assoc_unique(s.push((k, v))),
        assoc_lookup(s.push((k, v)), k) == Some(v),
        forall|k2: K|
            k2 != k ==> #[trigger] assoc_lookup(s.push((k, v)), k2) == assoc_lookup(s, k2),
{
    let s2 = s.push((k, v));
    assert(s2.drop_last() =~= s);
    assert(s2.last() == (k, v));
    assert forall|i: int| 0 <= i < s.len() implies (#[trigger] s[i]).0 != k by {
        if s[i].0 == k {
            lemma_assoc_lookup_index(s, i);
        }
    }
    assert(forall|i: int| 0 <= i < s2.len() - 1 ==> s2[i] == s[i]);
}

} // verus!
