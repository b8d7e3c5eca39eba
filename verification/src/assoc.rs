//! Association lists with unique keys, viewed as mathematical maps.
//!
//! The registries of the input manager are stored as vectors of key/value
//! pairs; `assoc_map` is their meaning as a `Map`, and the lemmas here relate
//! the list operations (lookup, in-place update, push) to map operations.

use vstd::prelude::*;

verus! {

/// The map an association list stands for; a later entry wins over an
/// earlier one with the same key.
pub open spec fn assoc_map<K, V>(s: Seq<(K, V)>) -> Map<K, V>
    decreases s.len(),
{
    if s.len() == 0 {
        Map::empty()
    } else {
        assoc_map(s.drop_last()).insert(s.last().0, s.last().1)
    }
}

/// No two entries share a key.
pub open spec fn keys_unique<K, V>(s: Seq<(K, V)>) -> bool {
    forall|i: int, j: int| 0 <= i < j < s.len() ==> (#[trigger] s[i]).0 != (#[trigger] s[j]).0
}

/// A key is in the map exactly when some entry holds it.
pub proof fn lemma_assoc_contains<K, V>(s: Seq<(K, V)>, k: K)
    ensures
        assoc_map(s).contains_key(k) <==> exists|i: int| 0 <= i < s.len() && (#[trigger] s[i]).0 == k,
    decreases s.len(),
{
    if s.len() > 0 {
        lemma_assoc_contains(s.drop_last(), k);
        if s.last().0 == k {
            assert(s[s.len() - 1].0 == k);
        } else if assoc_map(s).contains_key(k) {
            let i = choose|i: int| 0 <= i < s.drop_last().len() && (#[trigger] s.drop_last()[i]).0 == k;
            assert(s[i].0 == k);
        } else if exists|i: int| 0 <= i < s.len() && (#[trigger] s[i]).0 == k {
            let i = choose|i: int| 0 <= i < s.len() && (#[trigger] s[i]).0 == k;
            assert(s.drop_last()[i].0 == k);
        }
    }
}

/// With unique keys, the entry at index `i` gives the map's value at its key.
pub proof fn lemma_assoc_index<K, V>(s: Seq<(K, V)>, i: int)
    requires
        keys_unique(s),
        0 <= i < s.len(),
    ensures
        assoc_map(s).contains_key(s[i].0),
        assoc_map(s)[s[i].0] == s[i].1,
    decreases s.len(),
{
    if i == s.len() - 1 {
    } else {
        assert(keys_unique(s.drop_last())) by {
            assert(forall|p: int, q: int|
                0 <= p < q < s.drop_last().len() ==> (#[trigger] s.drop_last()[p]).0
                    != (#[trigger] s.drop_last()[q]).0) by {
                assert(forall|p: int| 0 <= p < s.drop_last().len() ==> #[trigger] s.drop_last()[p] == s[p]);
            }
        }
        lemma_assoc_index(s.drop_last(), i);
        assert(s[i].0 != s.last().0);
    }
}

/// Replacing the value at index `i` (keeping its key) is a map `insert` at
/// that key, and keeps the keys unique.
pub proof fn lemma_assoc_update<K, V>(s: Seq<(K, V)>, i: int, v: V)
    requires
        keys_unique(s),
        0 <= i < s.len(),
    ensures
        keys_unique(s.update(i, (s[i].0, v))),
        assoc_map(s.update(i, (s[i].0, v))) == assoc_map(s).insert(s[i].0, v),
    decreases s.len(),
{
    let k = s[i].0;
    let t = s.update(i, (k, v));
    assert(keys_unique(t)) by {
        assert(forall|p: int| 0 <= p < t.len() ==> (#[trigger] t[p]).0 == s[p].0);
    }
    if i == s.len() - 1 {
        assert(t.drop_last() =~= s.drop_last());
        assert(assoc_map(t) == assoc_map(s.drop_last()).insert(k, v));
        assert(assoc_map(s).insert(k, v) =~= assoc_map(s.drop_last()).insert(k, v));
    } else {
        assert(keys_unique(s.drop_last())) by {
            assert(forall|p: int| 0 <= p < s.drop_last().len() ==> #[trigger] s.drop_last()[p] == s[p]);
        }
        assert(t.drop_last() =~= s.drop_last().update(i, (k, v)));
        lemma_assoc_update(s.drop_last(), i, v);
        assert(t.last() == s.last());
        assert(k != s.last().0);
        assert(assoc_map(t) == assoc_map(s.drop_last()).insert(k, v).insert(s.last().0, s.last().1));
        assert(assoc_map(s.drop_last()).insert(k, v).insert(s.last().0, s.last().1)
            =~= assoc_map(s.drop_last()).insert(s.last().0, s.last().1).insert(k, v));
    }
}

/// Appending an entry is a map `insert`; with a fresh key it also keeps the
/// keys unique.
pub proof fn lemma_assoc_push<K, V>(s: Seq<(K, V)>, k: K, v: V)
    ensures
        assoc_map(s.push((k, v))) == assoc_map(s).insert(k, v),
        keys_unique(s) && (forall|i: int| 0 <= i < s.len() ==> (#[trigger] s[i]).0 != k)
            ==> keys_unique(s.push((k, v))),
{
    let t = s.push((k, v));
    assert(t.drop_last() =~= s);
    assert(t.last() == (k, v));
    if keys_unique(s) && (forall|i: int| 0 <= i < s.len() ==> (#[trigger] s[i]).0 != k) {
        assert(keys_unique(t)) by {
            assert(forall|i: int| 0 <= i < s.len() ==> #[trigger] t[i] == s[i]);
            assert(t[t.len() - 1] == (k, v));
        }
    }
}

/// Two lists with the same keys in the same order stand for maps with the
/// same domain, and each entry gives its list's value at that key.
pub proof fn lemma_assoc_same_keys<K, V, W>(s1: Seq<(K, V)>, s2: Seq<(K, W)>)
    requires
        keys_unique(s1),
        s2.len() == s1.len(),
        forall|i: int| 0 <= i < s1.len() ==> (#[trigger] s2[i]).0 == (#[trigger] s1[i]).0,
    ensures
        keys_unique(s2),
        assoc_map(s2).dom() == assoc_map(s1).dom(),
        forall|i: int|
            0 <= i < s1.len() ==> assoc_map(s1)[(#[trigger] s1[i]).0] == s1[i].1
                && assoc_map(s2)[s1[i].0] == s2[i].1,
        forall|k: K|
            #[trigger] assoc_map(s1).contains_key(k) ==> exists|i: int|
                0 <= i < s1.len() && (#[trigger] s1[i]).0 == k,
{
    assert(keys_unique(s2)) by {
        assert forall|p: int, q: int|
            0 <= p < q < s2.len() implies (#[trigger] s2[p]).0 != (#[trigger] s2[q]).0 by {
            assert(s2[p].0 == s1[p].0);
            assert(s2[q].0 == s1[q].0);
            assert(s1[p].0 != s1[q].0);
        }
    }
    assert forall|i: int| 0 <= i < s1.len() implies assoc_map(s1)[(#[trigger] s1[i]).0] == s1[i].1
        && assoc_map(s2)[s1[i].0] == s2[i].1 by {
        lemma_assoc_index(s1, i);
        lemma_assoc_index(s2, i);
        assert(s2[i].0 == s1[i].0);
    }
    assert forall|k: K|
        assoc_map(s2).contains_key(k) <==> #[trigger] assoc_map(s1).contains_key(k) by {
        lemma_assoc_contains(s1, k);
        lemma_assoc_contains(s2, k);
        if assoc_map(s1).contains_key(k) {
            let i = choose|i: int| 0 <= i < s1.len() && (#[trigger] s1[i]).0 == k;
            assert(s2[i].0 == k);
        }
        if assoc_map(s2).contains_key(k) {
            let i = choose|i: int| 0 <= i < s2.len() && (#[trigger] s2[i]).0 == k;
            assert(s1[i].0 == k);
        }
    }
    assert(assoc_map(s2).dom() =~= assoc_map(s1).dom());
    assert forall|k: K| #[trigger] assoc_map(s1).contains_key(k) implies exists|i: int|
        0 <= i < s1.len() && (#[trigger] s1[i]).0 == k by {
        lemma_assoc_contains(s1, k);
    }
}

} // verus!
