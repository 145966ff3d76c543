//! Association lists: sequences of key/value pairs with pairwise-distinct
//! keys, and their view as a mathematical map. The keyed containers of the
//! engine (record store, primary-key lookup, accumulator store) keep their
//! entries this way.

use vstd::prelude::*;

verus! {

/// The map an association list denotes; later pairs win, which is
/// irrelevant once keys are distinct.
pub open spec fn alist_map<K, V>(s: Seq<(K, V)>) -> Map<K, V>
    decreases s.len(),
{
    if s.len() == 0 {
        Map::empty()
    } else {
        alist_map(s.drop_last()).insert(s.last().0, s.last().1)
    }
}

/// Keys are pairwise distinct.
pub open spec fn keys_distinct<K, V>(s: Seq<(K, V)>) -> bool {
    forall|i: int, j: int| 0 <= i < j < s.len() ==> (#[trigger] s[i]).0 != (#[trigger] s[j]).0
}

/// A key is in the denoted map exactly when some pair carries it.
pub proof fn lemma_alist_contains<K, V>(s: Seq<(K, V)>, k: K)
    ensures
        alist_map(s).dom().contains(k) <==> exists|i: int|
            0 <= i < s.len() && (#[trigger] s[i]).0 == k,
    decreases s.len(),
{
    if s.len() > 0 {
        lemma_alist_contains(s.drop_last(), k);
        if alist_map(s).dom().contains(k) {
            if s.last().0 == k {
                assert(s[s.len() - 1].0 == k);
            } else {
                let t = s.drop_last();
                let i = choose|i: int| 0 <= i < t.len() && (#[trigger] t[i]).0 == k;
                assert(s[i].0 == k);
            }
        }
        if exists|i: int| 0 <= i < s.len() && (#[trigger] s[i]).0 == k {
            let i = choose|i: int| 0 <= i < s.len() && (#[trigger] s[i]).0 == k;
            if i < s.len() - 1 {
                assert(s.drop_last()[i].0 == k);
            }
        }
    }
}

/// With distinct keys, the denoted map sends each pair's key to its value.
pub proof fn lemma_alist_index<K, V>(s: Seq<(K, V)>, i: int)
    requires
        keys_distinct(s),
        0 <= i < s.len(),
    ensures
        alist_map(s).dom().contains(s[i].0),
        alist_map(s)[s[i].0] == s[i].1,
    decreases s.len(),
{
    if i == s.len() - 1 {
    } else {
        assert(s[i].0 != s.last().0);
        assert(s.drop_last()[i] == s[i]);
        lemma_alist_index(s.drop_last(), i);
    }
}

/// Appending a pair inserts it into the denoted map.
pub proof fn lemma_alist_push<K, V>(s: Seq<(K, V)>, p: (K, V))
    ensures
        alist_map(s.push(p)) == alist_map(s).insert(p.0, p.1),
{
    assert(s.push(p).drop_last() =~= s);
}

/// With distinct keys, removing the pair at `i` removes its key from the
/// denoted map.
pub proof fn lemma_alist_remove<K, V>(s: Seq<(K, V)>, i: int)
    requires
        keys_distinct(s),
        0 <= i < s.len(),
    ensures
        alist_map(s.remove(i)) == alist_map(s).remove(s[i].0),
{
    let t = s.remove(i);
    assert forall|k: K| alist_map(t).dom().contains(k) <==> alist_map(s).remove(
        s[i].0,
    ).dom().contains(k) by {
        lemma_alist_contains(t, k);
        lemma_alist_contains(s, k);
        if alist_map(t).dom().contains(k) {
            let j = choose|j: int| 0 <= j < t.len() && (#[trigger] t[j]).0 == k;
            let j0 = if j < i {
                j
            } else {
                j + 1
            };
            assert(s[j0] == t[j]);
            assert(s[j0].0 == k && j0 != i);
        }
        if alist_map(s).remove(s[i].0).dom().contains(k) {
            let j0 = choose|j0: int| 0 <= j0 < s.len() && (#[trigger] s[j0]).0 == k;
            assert(j0 != i);
            let j = if j0 < i {
                j0
            } else {
                j0 - 1
            };
            assert(t[j] == s[j0]);
            assert(t[j].0 == k);
        }
    }
    assert forall|k: K| alist_map(t).dom().contains(k) implies alist_map(t)[k] == alist_map(
        s,
    ).remove(s[i].0)[k] by {
        lemma_alist_contains(t, k);
        let j = choose|j: int| 0 <= j < t.len() && (#[trigger] t[j]).0 == k;
        let j0 = if j < i {
            j
        } else {
            j + 1
        };
        assert(s[j0] == t[j]);
        lemma_alist_index(t, j);
        lemma_alist_index(s, j0);
    }
    assert(alist_map(t) =~= alist_map(s).remove(s[i].0));
}

} // verus!
