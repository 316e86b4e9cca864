use vstd::prelude::*;

verus! {

use crate::types::StateKey;

// The keyed collections of this crate are vectors of (key, value) pairs with
// pairwise-distinct keys; their contracts speak of the mapping those pairs
// denote. This module defines that mapping and the facts the collection
// operations need about it.

/// The mapping denoted by a sequence of (key, value) pairs; a later pair for
/// the same key wins.
pub open spec fn as_map<V>(s: Seq<(StateKey, V)>) -> Map<StateKey, V>
    decreases s.len(),
{
    if s.len() == 0 {
        Map::empty()
    } else {
        as_map(s.drop_last()).insert(s.last().0, s.last().1)
    }
}

/// No two pairs carry the same key.
pub open spec fn keys_unique<V>(s: Seq<(StateKey, V)>) -> bool {
    forall|i: int, j: int| 0 <= i < j < s.len() ==> s[i].0 != s[j].0
}

pub proof fn lemma_as_map_contains<V>(s: Seq<(StateKey, V)>, k: StateKey)
    ensures
        as_map(s).contains_key(k) <==> exists|i: int| 0 <= i < s.len() && s[i].0 == k,
    decreases s.len(),
{
    if s.len() == 0 {
    } else {
        lemma_as_map_contains(s.drop_last(), k);
        if s.last().0 == k {
            assert(s[s.len() - 1].0 == k);
        } else {
            if as_map(s).contains_key(k) {
                let i = choose|i: int| 0 <= i < s.drop_last().len() && s.drop_last()[i].0 == k;
                assert(s[i].0 == k);
            }
            if exists|i: int| 0 <= i < s.len() && s[i].0 == k {
                let i = choose|i: int| 0 <= i < s.len() && s[i].0 == k;
                assert(i != s.len() - 1);
                assert(s.drop_last()[i].0 == k);
            }
        }
    }
}

pub proof fn lemma_as_map_index<V>(s: Seq<(StateKey, V)>, i: int)
    requires
        keys_unique(s),
        0 <= i < s.len(),
    ensures
        as_map(s).contains_key(s[i].0),
        as_map(s)[s[i].0] == s[i].1,
    decreases s.len(),
{
    if i == s.len() - 1 {
    } else {
        assert(keys_unique(s.drop_last()));
        lemma_as_map_index(s.drop_last(), i);
        assert(s.last().0 != s[i].0);
    }
}

pub proof fn lemma_as_map_push<V>(s: Seq<(StateKey, V)>, k: StateKey, v: V)
    ensures
        as_map(s.push((k, v))) == as_map(s).insert(k, v),
{
    assert(s.push((k, v)).drop_last() =~= s);
    assert(s.push((k, v)).last() == (k, v));
}

pub proof fn lemma_as_map_remove<V>(s: Seq<(StateKey, V)>, i: int)
    requires
        keys_unique(s),
        0 <= i < s.len(),
    ensures
        as_map(s.remove(i)) == as_map(s).remove(s[i].0),
        keys_unique(s.remove(i)),
    decreases s.len(),
{
    let k = s[i].0;
    assert(keys_unique(s.remove(i)));
    if i == s.len() - 1 {
        assert(s.remove(i) =~= s.drop_last());
        lemma_as_map_contains(s.drop_last(), k);
        assert(forall|j: int| 0 <= j < s.drop_last().len() ==> s.drop_last()[j] == s[j]);
        assert(!as_map(s.drop_last()).contains_key(k));
        assert(as_map(s).remove(k) =~= as_map(s.drop_last()));
    } else {
        assert(keys_unique(s.drop_last()));
        lemma_as_map_remove(s.drop_last(), i);
        assert(s.remove(i).drop_last() =~= s.drop_last().remove(i));
        assert(s.remove(i).last() == s.last());
        assert(s.last().0 != k);
        assert(as_map(s.remove(i)) =~= as_map(s).remove(k));
    }
}

/// Uniqueness is kept when a fresh key is pushed.
pub proof fn lemma_keys_unique_push<V>(s: Seq<(StateKey, V)>, k: StateKey, v: V)
    requires
        keys_unique(s),
        forall|i: int| 0 <= i < s.len() ==> s[i].0 != k,
    ensures
        keys_unique(s.push((k, v))),
{
}

/// An empty mapping comes from an empty sequence and only from one.
pub proof fn lemma_as_map_empty<V>(s: Seq<(StateKey, V)>)
    ensures
        (as_map(s) == Map::<StateKey, V>::empty()) <==> s.len() == 0,
{
    if s.len() > 0 {
        lemma_as_map_contains(s, s.last().0);
        assert(s[s.len() - 1].0 == s.last().0);
        assert(as_map(s).contains_key(s.last().0));
    }
}

/// With distinct keys, the mapping has exactly one entry per pair.
pub proof fn lemma_as_map_len<V>(s: Seq<(StateKey, V)>)
    requires
        keys_unique(s),
    ensures
        as_map(s).dom().finite(),
        as_map(s).len() == s.len(),
    decreases s.len(),
{
    if s.len() == 0 {
        assert(as_map(s).dom() =~= Set::<StateKey>::empty());
    } else {
        assert(keys_unique(s.drop_last()));
        lemma_as_map_len(s.drop_last());
        lemma_as_map_contains(s.drop_last(), s.last().0);
        assert(forall|j: int| 0 <= j < s.len() - 1 ==> s[j].0 != s.last().0);
        assert(!as_map(s.drop_last()).contains_key(s.last().0));
    }
}

} // verus!
