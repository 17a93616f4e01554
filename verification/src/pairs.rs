//! Lists of values under their keys.
//!
//! In a snapshot, maps, routes and score lists stand in lists of pairs: an
//! identifier and what stands under it. Where no identifier heads two pairs,
//! such a list is a map, and the order of its pairs says nothing.

use vstd::prelude::*;
use crate::ids::Id;

verus! {

/// Whether a pair stands under `key`.
pub open spec fn listed<V>(pairs: Seq<(Id, V)>, key: Id) -> bool {
    exists|i: int| 0 <= i < pairs.len() && (#[trigger] pairs[i]).0 == key
}

/// Where the pair under `key` stands, if there is one.
pub open spec fn place<V>(pairs: Seq<(Id, V)>, key: Id) -> int {
    choose|i: int| 0 <= i < pairs.len() && (#[trigger] pairs[i]).0 == key
}

/// No key heads two pairs.
pub open spec fn keys_distinct<V>(pairs: Seq<(Id, V)>) -> bool {
    forall|i: int, j: int|
        0 <= i < j < pairs.len() ==> (#[trigger] pairs[i]).0 != (#[trigger] pairs[j]).0
}

/// The map that a list of pairs stands for.
pub open spec fn pairs_map<V>(pairs: Seq<(Id, V)>) -> Map<Id, V> {
    Map::new(|key: Id| listed(pairs, key), |key: Id| pairs[place(pairs, key)].1)
}

/// In a list with distinct keys, the pair at a position is the pair under
/// its key.
pub proof fn lemma_place<V>(pairs: Seq<(Id, V)>, i: int)
    requires
        keys_distinct(pairs),
        0 <= i < pairs.len(),
    ensures
        listed(pairs, pairs[i].0),
        place(pairs, pairs[i].0) == i,
        pairs_map(pairs).contains_key(pairs[i].0),
        pairs_map(pairs)[pairs[i].0] == pairs[i].1,
{
    let key = pairs[i].0;
    let j = place(pairs, key);
    assert(0 <= j < pairs.len() && pairs[j].0 == key);
    if j < i {
        assert(pairs[j].0 != pairs[i].0);
    } else if i < j {
        assert(pairs[i].0 != pairs[j].0);
    }
}

/// The empty list stands for the empty map.
pub proof fn lemma_pairs_empty<V>()
    ensures
        keys_distinct(Seq::<(Id, V)>::empty()),
        pairs_map(Seq::<(Id, V)>::empty()) == Map::<Id, V>::empty(),
{
    assert(pairs_map(Seq::<(Id, V)>::empty()) =~= Map::<Id, V>::empty());
}

/// A pair under a new key, put behind the others, adds its key to the map.
pub proof fn lemma_pairs_push<V>(pairs: Seq<(Id, V)>, key: Id, value: V)
    requires
        keys_distinct(pairs),
        !listed(pairs, key),
    ensures
        keys_distinct(pairs.push((key, value))),
        pairs_map(pairs.push((key, value))) == pairs_map(pairs).insert(key, value),
{
    let more = pairs.push((key, value));
    let n = pairs.len() as int;
    assert forall|i: int, j: int| 0 <= i < j < more.len() implies (#[trigger] more[i]).0 != (
    #[trigger] more[j]).0 by {
        if j < n {
            assert(more[i] == pairs[i] && more[j] == pairs[j]);
        } else {
            assert(more[i] == pairs[i]);
            assert(pairs[i].0 != key);
        }
    }
    assert forall|k: Id| listed(more, k) <==> listed(pairs, k) || k == key by {
        if listed(more, k) {
            let i = place(more, k);
            if i < n {
                assert(pairs[i].0 == k);
            }
        }
        if listed(pairs, k) {
            let i = place(pairs, k);
            assert(more[i].0 == k);
        }
        if k == key {
            assert(more[n].0 == k);
        }
    }
    assert forall|k: Id| listed(more, k) implies #[trigger] pairs_map(more)[k] == pairs_map(
        pairs,
    ).insert(key, value)[k] by {
        if k == key {
            lemma_place(more, n);
        } else {
            let i = place(pairs, k);
            assert(more[i] == pairs[i]);
            lemma_place(more, i);
        }
    }
    assert(pairs_map(more) =~= pairs_map(pairs).insert(key, value));
}

/// Two lists with distinct keys that hold the same pairs, in whatever order,
/// stand for the same map.
pub proof fn lemma_pairs_any_order<V>(first: Seq<(Id, V)>, second: Seq<(Id, V)>)
    requires
        keys_distinct(first),
        keys_distinct(second),
        forall|i: int| 0 <= i < first.len() ==> second.contains(#[trigger] first[i]),
        forall|i: int| 0 <= i < second.len() ==> first.contains(#[trigger] second[i]),
    ensures
        pairs_map(first) == pairs_map(second),
{
    assert forall|k: Id| listed(first, k) implies listed(second, k) && pairs_map(first)[k]
        == pairs_map(second)[k] by {
        let i = place(first, k);
        assert(second.contains(first[i]));
        let j = choose|j: int| 0 <= j < second.len() && second[j] == first[i];
        lemma_place(first, i);
        lemma_place(second, j);
    }
    assert forall|k: Id| listed(second, k) implies listed(first, k) by {
        let i = place(second, k);
        assert(first.contains(second[i]));
        let j = choose|j: int| 0 <= j < first.len() && first[j] == second[i];
        lemma_place(first, j);
    }
    assert(pairs_map(first) =~= pairs_map(second));
}

/// Whether `second` holds the pairs of `first` in another order: the pair at
/// position `i` of `second` is the pair at position `to[i]` of `first`, and
/// the pair at position `j` of `first` is the pair at position `back[j]` of
/// `second`.
pub open spec fn reordered<V>(
    first: Seq<(Id, V)>,
    second: Seq<(Id, V)>,
    to: Seq<int>,
    back: Seq<int>,
) -> bool {
    &&& second.len() == first.len() == to.len() == back.len()
    &&& forall|i: int|
        0 <= i < second.len() ==> 0 <= #[trigger] to[i] < first.len() && second[i] == first[to[i]]
            && back[to[i]] == i
    &&& forall|j: int|
        0 <= j < first.len() ==> 0 <= #[trigger] back[j] < second.len() && first[j]
            == second[back[j]] && to[back[j]] == j
}

/// A list with distinct keys stands for the same map in any order of its
/// pairs, and has distinct keys in any order.
pub proof fn lemma_pairs_reordered<V>(
    first: Seq<(Id, V)>,
    second: Seq<(Id, V)>,
    to: Seq<int>,
    back: Seq<int>,
)
    requires
        keys_distinct(first),
        reordered(first, second, to, back),
    ensures
        keys_distinct(second),
        pairs_map(second) == pairs_map(first),
{
    assert forall|i: int, j: int| 0 <= i < j < second.len() implies (#[trigger] second[i]).0 != (
    #[trigger] second[j]).0 by {
        let a = to[i];
        let b = to[j];
        assert(back[a] == i && back[b] == j);
        if a < b {
            assert(first[a].0 != first[b].0);
        } else {
            assert(first[b].0 != first[a].0);
        }
    }
    assert forall|i: int| 0 <= i < first.len() implies second.contains(#[trigger] first[i]) by {
        assert(second[back[i]] == first[i]);
    }
    assert forall|i: int| 0 <= i < second.len() implies first.contains(#[trigger] second[i]) by {
        assert(first[to[i]] == second[i]);
    }
    lemma_pairs_any_order(second, first);
}

/// Whether no key heads two pairs.
pub fn keys_are_distinct<T>(pairs: &Vec<(Id, T)>) -> (distinct: bool)
    ensures
        distinct <==> forall|i: int, j: int|
            0 <= i < j < pairs.len() ==> (#[trigger] pairs[i]).0 != (#[trigger] pairs[j]).0,
{
    let mut j: usize = 0;
    while j < pairs.len()
        invariant
            j <= pairs.len(),
            forall|a: int, b: int|
                0 <= a < b < j ==> (#[trigger] pairs[a]).0 != (#[trigger] pairs[b]).0,
        decreases pairs.len() - j,
    {
        let mut i: usize = 0;
        while i < j
            invariant
                i <= j < pairs.len(),
                forall|a: int| 0 <= a < i ==> (#[trigger] pairs[a]).0 != pairs[j as int].0,
            decreases j - i,
        {
            if pairs[i].0 == pairs[j].0 {
                return false;
            }
            i += 1;
        }
        j += 1;
    }
    true
}

} // verus!
