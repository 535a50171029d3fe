//! Lists of (key, value) pairs with distinct keys, read as mappings.

use vstd::prelude::*;

verus! {

/// No key stands at two places of `pairs`.
pub open spec fn distinct_keys<K, V>(pairs: Seq<(K, V)>) -> bool {
    forall|i: int, j: int| 0 <= i < j < pairs.len() ==> pairs[i].0 != pairs[j].0
}

/// Whether some pair of `pairs` carries `key`.
pub open spec fn has_key<K, V>(pairs: Seq<(K, V)>, key: K) -> bool {
    exists|i: int| 0 <= i < pairs.len() && #[trigger] pairs[i].0 == key
}

/// The mapping that a list of pairs with distinct keys stands for.
pub open spec fn pairs_map<K, V>(pairs: Seq<(K, V)>) -> Map<K, V> {
    Map::new(
        |key: K| has_key(pairs, key),
        |key: K| pairs[choose|i: int| 0 <= i < pairs.len() && #[trigger] pairs[i].0 == key].1,
    )
}

/// With distinct keys, the mapping holds each pair and nothing else.
pub proof fn lemma_pairs_map<K, V>(pairs: Seq<(K, V)>)
    requires
        distinct_keys(pairs),
    ensures
        forall|i: int|
            0 <= i < pairs.len() ==> pairs_map(pairs).contains_key(#[trigger] pairs[i].0)
                && pairs_map(pairs)[pairs[i].0] == pairs[i].1,
        forall|key: K| #[trigger] pairs_map(pairs).contains_key(key) <==> has_key(pairs, key),
{
    assert forall|i: int| 0 <= i < pairs.len() implies pairs_map(pairs).contains_key(
        #[trigger] pairs[i].0,
    ) && pairs_map(pairs)[pairs[i].0] == pairs[i].1 by {
        let key = pairs[i].0;
        assert(has_key(pairs, key));
        let k = choose|k: int| 0 <= k < pairs.len() && #[trigger] pairs[k].0 == key;
        assert(k == i);
    }
}

/// The empty list stands for the empty mapping.
pub proof fn lemma_pairs_map_empty<K, V>(pairs: Seq<(K, V)>)
    requires
        pairs.len() == 0,
    ensures
        pairs_map(pairs) == Map::<K, V>::empty(),
{
    assert(pairs_map(pairs) =~= Map::<K, V>::empty());
}

/// Adding a pair with a new key keeps the keys distinct and inserts into the
/// mapping.
pub proof fn lemma_push_pair<K, V>(before: Seq<(K, V)>, pair: (K, V))
    requires
        distinct_keys(before),
        !has_key(before, pair.0),
    ensures
        distinct_keys(before.push(pair)),
        pairs_map(before.push(pair)) == pairs_map(before).insert(pair.0, pair.1),
{
    let after = before.push(pair);
    assert forall|a: int, b: int| 0 <= a < b < after.len() implies after[a].0 != after[b].0 by {
        assert(after[a].0 == before[a].0);
        if b < before.len() {
            assert(after[b].0 == before[b].0);
        }
    }
    lemma_replaced(before, after, before.len() as int, pair);
}

/// Replacing the value of a key that is there keeps the keys distinct and
/// inserts into the mapping.
pub proof fn lemma_update_pair<K, V>(before: Seq<(K, V)>, i: int, pair: (K, V))
    requires
        distinct_keys(before),
        0 <= i < before.len(),
        before[i].0 == pair.0,
    ensures
        distinct_keys(before.update(i, pair)),
        pairs_map(before.update(i, pair)) == pairs_map(before).insert(pair.0, pair.1),
{
    let after = before.update(i, pair);
    assert forall|a: int, b: int| 0 <= a < b < after.len() implies after[a].0 != after[b].0 by {
        assert(after[a].0 == before[a].0);
        assert(after[b].0 == before[b].0);
    }
    lemma_replaced(before, after, i, pair);
}

proof fn lemma_replaced<K, V>(before: Seq<(K, V)>, after: Seq<(K, V)>, i: int, pair: (K, V))
    requires
        distinct_keys(before),
        distinct_keys(after),
        0 <= i <= before.len(),
        i < before.len() ==> before[i].0 == pair.0 && after == before.update(i, pair),
        i == before.len() ==> !has_key(before, pair.0) && after == before.push(pair),
    ensures
        pairs_map(after) == pairs_map(before).insert(pair.0, pair.1),
{
    lemma_pairs_map(before);
    lemma_pairs_map(after);
    let target = pairs_map(before).insert(pair.0, pair.1);
    assert(after[i] == pair);
    assert forall|key: K| pairs_map(after).contains_key(key) implies target.contains_key(key) by {
        let k = choose|k: int| 0 <= k < after.len() && #[trigger] after[k].0 == key;
        if k != i {
            assert(before[k].0 == key);
        }
    }
    assert forall|key: K| target.contains_key(key) implies pairs_map(after).contains_key(key) by {
        if key != pair.0 {
            let k = choose|k: int| 0 <= k < before.len() && #[trigger] before[k].0 == key;
            assert(after[k].0 == key);
        } else {
            assert(after[i].0 == key);
        }
    }
    assert forall|key: K| pairs_map(after).contains_key(key) implies pairs_map(after)[key]
        == target[key] by {
        let k = choose|k: int| 0 <= k < after.len() && #[trigger] after[k].0 == key;
        if k != i {
            assert(before[k].0 == key);
            assert(before[k].1 == after[k].1);
        }
    }
    assert(pairs_map(after) =~= target);
}

} // verus!
