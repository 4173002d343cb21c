//! Lists of keyed entries in which no key occurs twice, read as maps.

use vstd::prelude::*;

verus! {

/// The map that takes each of `keys` to the value at the same position of `vals`.
pub open spec fn keyed<K, V>(keys: Seq<K>, vals: Seq<V>) -> Map<K, V> {
    Map::new(|k: K| keys.contains(k), |k: K| vals[keys.index_of(k)])
}

/// A key that stands at position `i` is taken to the value at position `i`.
pub proof fn lemma_keyed_at<K, V>(keys: Seq<K>, vals: Seq<V>, i: int)
    requires
        keys.no_duplicates(),
        keys.len() == vals.len(),
        0 <= i < keys.len(),
    ensures
        keyed(keys, vals).dom().contains(keys[i]),
        keyed(keys, vals)[keys[i]] == vals[i],
{
}

/// A key of the map stands at some position.
pub proof fn lemma_keyed_has<K, V>(keys: Seq<K>, vals: Seq<V>, k: K) -> (i: int)
    requires
        keys.no_duplicates(),
        keys.len() == vals.len(),
        keyed(keys, vals).dom().contains(k),
    ensures
        0 <= i < keys.len(),
        keys[i] == k,
        keyed(keys, vals)[k] == vals[i],
{
    let i = keys.index_of(k);
    assert(keys.contains(k));
    i
}

/// An entry with a new key, put at the end, is an insertion into the map.
pub proof fn lemma_keyed_push<K, V>(keys: Seq<K>, vals: Seq<V>, k: K, v: V)
    requires
        keys.no_duplicates(),
        keys.len() == vals.len(),
        !keys.contains(k),
    ensures
        keys.push(k).no_duplicates(),
        keyed(keys.push(k), vals.push(v)) == keyed(keys, vals).insert(k, v),
{
    let keys2 = keys.push(k);
    let vals2 = vals.push(v);
    let m = keyed(keys, vals).insert(k, v);
    let m2 = keyed(keys2, vals2);
    assert forall|x: K| m2.dom().contains(x) <==> m.dom().contains(x) by {
        if keys.contains(x) {
            let i = choose|i: int| 0 <= i < keys.len() && keys[i] == x;
            assert(keys2[i] == x);
        }
        assert(keys2[keys.len() as int] == k);
    }
}

/// A new value at position `i` is an insertion under the key at position `i`.
pub proof fn lemma_keyed_update<K, V>(keys: Seq<K>, vals: Seq<V>, i: int, v: V)
    requires
        keys.no_duplicates(),
        keys.len() == vals.len(),
        0 <= i < keys.len(),
    ensures
        keyed(keys, vals.update(i, v)) == keyed(keys, vals).insert(keys[i], v),
{
    let vals2 = vals.update(i, v);
    let m = keyed(keys, vals).insert(keys[i], v);
    let m2 = keyed(keys, vals2);
    assert(keys.contains(keys[i]));
    assert forall|x: K| m.dom().contains(x) implies m2[x] == m[x] by {
        let j = lemma_keyed_has(keys, vals2, x);
        lemma_keyed_at(keys, vals, j);
    }
    assert(m2 =~= m);
}

/// The first `j + 1` entries are the first `j` with the entry at position `j` inserted.
pub proof fn lemma_keyed_take<K, V>(keys: Seq<K>, vals: Seq<V>, j: int)
    requires
        keys.no_duplicates(),
        keys.len() == vals.len(),
        0 <= j < keys.len(),
    ensures
        keys.take(j).no_duplicates(),
        !keys.take(j).contains(keys[j]),
        keyed(keys.take(j + 1), vals.take(j + 1)) == keyed(keys.take(j), vals.take(j)).insert(
            keys[j],
            vals[j],
        ),
{
    assert(keys.take(j + 1) =~= keys.take(j).push(keys[j]));
    lemma_keyed_push(keys.take(j), vals.take(j), keys[j], vals[j]);
}

} // verus!
