//! Maps held as two parallel sequences, keys and values, with no key twice.

use vstd::prelude::*;

verus! {

/// The map that pairs each key with the value at the same position.
pub open spec fn keyed_map<K, V>(keys: Seq<K>, vals: Seq<V>) -> Map<K, V> {
    Map::new(|k: K| keys.contains(k), |k: K| vals[keys.index_of(k)])
}

/// Looking up the key at position `i` gives the value at position `i`.
pub proof fn lemma_keyed_at<K, V>(keys: Seq<K>, vals: Seq<V>, i: int)
    requires
        keys.no_duplicates(),
        0 <= i < keys.len(),
    ensures
        keyed_map(keys, vals).contains_key(keys[i]),
        keyed_map(keys, vals)[keys[i]] == vals[i],
{
    assert(keys.contains(keys[i]));
    let j = keys.index_of(keys[i]);
    assert(0 <= j < keys.len() && keys[j] == keys[i]);
}

/// A key that is not in the sequence of keys is not in the map.
pub proof fn lemma_keyed_absent<K, V>(keys: Seq<K>, vals: Seq<V>, k: K)
    requires
        forall|i: int| 0 <= i < keys.len() ==> keys[i] != k,
    ensures
        !keyed_map(keys, vals).contains_key(k),
{
}

/// Replacing the value at position `i` replaces the value of key `keys[i]`.
pub proof fn lemma_keyed_update<K, V>(keys: Seq<K>, vals: Seq<V>, i: int, v: V)
    requires
        keys.no_duplicates(),
        vals.len() == keys.len(),
        0 <= i < keys.len(),
    ensures
        keyed_map(keys, vals.update(i, v)) == keyed_map(keys, vals).insert(keys[i], v),
{
    let m = keyed_map(keys, vals.update(i, v));
    let n = keyed_map(keys, vals).insert(keys[i], v);
    assert forall|k: K| #[trigger] m.contains_key(k) implies m[k] == n[k] by {
        let j = keys.index_of(k);
        assert(0 <= j < keys.len() && keys[j] == k);
        lemma_keyed_at(keys, vals, j);
        lemma_keyed_at(keys, vals.update(i, v), j);
    }
    assert(m =~= n);
}

/// Appending a new key and its value inserts them into the map.
pub proof fn lemma_keyed_push<K, V>(keys: Seq<K>, vals: Seq<V>, k: K, v: V)
    requires
        keys.no_duplicates(),
        vals.len() == keys.len(),
        !keys.contains(k),
    ensures
        keys.push(k).no_duplicates(),
        keyed_map(keys.push(k), vals.push(v)) == keyed_map(keys, vals).insert(k, v),
{
    let ks = keys.push(k);
    let vs = vals.push(v);
    assert forall|a: int, b: int|
        0 <= a < ks.len() && 0 <= b < ks.len() && a != b implies ks[a] != ks[b] by {
        if a < keys.len() && b < keys.len() {
        } else if a < keys.len() {
            assert(keys[a] != k);
        } else {
            assert(keys[b] != k);
        }
    }
    let m = keyed_map(ks, vs);
    let n = keyed_map(keys, vals).insert(k, v);
    assert forall|x: K| #[trigger] m.contains_key(x) implies m[x] == n[x] by {
        let j = ks.index_of(x);
        assert(0 <= j < ks.len() && ks[j] == x);
        lemma_keyed_at(ks, vs, j);
        if j < keys.len() {
            lemma_keyed_at(keys, vals, j);
        }
    }
    assert forall|x: K| #[trigger] n.contains_key(x) implies m.contains_key(x) by {
        if x != k {
            let j = keys.index_of(x);
            assert(ks[j] == x);
        } else {
            assert(ks[keys.len() as int] == k);
        }
    }
    assert(m =~= n);
}

/// Removing position `i` removes key `keys[i]` from the map.
pub proof fn lemma_keyed_remove<K, V>(keys: Seq<K>, vals: Seq<V>, i: int)
    requires
        keys.no_duplicates(),
        vals.len() == keys.len(),
        0 <= i < keys.len(),
    ensures
        keys.remove(i).no_duplicates(),
        keyed_map(keys.remove(i), vals.remove(i)) == keyed_map(keys, vals).remove(keys[i]),
{
    let ks = keys.remove(i);
    let vs = vals.remove(i);
    keys.remove_ensures(i);
    vals.remove_ensures(i);
    // Position `p` of the shorter sequences comes from `src(p)` of the longer ones.
    assert forall|a: int, b: int|
        0 <= a < ks.len() && 0 <= b < ks.len() && a != b implies ks[a] != ks[b] by {
        let a2 = if a < i { a } else { a + 1 };
        let b2 = if b < i { b } else { b + 1 };
        assert(ks[a] == keys[a2]);
        assert(ks[b] == keys[b2]);
    }
    let m = keyed_map(ks, vs);
    let n = keyed_map(keys, vals).remove(keys[i]);
    assert forall|x: K| #[trigger] m.contains_key(x) implies n.contains_key(x) && m[x] == n[x] by {
        let j = ks.index_of(x);
        assert(0 <= j < ks.len() && ks[j] == x);
        let j2 = if j < i { j } else { j + 1 };
        assert(keys[j2] == x);
        lemma_keyed_at(ks, vs, j);
        lemma_keyed_at(keys, vals, j2);
        assert(j2 != i);
    }
    assert forall|x: K| #[trigger] n.contains_key(x) implies m.contains_key(x) by {
        let j = keys.index_of(x);
        assert(0 <= j < keys.len() && keys[j] == x);
        assert(j != i);
        let j1 = if j < i { j } else { j - 1 };
        assert(ks[j1] == x);
    }
    assert(m =~= n);
}

} // verus!
