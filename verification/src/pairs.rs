//! Maps that are held as a sequence of keys beside a sequence of values.

use vstd::prelude::*;

verus! {

/// The map that holds `values[i]` under `keys[i]`.
pub open spec fn paired<K, V>(keys: Seq<K>, values: Seq<V>) -> Map<K, V> {
    Map::new(|k: K| keys.contains(k), |k: K| values[keys.index_of(k)])
}

/// Under each key the map holds the value at the key's place.
pub proof fn lemma_paired_at<K, V>(keys: Seq<K>, values: Seq<V>, i: int)
    requires
        keys.no_duplicates(),
        0 <= i < keys.len(),
    ensures
        paired(keys, values).contains_key(keys[i]),
        paired(keys, values)[keys[i]] == values[i],
{
    assert(keys.contains(keys[i]));
}

/// A new key that is put at place `at`, with its value, is held by the map under that
/// value; the map is otherwise unchanged, and still no key stands twice.
pub proof fn lemma_paired_insert<K, V>(keys: Seq<K>, values: Seq<V>, at: int, key: K, value: V)
    requires
        keys.no_duplicates(),
        keys.len() == values.len(),
        0 <= at <= keys.len(),
        !keys.contains(key),
    ensures
        keys.insert(at, key).no_duplicates(),
        paired(keys.insert(at, key), values.insert(at, value)) == paired(keys, values).insert(
            key,
            value,
        ),
{
    let grown = keys.insert(at, key);
    let grown_values = values.insert(at, value);
    assert forall|i: int, j: int| 0 <= i < grown.len() && 0 <= j < grown.len() && i != j implies
        grown[i] != grown[j] by {
        let oi = if i < at { i } else { i - 1 };
        let oj = if j < at { j } else { j - 1 };
        if i != at {
            assert(grown[i] == keys[oi]);
            assert(keys.contains(keys[oi]));
        }
        if j != at {
            assert(grown[j] == keys[oj]);
            assert(keys.contains(keys[oj]));
        }
    }
    let before = paired(keys, values);
    let after = paired(grown, grown_values);
    assert forall|k: K| after.contains_key(k) <==> before.insert(key, value).contains_key(k) by {
        if grown.contains(k) {
            let i = grown.index_of(k);
            if i != at {
                let oi = if i < at { i } else { i - 1 };
                assert(keys[oi] == k);
            }
        }
        if keys.contains(k) {
            let i = keys.index_of(k);
            let gi = if i < at { i } else { i + 1 };
            assert(grown[gi] == k);
        }
        if k == key {
            assert(grown[at] == k);
        }
    }
    assert forall|k: K| after.contains_key(k) implies after[k] == before.insert(key, value)[k] by {
        let i = grown.index_of(k);
        lemma_paired_at(grown, grown_values, i);
        if i != at {
            let oi = if i < at { i } else { i - 1 };
            assert(keys[oi] == k);
            lemma_paired_at(keys, values, oi);
        }
    }
    assert(after =~= before.insert(key, value));
}

/// The key at place `at` is taken away, with its value: the map loses that key and is
/// otherwise unchanged, and still no key stands twice.
pub proof fn lemma_paired_remove<K, V>(keys: Seq<K>, values: Seq<V>, at: int)
    requires
        keys.no_duplicates(),
        keys.len() == values.len(),
        0 <= at < keys.len(),
    ensures
        keys.remove(at).no_duplicates(),
        !keys.remove(at).contains(keys[at]),
        paired(keys.remove(at), values.remove(at)) == paired(keys, values).remove(keys[at]),
{
    let less = keys.remove(at);
    let less_values = values.remove(at);
    assert forall|i: int, j: int| 0 <= i < less.len() && 0 <= j < less.len() && i != j implies
        less[i] != less[j] by {
        let oi = if i < at { i } else { i + 1 };
        let oj = if j < at { j } else { j + 1 };
        assert(less[i] == keys[oi] && less[j] == keys[oj]);
    }
    if less.contains(keys[at]) {
        let i = less.index_of(keys[at]);
        let oi = if i < at { i } else { i + 1 };
        assert(keys[oi] == keys[at]);
    }
    let before = paired(keys, values);
    let after = paired(less, less_values);
    assert forall|k: K| after.contains_key(k) <==> before.remove(keys[at]).contains_key(k) by {
        if less.contains(k) {
            let i = less.index_of(k);
            let oi = if i < at { i } else { i + 1 };
            assert(keys[oi] == k);
        }
        if keys.contains(k) && k != keys[at] {
            let i = keys.index_of(k);
            let li = if i < at { i } else { i - 1 };
            assert(less[li] == k);
        }
    }
    assert forall|k: K| after.contains_key(k) implies after[k] == before.remove(keys[at])[k] by {
        let i = less.index_of(k);
        lemma_paired_at(less, less_values, i);
        let oi = if i < at { i } else { i + 1 };
        assert(keys[oi] == k);
        lemma_paired_at(keys, values, oi);
    }
    assert(after =~= before.remove(keys[at]));
}

/// The map holds as many entries as there are keys.
pub proof fn lemma_paired_len<K, V>(keys: Seq<K>, values: Seq<V>)
    requires
        keys.no_duplicates(),
    ensures
        paired(keys, values).dom().finite(),
        paired(keys, values).len() == keys.len(),
{
    keys.unique_seq_to_set();
    assert(paired(keys, values).dom() =~= keys.to_set());
}

} // verus!
