//! Association lists: a sequence of entries, each with a key, read
//! as the map from keys to values. Later entries win; the tables keep their
//! keys unique, so no entry is shadowed.

use vstd::prelude::*;

verus! {

/// The map an association list stands for.
pub open spec fn assoc_map<K, T, V>(
    s: Seq<T>,
    key: spec_fn(T) -> K,
    val: spec_fn(T) -> V,
) -> Map<K, V>
    decreases s.len(),
{
    if s.len() == 0 {
        Map::empty()
    } else {
        assoc_map(s.drop_last(), key, val).insert(key(s.last()), val(s.last()))
    }
}

/// No key occurs twice.
pub open spec fn keys_unique<K, T>(s: Seq<T>, key: spec_fn(T) -> K) -> bool {
    forall|i: int, j: int| 0 <= i < j < s.len() ==> key(s[i]) != key(s[j])
}

/// The entry at `i` is what the map holds for its key.
pub proof fn lemma_assoc_lookup<K, T, V>(s: Seq<T>, key: spec_fn(T) -> K, val: spec_fn(T) -> V, i: int)
    requires
        keys_unique(s, key),
        0 <= i < s.len(),
    ensures
        assoc_map(s, key, val).contains_key(key(s[i])),
        assoc_map(s, key, val)[key(s[i])] == val(s[i]),
    decreases s.len(),
{
    if i < s.len() - 1 {
        lemma_assoc_lookup(s.drop_last(), key, val, i);
        assert(s.drop_last()[i] == s[i]);
    }
}

/// A key no entry has is not in the map.
pub proof fn lemma_assoc_absent<K, T, V>(s: Seq<T>, key: spec_fn(T) -> K, val: spec_fn(T) -> V, k: K)
    requires
        forall|i: int| 0 <= i < s.len() ==> key(#[trigger] s[i]) != k,
    ensures
        !assoc_map(s, key, val).contains_key(k),
    decreases s.len(),
{
    if s.len() > 0 {
        assert forall|i: int| 0 <= i < s.drop_last().len() implies key(#[trigger] s.drop_last()[i]) != k by {
            assert(s.drop_last()[i] == s[i]);
        }
        lemma_assoc_absent(s.drop_last(), key, val, k);
        assert(key(s[s.len() - 1]) != k);
    }
}

/// Replacing the entry at `i` by one with the same key updates the map at that key.
pub proof fn lemma_assoc_update<K, T, V>(
    s: Seq<T>,
    key: spec_fn(T) -> K,
    val: spec_fn(T) -> V,
    i: int,
    e: T,
)
    requires
        keys_unique(s, key),
        0 <= i < s.len(),
        key(e) == key(s[i]),
    ensures
        assoc_map(s.update(i, e), key, val) == assoc_map(s, key, val).insert(key(e), val(e)),
        keys_unique(s.update(i, e), key),
    decreases s.len(),
{
    let t = s.update(i, e);
    assert forall|a: int, b: int| 0 <= a < b < t.len() implies key(t[a]) != key(t[b]) by {
        assert(key(s[a]) != key(s[b]));
    }
    if i == s.len() - 1 {
        assert(t.drop_last() =~= s.drop_last());
        assert(assoc_map(t, key, val) =~= assoc_map(s, key, val).insert(key(e), val(e)));
    } else {
        assert(t.drop_last() =~= s.drop_last().update(i, e));
        assert(keys_unique(s.drop_last(), key));
        lemma_assoc_update(s.drop_last(), key, val, i, e);
        assert(key(s[i]) != key(s.last()));
        assert(assoc_map(t, key, val) =~= assoc_map(s, key, val).insert(key(e), val(e)));
    }
}

/// Appending an entry with a new key adds it to the map.
pub proof fn lemma_assoc_push<K, T, V>(s: Seq<T>, key: spec_fn(T) -> K, val: spec_fn(T) -> V, e: T)
    requires
        keys_unique(s, key),
        forall|i: int| 0 <= i < s.len() ==> key(#[trigger] s[i]) != key(e),
    ensures
        assoc_map(s.push(e), key, val) == assoc_map(s, key, val).insert(key(e), val(e)),
        keys_unique(s.push(e), key),
{
    assert(s.push(e).drop_last() =~= s);
    let t = s.push(e);
    assert forall|a: int, b: int| 0 <= a < b < t.len() implies key(t[a]) != key(t[b]) by {
        if b < s.len() {
            assert(key(s[a]) != key(s[b]));
        } else {
            assert(key(s[a]) != key(e));
        }
    }
}

/// Removing the entry at `i` removes its key from the map.
pub proof fn lemma_assoc_remove<K, T, V>(s: Seq<T>, key: spec_fn(T) -> K, val: spec_fn(T) -> V, i: int)
    requires
        keys_unique(s, key),
        0 <= i < s.len(),
    ensures
        assoc_map(s.remove(i), key, val) == assoc_map(s, key, val).remove(key(s[i])),
        keys_unique(s.remove(i), key),
    decreases s.len(),
{
    let t = s.remove(i);
    assert forall|a: int, b: int| 0 <= a < b < t.len() implies key(t[a]) != key(t[b]) by {
        let a2 = if a < i { a } else { a + 1 };
        let b2 = if b < i { b } else { b + 1 };
        assert(t[a] == s[a2] && t[b] == s[b2]);
        assert(key(s[a2]) != key(s[b2]));
    }
    if i == s.len() - 1 {
        assert(t =~= s.drop_last());
        assert forall|j: int| 0 <= j < s.drop_last().len() implies key(#[trigger] s.drop_last()[j]) != key(
            s[i],
        ) by {
            assert(s.drop_last()[j] == s[j]);
        }
        lemma_assoc_absent(s.drop_last(), key, val, key(s[i]));
        assert(assoc_map(t, key, val) =~= assoc_map(s, key, val).remove(key(s[i])));
    } else {
        assert(t.drop_last() =~= s.drop_last().remove(i));
        assert(t.last() == s.last());
        assert(keys_unique(s.drop_last(), key));
        lemma_assoc_remove(s.drop_last(), key, val, i);
        assert(s.drop_last()[i] == s[i]);
        assert(key(s[i]) != key(s.last()));
        assert(assoc_map(t, key, val) =~= assoc_map(s, key, val).remove(key(s[i])));
    }
}

/// The last entry with a key is what the map holds for that key.
pub proof fn lemma_assoc_last<K, T, V>(s: Seq<T>, key: spec_fn(T) -> K, val: spec_fn(T) -> V, i: int)
    requires
        0 <= i < s.len(),
        forall|j: int| i < j < s.len() ==> key(#[trigger] s[j]) != key(s[i]),
    ensures
        assoc_map(s, key, val).contains_key(key(s[i])),
        assoc_map(s, key, val)[key(s[i])] == val(s[i]),
    decreases s.len(),
{
    if i < s.len() - 1 {
        assert forall|j: int| i < j < s.drop_last().len() implies key(#[trigger] s.drop_last()[j]) != key(
            s.drop_last()[i],
        ) by {
            assert(s.drop_last()[j] == s[j]);
        }
        lemma_assoc_last(s.drop_last(), key, val, i);
        assert(s.drop_last()[i] == s[i]);
        assert(key(s[s.len() - 1]) != key(s[i]));
    }
}

/// With unique keys, the map has one key per entry.
pub proof fn lemma_assoc_len<K, T, V>(s: Seq<T>, key: spec_fn(T) -> K, val: spec_fn(T) -> V)
    requires
        keys_unique(s, key),
    ensures
        assoc_map(s, key, val).dom().finite(),
        assoc_map(s, key, val).dom().len() == s.len(),
    decreases s.len(),
{
    if s.len() > 0 {
        let pre = s.drop_last();
        assert(keys_unique(pre, key));
        lemma_assoc_len(pre, key, val);
        assert forall|i: int| 0 <= i < pre.len() implies key(#[trigger] pre[i]) != key(s.last()) by {
            assert(pre[i] == s[i]);
        }
        lemma_assoc_absent(pre, key, val, key(s.last()));
    }
}

/// Two lists whose entries agree on keys and values stand for the same map.
pub proof fn lemma_assoc_same<K, T, U, V>(
    s: Seq<T>,
    key: spec_fn(T) -> K,
    val: spec_fn(T) -> V,
    t: Seq<U>,
    key2: spec_fn(U) -> K,
    val2: spec_fn(U) -> V,
)
    requires
        s.len() == t.len(),
        forall|i: int| 0 <= i < s.len() ==> key(#[trigger] s[i]) == key2(t[i]) && val(s[i]) == val2(t[i]),
    ensures
        assoc_map(s, key, val) == assoc_map(t, key2, val2),
    decreases s.len(),
{
    if s.len() > 0 {
        assert forall|i: int| 0 <= i < s.drop_last().len() implies key(#[trigger] s.drop_last()[i]) == key2(
            t.drop_last()[i],
        ) && val(s.drop_last()[i]) == val2(t.drop_last()[i]) by {
            assert(s.drop_last()[i] == s[i]);
            assert(t.drop_last()[i] == t[i]);
        }
        lemma_assoc_same(s.drop_last(), key, val, t.drop_last(), key2, val2);
        assert(key(s.last()) == key2(t.last()));
    }
}

} // verus!
