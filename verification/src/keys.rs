//! Byte-string keys: their order and the search for a child position.

use vstd::prelude::*;

verus! {

/// `a` sorts strictly before `b` in the lexicographic order of byte slices
/// (a proper prefix sorts first).
pub open spec fn bytes_lt(a: Seq<u8>, b: Seq<u8>) -> bool
    decreases a.len(),
{
    if b.len() == 0 {
        false
    } else if a.len() == 0 {
        true
    } else if a[0] < b[0] {
        true
    } else if a[0] > b[0] {
        false
    } else {
        bytes_lt(a.drop_first(), b.drop_first())
    }
}

/// `a` sorts no later than `b`.
pub open spec fn bytes_le(a: Seq<u8>, b: Seq<u8>) -> bool {
    !bytes_lt(b, a)
}

/// The byte strings a vector of keys holds.
pub open spec fn key_seqs(keys: Seq<Vec<u8>>) -> Seq<Seq<u8>> {
    keys.map_values(|k: Vec<u8>| k@)
}

/// Keys in non-decreasing order.
pub open spec fn sorted_keys(keys: Seq<Seq<u8>>) -> bool {
    forall|i: int, j: int| 0 <= i < j < keys.len() ==> bytes_le(keys[i], keys[j])
}

/// The first position whose key sorts after `key`; the length if none does.
pub open spec fn child_index(keys: Seq<Seq<u8>>, key: Seq<u8>) -> int
    decreases keys.len(),
{
    if keys.len() == 0 {
        0
    } else if bytes_lt(key, keys[0]) {
        0
    } else {
        1 + child_index(keys.drop_first(), key)
    }
}

pub proof fn lemma_bytes_lt_irreflexive(a: Seq<u8>)
    ensures
        !bytes_lt(a, a),
    decreases a.len(),
{
    if a.len() > 0 {
        lemma_bytes_lt_irreflexive(a.drop_first());
    }
}

pub proof fn lemma_bytes_lt_total(a: Seq<u8>, b: Seq<u8>)
    ensures
        bytes_lt(a, b) || bytes_lt(b, a) || a == b,
    decreases a.len(),
{
    if a.len() == 0 || b.len() == 0 {
        if a.len() == 0 && b.len() == 0 {
            assert(a =~= b);
        }
    } else if a[0] == b[0] {
        let ta = a.drop_first();
        let tb = b.drop_first();
        lemma_bytes_lt_total(ta, tb);
        if ta == tb {
            assert forall|i: int| 0 <= i < a.len() implies a[i] == b[i] by {
                if i > 0 {
                    assert(a[i] == ta[i - 1]);
                    assert(b[i] == tb[i - 1]);
                }
            }
            assert(a =~= b);
        }
    }
}

pub proof fn lemma_bytes_lt_transitive(a: Seq<u8>, b: Seq<u8>, c: Seq<u8>)
    requires
        bytes_lt(a, b),
        bytes_lt(b, c),
    ensures
        bytes_lt(a, c),
    decreases a.len(),
{
    if a.len() > 0 && b.len() > 0 && c.len() > 0 && a[0] == b[0] && b[0] == c[0] {
        lemma_bytes_lt_transitive(a.drop_first(), b.drop_first(), c.drop_first());
    }
}

/// `a < b` and `b <= c` give `a < c`.
pub proof fn lemma_lt_le(a: Seq<u8>, b: Seq<u8>, c: Seq<u8>)
    requires
        bytes_lt(a, b),
        bytes_le(b, c),
    ensures
        bytes_lt(a, c),
{
    lemma_bytes_lt_total(b, c);
    if bytes_lt(b, c) {
        lemma_bytes_lt_transitive(a, b, c);
    }
}

/// `a <= b` and `b <= c` give `a <= c`.
pub proof fn lemma_le_le(a: Seq<u8>, b: Seq<u8>, c: Seq<u8>)
    requires
        bytes_le(a, b),
        bytes_le(b, c),
    ensures
        bytes_le(a, c),
{
    if bytes_lt(c, a) {
        lemma_bytes_lt_total(a, b);
        if bytes_lt(a, b) {
            lemma_bytes_lt_transitive(c, a, b);
        } else if a == b {
        }
    }
}

/// Whether `a` sorts strictly before `b`.
pub fn bytes_less(a: &[u8], b: &[u8]) -> (r: bool)
    ensures
        r == bytes_lt(a@, b@),
{
    let mut i: usize = 0;
    proof {
        assert(a@.subrange(0, a@.len() as int) =~= a@);
        assert(b@.subrange(0, b@.len() as int) =~= b@);
    }
    while i < a.len() && i < b.len()
        invariant
            0 <= i <= a@.len(),
            i <= b@.len(),
            forall|k: int| 0 <= k < i ==> a@[k] == b@[k],
            bytes_lt(a@, b@) == bytes_lt(a@.subrange(i as int, a@.len() as int), b@.subrange(i as int, b@.len() as int)),
        decreases a@.len() - i,
    {
        let ghost sa = a@.subrange(i as int, a@.len() as int);
        let ghost sb = b@.subrange(i as int, b@.len() as int);
        if a[i] < b[i] {
            return true;
        }
        if a[i] > b[i] {
            return false;
        }
        proof {
            assert(sa.drop_first() =~= a@.subrange(i + 1, a@.len() as int));
            assert(sb.drop_first() =~= b@.subrange(i + 1, b@.len() as int));
        }
        i = i + 1;
    }
    i < b.len()
}

/// The first position in `keys` whose key sorts after `key`, or the number
/// of keys if none does: where a search for `key` descends.
pub fn find_child(keys: &[Vec<u8>], key: &[u8]) -> (r: usize)
    ensures
        r as int == child_index(key_seqs(keys@), key@),
        r <= keys@.len(),
{
    let ghost dv = key_seqs(keys@);
    let mut i: usize = 0;
    proof {
        assert(dv.subrange(0, dv.len() as int) =~= dv);
    }
    while i < keys.len()
        invariant
            0 <= i <= keys@.len(),
            dv == key_seqs(keys@),
            dv.len() == keys@.len(),
            child_index(dv, key@) == i + child_index(dv.subrange(i as int, dv.len() as int), key@),
        decreases keys@.len() - i,
    {
        let ghost rest = dv.subrange(i as int, dv.len() as int);
        proof {
            assert(rest[0] == keys@[i as int]@);
        }
        if bytes_less(key, keys[i].as_slice()) {
            return i;
        }
        proof {
            assert(rest.drop_first() =~= dv.subrange(i + 1, dv.len() as int));
        }
        i = i + 1;
    }
    proof {
        assert(dv.subrange(i as int, dv.len() as int).len() == 0);
    }
    i
}

pub proof fn lemma_child_index_bounds(keys: Seq<Seq<u8>>, key: Seq<u8>)
    ensures
        0 <= child_index(keys, key) <= keys.len(),
        forall|i: int| 0 <= i < child_index(keys, key) ==> !bytes_lt(key, #[trigger] keys[i]),
        child_index(keys, key) < keys.len() ==> bytes_lt(key, keys[child_index(keys, key)]),
    decreases keys.len(),
{
    if keys.len() > 0 && !bytes_lt(key, keys[0]) {
        lemma_child_index_bounds(keys.drop_first(), key);
        assert forall|i: int| 0 <= i < child_index(keys, key) implies !bytes_lt(key, #[trigger] keys[i]) by {
            if i > 0 {
                assert(keys[i] == keys.drop_first()[i - 1]);
            }
        }
    }
}

/// Inserts `key` with its value where `find_child` puts it: after every key
/// that sorts no later, before the first that sorts after.
pub fn insert_sorted(keys: &mut Vec<Vec<u8>>, values: &mut Vec<u64>, key: Vec<u8>, value: u64)
    requires
        child_index(key_seqs(old(keys)@), key@) <= old(values)@.len(),
    ensures
        key_seqs(final(keys)@) == key_seqs(old(keys)@).insert(
            child_index(key_seqs(old(keys)@), key@),
            key@,
        ),
        final(values)@ == old(values)@.insert(child_index(key_seqs(old(keys)@), key@), value),
{
    let pos = find_child(keys.as_slice(), key.as_slice());
    let ghost old_dv = key_seqs(keys@);
    let ghost kv = key@;
    keys.insert(pos, key);
    values.insert(pos, value);
    proof {
        assert(key_seqs(keys@) =~= old_dv.insert(pos as int, kv));
    }
}

/// Inserting with `insert_sorted` keeps sorted keys sorted.
pub proof fn lemma_insert_sorted_keeps_order(keys: Seq<Seq<u8>>, key: Seq<u8>)
    requires
        sorted_keys(keys),
    ensures
        sorted_keys(keys.insert(child_index(keys, key), key)),
{
    let pos = child_index(keys, key);
    lemma_child_index_bounds(keys, key);
    let out = keys.insert(pos, key);
    assert forall|i: int, j: int| 0 <= i < j < out.len() implies bytes_le(out[i], out[j]) by {
        if j < pos {
            assert(out[i] == keys[i] && out[j] == keys[j]);
        } else if j == pos {
            assert(out[j] == key);
            assert(out[i] == keys[i]);
            lemma_bytes_lt_total(key, keys[i]);
        } else if i < pos {
            assert(out[i] == keys[i] && out[j] == keys[j - 1]);
        } else if i == pos {
            assert(out[i] == key && out[j] == keys[j - 1]);
            if j - 1 > pos {
                lemma_lt_le(key, keys[pos], keys[j - 1]);
            }
            if bytes_lt(keys[j - 1], key) {
                lemma_bytes_lt_transitive(key, keys[j - 1], key);
                lemma_bytes_lt_irreflexive(key);
            }
        } else {
            assert(out[i] == keys[i - 1] && out[j] == keys[j - 1]);
        }
    }
}

} // verus!
