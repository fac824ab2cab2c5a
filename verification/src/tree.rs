//! The decisions of the B+Tree: where a search goes at each node, what a
//! leaf gives a range scan, how a node takes a new key, and how a full node
//! splits. The caller reads and writes the pages; it hands each node it reads
//! to these functions and stores the nodes they return.

use vstd::prelude::*;
use crate::btree::{InternalNode, LeafNode, Node, NodeHeader, MAX_KEYS};
use crate::bytes::copy_range;
use crate::keys::{
    bytes_le, bytes_less, bytes_lt, child_index, find_child, insert_sorted, key_seqs, lemma_bytes_lt_irreflexive,
    lemma_bytes_lt_total, lemma_bytes_lt_transitive, lemma_child_index_bounds, sorted_keys,
};
use crate::page::PageId;

verus! {

/// Position `i` holds `key` and no earlier position does.
pub open spec fn is_first_match(keys: Seq<Seq<u8>>, key: Seq<u8>, i: int) -> bool {
    &&& 0 <= i < keys.len()
    &&& keys[i] == key
    &&& forall|j: int| 0 <= j < i ==> keys[j] != key
}

/// The value a leaf gives for `key`: that of the first entry with the key.
pub open spec fn leaf_lookup(keys: Seq<Seq<u8>>, values: Seq<u64>, key: Seq<u8>) -> Option<u64> {
    if exists|i: int| is_first_match(keys, key, i) {
        Some(values[choose|i: int| is_first_match(keys, key, i)])
    } else {
        None
    }
}

/// What a search for a key does at one node.
#[derive(Debug, Clone, Copy, PartialEq, Eq, Structural)]
pub enum SearchStep {
    /// The leaf has the key, with this value.
    Found(PageId),
    /// The leaf does not have the key.
    Missing,
    /// Go on at this child.
    Descend(PageId),
}

/// A search step can be taken at this node: a leaf has a value for the
/// first entry with the key, an internal node has the child it points to.
pub open spec fn search_defined(node: Node, key: Seq<u8>) -> bool {
    match node {
        Node::Leaf(l) => forall|i: int| #[trigger] is_first_match(key_seqs(l.keys@), key, i) ==> i < l.values@.len(),
        Node::Internal(n) => child_index(key_seqs(n.keys@), key) < n.children@.len(),
    }
}

pub open spec fn search_spec(node: Node, key: Seq<u8>) -> SearchStep {
    match node {
        Node::Leaf(l) => match leaf_lookup(key_seqs(l.keys@), l.values@, key) {
            Some(v) => SearchStep::Found(v),
            None => SearchStep::Missing,
        },
        Node::Internal(n) => SearchStep::Descend(n.children@[child_index(key_seqs(n.keys@), key)]),
    }
}

proof fn lemma_first_match_unique(keys: Seq<Seq<u8>>, key: Seq<u8>, i: int)
    requires
        is_first_match(keys, key, i),
    ensures
        (choose|j: int| is_first_match(keys, key, j)) == i,
{
    let c = choose|j: int| is_first_match(keys, key, j);
    assert(is_first_match(keys, key, c));
    if c < i {
        assert(keys[c] != key);
    } else if c > i {
        assert(keys[i] != key);
    }
}

/// One step of a search for `key`.
pub fn search_step(node: &Node, key: &[u8]) -> (r: SearchStep)
    requires
        search_defined(*node, key@),
    ensures
        r == search_spec(*node, key@),
{
    match node {
        Node::Leaf(leaf) => {
            let ghost ks = key_seqs(leaf.keys@);
            let mut i: usize = 0;
            while i < leaf.keys.len()
                invariant
                    0 <= i <= leaf.keys@.len(),
                    ks == key_seqs(leaf.keys@),
                    *node == Node::Leaf(*leaf),
                    forall|j: int| 0 <= j < i ==> ks[j] != key@,
                    forall|j: int| #[trigger] is_first_match(ks, key@, j) ==> j < leaf.values@.len(),
                decreases leaf.keys@.len() - i,
            {
                if crate::mvcc::bytes_equal(leaf.keys[i].as_slice(), key) {
                    proof {
                        assert(is_first_match(ks, key@, i as int));
                        lemma_first_match_unique(ks, key@, i as int);
                    }
                    return SearchStep::Found(leaf.values[i]);
                }
                i = i + 1;
            }
            proof {
                assert(!exists|j: int| is_first_match(ks, key@, j));
            }
            SearchStep::Missing
        },
        Node::Internal(internal) => {
            let idx = find_child(internal.keys.as_slice(), key);
            SearchStep::Descend(internal.children[idx])
        },
    }
}

/// One step toward the leaf where `key` belongs: `None` at a leaf, else the
/// child to go on at.
pub fn next_toward_leaf(node: &Node, key: &[u8]) -> (r: Option<PageId>)
    requires
        node matches Node::Internal(n) ==> child_index(key_seqs(n.keys@), key@) < n.children@.len(),
    ensures
        match *node {
            Node::Leaf(_) => r is None,
            Node::Internal(n) => r == Some(n.children@[child_index(key_seqs(n.keys@), key@)]),
        },
{
    match node {
        Node::Leaf(_) => None,
        Node::Internal(internal) => {
            let idx = find_child(internal.keys.as_slice(), key);
            Some(internal.children[idx])
        },
    }
}

/// The entries among the first `n` of a leaf whose keys lie in
/// `[start, end]`, in leaf order.
pub open spec fn range_upto(keys: Seq<Seq<u8>>, values: Seq<u64>, start: Seq<u8>, end: Seq<u8>, n: nat) -> Seq<(Seq<u8>, u64)>
    decreases n,
{
    if n == 0 {
        Seq::empty()
    } else {
        let prev = range_upto(keys, values, start, end, (n - 1) as nat);
        let k = keys[n - 1];
        if bytes_le(start, k) && bytes_le(k, end) {
            prev.push((k, values[n - 1]))
        } else {
            prev
        }
    }
}

/// The entries of a leaf whose keys lie in `[start, end]`, in leaf order;
/// a key without a value is not an entry.
pub open spec fn leaf_range(keys: Seq<Seq<u8>>, values: Seq<u64>, start: Seq<u8>, end: Seq<u8>) -> Seq<(Seq<u8>, u64)> {
    let n = if keys.len() <= values.len() { keys.len() } else { values.len() };
    range_upto(keys, values, start, end, n)
}

/// Key-value pairs as mathematical values.
pub open spec fn pair_seqs(v: Seq<(Vec<u8>, PageId)>) -> Seq<(Seq<u8>, u64)> {
    v.map_values(|p: (Vec<u8>, PageId)| (p.0@, p.1))
}

/// Appends the entries of `leaf` whose keys lie in `[start, end]`.
pub fn collect_range(leaf: &LeafNode, start: &[u8], end: &[u8], out: &mut Vec<(Vec<u8>, PageId)>)
    ensures
        pair_seqs(final(out)@) == pair_seqs(old(out)@) + leaf_range(key_seqs(leaf.keys@), leaf.values@, start@, end@),
{
    let ghost ks = key_seqs(leaf.keys@);
    let n: usize = if leaf.keys.len() <= leaf.values.len() { leaf.keys.len() } else { leaf.values.len() };
    let mut i: usize = 0;
    while i < n
        invariant
            0 <= i <= n,
            n <= leaf.keys@.len(),
            n <= leaf.values@.len(),
            ks == key_seqs(leaf.keys@),
            pair_seqs(out@) == pair_seqs(old(out)@) + range_upto(ks, leaf.values@, start@, end@, i as nat),
        decreases n - i,
    {
        let k = leaf.keys[i].as_slice();
        let ghost before = out@;
        if !bytes_less(k, start) && !bytes_less(end, k) {
            let copied = copy_range(k, 0, k.len());
            proof {
                assert(k@.subrange(0, k@.len() as int) =~= k@);
            }
            out.push((copied, leaf.values[i]));
            proof {
                assert(pair_seqs(out@) =~= pair_seqs(before).push((ks[i as int], leaf.values@[i as int])));
            }
        }
        i = i + 1;
    }
}

/// Puts `key` with `value` into a leaf at its sorted place (after the keys
/// that sort no later) and counts it.
pub fn leaf_insert(leaf: &mut LeafNode, key: Vec<u8>, value: PageId)
    requires
        child_index(key_seqs(old(leaf).keys@), key@) <= old(leaf).values@.len(),
        old(leaf).header.key_count < u16::MAX,
    ensures
        key_seqs(final(leaf).keys@) == key_seqs(old(leaf).keys@).insert(child_index(key_seqs(old(leaf).keys@), key@), key@),
        final(leaf).values@ == old(leaf).values@.insert(child_index(key_seqs(old(leaf).keys@), key@), value),
        final(leaf).header.key_count == old(leaf).header.key_count + 1,
        final(leaf).header.is_leaf == old(leaf).header.is_leaf,
        final(leaf).header.parent == old(leaf).header.parent,
        final(leaf).next == old(leaf).next,
{
    insert_sorted(&mut leaf.keys, &mut leaf.values, key, value);
    leaf.header.key_count = leaf.header.key_count + 1;
}

/// An insert into a leaf: the leaf with the key in place, and whether it now
/// holds more than `MAX_KEYS` keys and must split.
pub fn leaf_insert_step(leaf: LeafNode, key: Vec<u8>, value: PageId) -> (r: (LeafNode, bool))
    requires
        child_index(key_seqs(leaf.keys@), key@) <= leaf.values@.len(),
        leaf.header.key_count < u16::MAX,
    ensures
        key_seqs(r.0.keys@) == key_seqs(leaf.keys@).insert(child_index(key_seqs(leaf.keys@), key@), key@),
        r.0.values@ == leaf.values@.insert(child_index(key_seqs(leaf.keys@), key@), value),
        r.0.header.key_count == leaf.header.key_count + 1,
        r.0.header.is_leaf == leaf.header.is_leaf,
        r.0.header.parent == leaf.header.parent,
        r.0.next == leaf.next,
        r.1 == (leaf.keys@.len() + 1 > MAX_KEYS),
{
    let mut leaf = leaf;
    let ghost n = leaf.keys@.len();
    proof {
        lemma_child_index_bounds(key_seqs(leaf.keys@), key@);
    }
    leaf_insert(&mut leaf, key, value);
    proof {
        assert(key_seqs(leaf.keys@).len() == n + 1);
    }
    let split = leaf.keys.len() > MAX_KEYS;
    (leaf, split)
}

/// Splits a leaf in the middle: the left half stays on its page and links to
/// the new page `new_leaf_id`, which takes the right half; the first key of
/// the right half separates them in the parent.
pub fn split_leaf(leaf: LeafNode, new_leaf_id: PageId) -> (r: (LeafNode, LeafNode, Vec<u8>))
    requires
        leaf.keys@.len() >= 1,
        leaf.keys@.len() / 2 <= leaf.values@.len(),
    ensures
        ({
            let (left, right, sep) = r;
            let mid = (leaf.keys@.len() / 2) as int;
            &&& left.keys@ == leaf.keys@.subrange(0, mid)
            &&& left.values@ == leaf.values@.subrange(0, mid)
            &&& left.next == Some(new_leaf_id)
            &&& left.header == NodeHeader { key_count: mid as u16, ..leaf.header }
            &&& right.keys@ == leaf.keys@.subrange(mid, leaf.keys@.len() as int)
            &&& right.values@ == leaf.values@.subrange(mid, leaf.values@.len() as int)
            &&& right.next == leaf.next
            &&& right.header == NodeHeader {
                is_leaf: true,
                key_count: (leaf.keys@.len() - mid) as u16,
                parent: leaf.header.parent,
            }
            &&& sep@ == leaf.keys@[mid]@
        }),
{
    let mid = leaf.keys.len() / 2;
    let count = leaf.keys.len() - mid;
    let LeafNode { header, next, keys, values } = leaf;
    let mut left_keys = keys;
    let mut left_values = values;
    let right_keys = left_keys.split_off(mid);
    let right_values = left_values.split_off(mid);
    let sep = copy_range(right_keys[0].as_slice(), 0, right_keys[0].len());
    proof {
        assert(right_keys@[0]@.subrange(0, right_keys@[0]@.len() as int) =~= right_keys@[0]@);
    }
    let right = LeafNode {
        header: NodeHeader { is_leaf: true, key_count: count as u16, parent: header.parent },
        next,
        keys: right_keys,
        values: right_values,
    };
    let left = LeafNode {
        header: NodeHeader { key_count: mid as u16, ..header },
        next: Some(new_leaf_id),
        keys: left_keys,
        values: left_values,
    };
    (left, right, sep)
}

/// Puts a separator `key` and the page `right` to its right into an
/// internal node, and counts the key.
pub fn internal_insert(node: &mut InternalNode, key: Vec<u8>, right: PageId)
    requires
        child_index(key_seqs(old(node).keys@), key@) < old(node).children@.len(),
        old(node).header.key_count < u16::MAX,
    ensures
        key_seqs(final(node).keys@) == key_seqs(old(node).keys@).insert(child_index(key_seqs(old(node).keys@), key@), key@),
        final(node).children@ == old(node).children@.insert(child_index(key_seqs(old(node).keys@), key@) + 1, right),
        final(node).header == (NodeHeader { key_count: (old(node).header.key_count + 1) as u16, ..old(node).header }),
{
    let pos = find_child(node.keys.as_slice(), key.as_slice());
    let ghost old_keys = key_seqs(node.keys@);
    let ghost kv = key@;
    assert(pos < node.children.len());
    let at = pos + 1;
    node.keys.insert(pos, key);
    node.children.insert(at, right);
    node.header.key_count = node.header.key_count + 1;
    proof {
        assert(key_seqs(node.keys@) =~= old_keys.insert(pos as int, kv));
    }
}

/// An insert into an internal node: the node with the key and the new right
/// child in place, and whether it now holds more than `MAX_KEYS` keys and must split.
pub fn internal_insert_step(node: InternalNode, key: Vec<u8>, right: PageId) -> (r: (InternalNode, bool))
    requires
        child_index(key_seqs(node.keys@), key@) < node.children@.len(),
        node.header.key_count < u16::MAX,
    ensures
        key_seqs(r.0.keys@) == key_seqs(node.keys@).insert(child_index(key_seqs(node.keys@), key@), key@),
        r.0.children@ == node.children@.insert(child_index(key_seqs(node.keys@), key@) + 1, right),
        r.0.header == (NodeHeader { key_count: (node.header.key_count + 1) as u16, ..node.header }),
        r.1 == (node.keys@.len() + 1 > MAX_KEYS),
{
    let mut node = node;
    let ghost n = node.keys@.len();
    proof {
        lemma_child_index_bounds(key_seqs(node.keys@), key@);
    }
    internal_insert(&mut node, key, right);
    proof {
        assert(key_seqs(node.keys@).len() == n + 1);
    }
    let split = node.keys.len() > MAX_KEYS;
    (node, split)
}

/// Splits an internal node in the middle: the middle key moves up to the
/// parent, the keys and children right of it go to a new node.
pub fn split_internal(node: InternalNode) -> (r: (InternalNode, InternalNode, Vec<u8>))
    requires
        node.keys@.len() >= 1,
        node.keys@.len() / 2 + 1 <= node.children@.len(),
    ensures
        ({
            let (left, right, promote) = r;
            let mid = (node.keys@.len() / 2) as int;
            &&& left.keys@ == node.keys@.subrange(0, mid)
            &&& left.children@ == node.children@.subrange(0, mid + 1)
            &&& left.header == NodeHeader { key_count: mid as u16, ..node.header }
            &&& right.keys@ == node.keys@.subrange(mid + 1, node.keys@.len() as int)
            &&& right.children@ == node.children@.subrange(mid + 1, node.children@.len() as int)
            &&& right.header == NodeHeader {
                is_leaf: false,
                key_count: (node.keys@.len() - mid - 1) as u16,
                parent: node.header.parent,
            }
            &&& promote@ == node.keys@[mid]@
        }),
{
    let mid = node.keys.len() / 2;
    let count = node.keys.len() - mid - 1;
    let InternalNode { header, keys, children } = node;
    let mut left_keys = keys;
    let mut left_children = children;
    let mut right_keys = left_keys.split_off(mid);
    let right_children = left_children.split_off(mid + 1);
    let promote = right_keys.remove(0);
    let right = InternalNode {
        header: NodeHeader { is_leaf: false, key_count: count as u16, parent: header.parent },
        keys: right_keys,
        children: right_children,
    };
    let left = InternalNode {
        header: NodeHeader { key_count: mid as u16, ..header },
        keys: left_keys,
        children: left_children,
    };
    proof {
        assert(right.keys@ =~= node.keys@.subrange(mid + 1, node.keys@.len() as int));
    }
    (left, right, promote)
}

/// A new root over two pages, separated by `key`.
pub fn new_root(left: PageId, key: Vec<u8>, right: PageId) -> (r: InternalNode)
    ensures
        r.header == (NodeHeader { is_leaf: false, key_count: 1, parent: None }),
        key_seqs(r.keys@) == seq![key@],
        r.children@ == seq![left, right],
{
    let ghost kv = key@;
    let r = InternalNode {
        header: NodeHeader { is_leaf: false, key_count: 1, parent: None },
        keys: vec![key],
        children: vec![left, right],
    };
    proof {
        assert(key_seqs(r.keys@) =~= seq![kv]);
    }
    r
}

/// Keys in strictly increasing order: each key at most once.
pub open spec fn strictly_sorted(keys: Seq<Seq<u8>>) -> bool {
    forall|i: int, j: int| 0 <= i < j < keys.len() ==> bytes_lt(keys[i], keys[j])
}

proof fn lemma_lookup_none(keys: Seq<Seq<u8>>, values: Seq<u64>, key: Seq<u8>)
    requires
        forall|j: int| 0 <= j < keys.len() ==> keys[j] != key,
    ensures
        leaf_lookup(keys, values, key) is None,
{
    if exists|i: int| is_first_match(keys, key, i) {
        let i = choose|i: int| is_first_match(keys, key, i);
        assert(keys[i] == key);
    }
}

proof fn lemma_first_match_exists(keys: Seq<Seq<u8>>, key: Seq<u8>, w: int)
    requires
        0 <= w < keys.len(),
        keys[w] == key,
    ensures
        exists|i: int| is_first_match(keys, key, i),
    decreases w,
{
    if exists|j: int| 0 <= j < w && keys[j] == key {
        let j = choose|j: int| 0 <= j < w && keys[j] == key;
        lemma_first_match_exists(keys, key, j);
    } else {
        assert(is_first_match(keys, key, w));
    }
}

/// Inserting into a sorted leaf: a key the leaf lacked is then found with
/// the new value; for a key it had, a lookup still finds the old value
/// (the new entry goes after the equal ones).
pub proof fn lemma_leaf_insert_then_lookup(keys: Seq<Seq<u8>>, values: Seq<u64>, key: Seq<u8>, value: u64)
    requires
        sorted_keys(keys),
        keys.len() == values.len(),
    ensures
        ({
            let pos = child_index(keys, key);
            let new_lookup = leaf_lookup(keys.insert(pos, key), values.insert(pos, value), key);
            &&& !keys.contains(key) ==> new_lookup == Some(value)
            &&& keys.contains(key) ==> new_lookup == leaf_lookup(keys, values, key)
        }),
{
    let pos = child_index(keys, key);
    let nk = keys.insert(pos, key);
    let nv = values.insert(pos, value);
    lemma_child_index_bounds(keys, key);
    lemma_bytes_lt_irreflexive(key);
    if !keys.contains(key) {
        assert forall|j: int| 0 <= j < pos implies nk[j] != key by {
            assert(nk[j] == keys[j]);
        }
        assert(is_first_match(nk, key, pos));
        lemma_first_match_unique(nk, key, pos);
    } else {
        assert forall|j: int| pos <= j < keys.len() implies keys[j] != key by {
            if j > pos {
                crate::keys::lemma_lt_le(key, keys[pos], keys[j]);
            }
        }
        let w = choose|w: int| 0 <= w < keys.len() && keys[w] == key;
        lemma_first_match_exists(keys, key, w);
        let i = choose|i: int| is_first_match(keys, key, i);
        lemma_first_match_unique(keys, key, i);
        assert(i < pos);
        assert forall|j: int| 0 <= j < i implies nk[j] != key by {
            assert(nk[j] == keys[j]);
        }
        assert(nk[i] == keys[i]);
        assert(is_first_match(nk, key, i));
        lemma_first_match_unique(nk, key, i);
        assert(nv[i] == values[i]);
    }
}

/// Splitting a leaf whose keys are strictly sorted does not change what a
/// search finds: a key below the separator is looked up in the left half,
/// any other in the right half, and either gives what the whole leaf gave.
pub proof fn lemma_split_leaf_keeps_lookup(keys: Seq<Seq<u8>>, values: Seq<u64>, key: Seq<u8>)
    requires
        strictly_sorted(keys),
        keys.len() == values.len(),
        keys.len() >= 1,
    ensures
        ({
            let mid = (keys.len() / 2) as int;
            let whole = leaf_lookup(keys, values, key);
            &&& bytes_lt(key, keys[mid]) ==> leaf_lookup(keys.subrange(0, mid), values.subrange(0, mid), key) == whole
            &&& !bytes_lt(key, keys[mid]) ==> leaf_lookup(
                keys.subrange(mid, keys.len() as int),
                values.subrange(mid, values.len() as int),
                key,
            ) == whole
        }),
{
    let mid = (keys.len() / 2) as int;
    let lk = keys.subrange(0, mid);
    let lv = values.subrange(0, mid);
    let rk = keys.subrange(mid, keys.len() as int);
    let rv = values.subrange(mid, values.len() as int);
    lemma_bytes_lt_irreflexive(key);
    if bytes_lt(key, keys[mid]) {
        assert forall|j: int| mid <= j < keys.len() implies keys[j] != key by {
            if j > mid {
                lemma_bytes_lt_transitive(key, keys[mid], keys[j]);
            }
        }
        if exists|i: int| is_first_match(keys, key, i) {
            let i = choose|i: int| is_first_match(keys, key, i);
            assert(i < mid);
            assert(is_first_match(lk, key, i));
            lemma_first_match_unique(lk, key, i);
            lemma_first_match_unique(keys, key, i);
        } else {
            assert forall|j: int| 0 <= j < lk.len() implies lk[j] != key by {
                if keys[j] == key {
                    lemma_first_match_exists(keys, key, j);
                }
            }
            lemma_lookup_none(lk, lv, key);
        }
    } else {
        assert forall|j: int| 0 <= j < mid implies keys[j] != key by {
            lemma_bytes_lt_total(key, keys[mid]);
            if keys[mid] != key {
                lemma_bytes_lt_transitive(keys[j], keys[mid], key);
            }
        }
        if exists|i: int| is_first_match(keys, key, i) {
            let i = choose|i: int| is_first_match(keys, key, i);
            assert(i >= mid);
            assert forall|j: int| 0 <= j < i - mid implies rk[j] != key by {
                assert(rk[j] == keys[j + mid]);
            }
            assert(is_first_match(rk, key, i - mid));
            lemma_first_match_unique(rk, key, i - mid);
            lemma_first_match_unique(keys, key, i);
            assert(rv[i - mid] == values[i]);
        } else {
            assert forall|j: int| 0 <= j < rk.len() implies rk[j] != key by {
                assert(rk[j] == keys[j + mid]);
                if keys[j + mid] == key {
                    lemma_first_match_exists(keys, key, j + mid);
                }
            }
            lemma_lookup_none(rk, rv, key);
        }
    }
}

proof fn lemma_range_prefix(keys: Seq<Seq<u8>>, values: Seq<u64>, start: Seq<u8>, end: Seq<u8>, m: int, n: nat)
    requires
        n <= m <= keys.len(),
        m <= values.len(),
    ensures
        range_upto(keys.subrange(0, m), values.subrange(0, m), start, end, n) == range_upto(keys, values, start, end, n),
    decreases n,
{
    if n > 0 {
        lemma_range_prefix(keys, values, start, end, m, (n - 1) as nat);
    }
}

proof fn lemma_range_concat(keys: Seq<Seq<u8>>, values: Seq<u64>, start: Seq<u8>, end: Seq<u8>, m: int, n: nat)
    requires
        0 <= m <= n <= keys.len(),
        n <= values.len(),
    ensures
        range_upto(keys, values, start, end, n) == range_upto(keys.subrange(0, m), values.subrange(0, m), start, end, m as nat)
            + range_upto(keys.subrange(m, keys.len() as int), values.subrange(m, values.len() as int), start, end, (n - m) as nat),
    decreases n,
{
    let rk = keys.subrange(m, keys.len() as int);
    let rv = values.subrange(m, values.len() as int);
    if n == m {
        lemma_range_prefix(keys, values, start, end, m, m as nat);
        assert(range_upto(rk, rv, start, end, 0) == Seq::<(Seq<u8>, u64)>::empty());
        assert(range_upto(keys, values, start, end, n) =~= range_upto(keys.subrange(0, m), values.subrange(0, m), start, end, m as nat)
            + Seq::<(Seq<u8>, u64)>::empty());
    } else {
        lemma_range_concat(keys, values, start, end, m, (n - 1) as nat);
        assert(rk[n - m - 1] == keys[n - 1]);
        assert(rv[n - m - 1] == values[n - 1]);
        let a = range_upto(keys.subrange(0, m), values.subrange(0, m), start, end, m as nat);
        let b = range_upto(rk, rv, start, end, (n - m - 1) as nat);
        assert((a + b).push((keys[n - 1], values[n - 1])) =~= a + b.push((keys[n - 1], values[n - 1])));
    }
}

/// Splitting a leaf does not change what a range scan gives: the left
/// half's entries followed by the right half's are the whole leaf's.
pub proof fn lemma_split_leaf_keeps_range(keys: Seq<Seq<u8>>, values: Seq<u64>, start: Seq<u8>, end: Seq<u8>)
    requires
        keys.len() == values.len(),
    ensures
        ({
            let mid = (keys.len() / 2) as int;
            leaf_range(keys.subrange(0, mid), values.subrange(0, mid), start, end)
                + leaf_range(keys.subrange(mid, keys.len() as int), values.subrange(mid, values.len() as int), start, end)
                == leaf_range(keys, values, start, end)
        }),
{
    let mid = (keys.len() / 2) as int;
    lemma_range_concat(keys, values, start, end, mid, keys.len());
}

} // verus!
