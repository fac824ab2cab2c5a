//! B+Tree nodes and their layout inside a page payload.
//!
//! Payload layout (little endian):
//! `key count (2) | parent flag (1) [parent id (8)] |`
//! leaf: `next flag (1) [next id (8)] | (key len (2) | key | value (8))*`
//! internal: `first child (8) | (key len (2) | key | child (8))*`

use vstd::prelude::*;
use vstd::bytes::*;
use vstd::slice::slice_subrange;
use vstd::string::*;
use crate::error::{DbError, Result};
use crate::page::{Page, PageId, PageType};
use crate::bytes::{push_slice, copy_range, lemma_sub_of_sub};
use crate::keys::key_seqs;

verus! {

/// Most keys a node holds before it splits.
pub const MAX_KEYS: usize = 128;

#[derive(Debug, Clone, Copy)]
pub struct NodeHeader {
    pub is_leaf: bool,
    pub key_count: u16,
    pub parent: Option<PageId>,
}

#[derive(Debug, Clone)]
pub struct LeafNode {
    pub header: NodeHeader,
    /// The leaf to the right, for range scans.
    pub next: Option<PageId>,
    pub keys: Vec<Vec<u8>>,
    pub values: Vec<PageId>,
}

#[derive(Debug, Clone)]
pub struct InternalNode {
    pub header: NodeHeader,
    pub keys: Vec<Vec<u8>>,
    pub children: Vec<PageId>,
}

#[derive(Debug, Clone)]
pub enum Node {
    Leaf(LeafNode),
    Internal(InternalNode),
}

/// What a node holds, as mathematical values. For a leaf `ptrs` are the
/// values; for an internal node they are the children (first child first).
pub ghost struct NodeImage {
    pub is_leaf: bool,
    pub key_count: u16,
    pub parent: Option<u64>,
    pub next: Option<u64>,
    pub keys: Seq<Seq<u8>>,
    pub ptrs: Seq<u64>,
}

impl Node {
    pub open spec fn image(&self) -> NodeImage {
        match self {
            Node::Leaf(l) => NodeImage {
                is_leaf: true,
                key_count: l.header.key_count,
                parent: l.header.parent,
                next: l.next,
                keys: key_seqs(l.keys@),
                ptrs: l.values@,
            },
            Node::Internal(n) => NodeImage {
                is_leaf: false,
                key_count: n.header.key_count,
                parent: n.header.parent,
                next: None,
                keys: key_seqs(n.keys@),
                ptrs: n.children@,
            },
        }
    }

    /// The header flag agrees with the variant.
    pub open spec fn header_consistent(&self) -> bool {
        match self {
            Node::Leaf(l) => l.header.is_leaf,
            Node::Internal(n) => !n.header.is_leaf,
        }
    }
    /// Sets the node's parent link; nothing else changes.
    pub fn set_parent_link(&mut self, parent: PageId)
        ensures
            final(self).image() == (NodeImage { parent: Some(parent), ..old(self).image() }),
            final(self).header_consistent() == old(self).header_consistent(),
    {
        match self {
            Node::Leaf(l) => {
                l.header.parent = Some(parent);
            },
            Node::Internal(n) => {
                n.header.parent = Some(parent);
            },
        }
    }
}

pub open spec fn le16_at(p: Seq<u8>, c: int) -> u16 {
    spec_u16_from_le_bytes(p.subrange(c, c + 2))
}

pub open spec fn le64_at(p: Seq<u8>, c: int) -> u64 {
    spec_u64_from_le_bytes(p.subrange(c, c + 8))
}

/// An optional page id at cursor `c`: its value and the cursor after it.
/// A present id is a non-zero flag byte and 8 bytes; anything else reads
/// as absent and takes one byte.
pub open spec fn decode_link(p: Seq<u8>, c: int) -> (Option<u64>, int) {
    if c + 9 <= p.len() && p[c] != 0 {
        (Some(le64_at(p, c + 1)), c + 9)
    } else {
        (None, c + 1)
    }
}

/// `n` entries `key len | key | id` from cursor `c`, `None` where the payload ends early.
pub open spec fn decode_entries(p: Seq<u8>, c: int, n: nat) -> Option<(Seq<Seq<u8>>, Seq<u64>)>
    decreases n,
{
    if n == 0 {
        Some((Seq::empty(), Seq::empty()))
    } else if c + 2 > p.len() {
        None
    } else {
        let c2 = c + 2;
        let c3 = c2 + le16_at(p, c) as int;
        if c3 > p.len() {
            None
        } else if c3 + 8 > p.len() {
            None
        } else {
            match decode_entries(p, c3 + 8, (n - 1) as nat) {
                None => None,
                Some((ks, vs)) => Some((seq![p.subrange(c2, c3)] + ks, seq![le64_at(p, c3)] + vs)),
            }
        }
    }
}

/// The node a page of this type and payload holds, `None` where it holds none.
pub open spec fn btree_decode(t: PageType, p: Seq<u8>) -> Option<NodeImage> {
    if t != PageType::BTreeLeaf && t != PageType::BTreeInternal {
        None
    } else if 2 > p.len() {
        None
    } else {
        let kc = le16_at(p, 0);
        let (parent, c1) = decode_link(p, 2);
        if t == PageType::BTreeLeaf {
            let (next, c2) = decode_link(p, c1);
            match decode_entries(p, c2, kc as nat) {
                None => None,
                Some((ks, vs)) => Some(
                    NodeImage { is_leaf: true, key_count: kc, parent, next, keys: ks, ptrs: vs },
                ),
            }
        } else if c1 + 8 > p.len() {
            None
        } else {
            match decode_entries(p, c1 + 8, kc as nat) {
                None => None,
                Some((ks, cs)) => Some(
                    NodeImage {
                        is_leaf: false,
                        key_count: kc,
                        parent,
                        next: None,
                        keys: ks,
                        ptrs: seq![le64_at(p, c1)] + cs,
                    },
                ),
            }
        }
    }
}

pub open spec fn encode_link(o: Option<u64>) -> Seq<u8> {
    match o {
        None => seq![0u8],
        Some(x) => seq![1u8] + spec_u64_to_le_bytes(x),
    }
}

/// The stored length of a key: its length, capped at 65535.
pub open spec fn key_len_code(k: Seq<u8>) -> u16 {
    if k.len() > 65535 {
        65535u16
    } else {
        k.len() as u16
    }
}

pub open spec fn encode_entry(k: Seq<u8>, v: u64) -> Seq<u8> {
    spec_u16_to_le_bytes(key_len_code(k)) + k + spec_u64_to_le_bytes(v)
}

/// The entries of pairs `(keys[i], ids[i])`, as many as the shorter list holds.
pub open spec fn encode_entries(ks: Seq<Seq<u8>>, vs: Seq<u64>) -> Seq<u8>
    decreases ks.len(),
{
    if ks.len() == 0 || vs.len() == 0 {
        Seq::empty()
    } else {
        encode_entry(ks[0], vs[0]) + encode_entries(ks.drop_first(), vs.drop_first())
    }
}

/// The payload a node is stored as.
pub open spec fn btree_encode(n: NodeImage) -> Seq<u8> {
    let head = spec_u16_to_le_bytes(n.key_count) + encode_link(n.parent);
    if n.is_leaf {
        head + encode_link(n.next) + encode_entries(n.keys, n.ptrs)
    } else {
        head + spec_u64_to_le_bytes(n.ptrs[0]) + encode_entries(n.keys, n.ptrs.drop_first())
    }
}

/// A node that reads back as itself: the count matches the keys, there is
/// one id per key (one more child than keys in an internal node), keys fit
/// their 2-byte length, and an internal node has no right link.
pub open spec fn node_image_well_formed(n: NodeImage) -> bool {
    &&& n.key_count as int == n.keys.len()
    &&& if n.is_leaf {
        n.ptrs.len() == n.keys.len()
    } else {
        n.ptrs.len() == n.keys.len() + 1 && n.next is None
    }
    &&& forall|i: int| 0 <= i < n.keys.len() ==> #[trigger] n.keys[i].len() <= 65535
}

pub open spec fn node_page_type(n: NodeImage) -> PageType {
    if n.is_leaf {
        PageType::BTreeLeaf
    } else {
        PageType::BTreeInternal
    }
}

proof fn lemma_encode_entries_snoc(ks: Seq<Seq<u8>>, vs: Seq<u64>, i: int)
    requires
        0 <= i < ks.len(),
        i < vs.len(),
    ensures
        encode_entries(ks.take(i + 1), vs.take(i + 1)) == encode_entries(ks.take(i), vs.take(i))
            + encode_entry(ks[i], vs[i]),
    decreases i,
{
    if i == 0 {
        assert(ks.take(1).drop_first() =~= Seq::<Seq<u8>>::empty());
        assert(encode_entries(ks.take(0), vs.take(0)) =~= Seq::<u8>::empty());
        assert(encode_entries(ks.take(1).drop_first(), vs.take(1).drop_first()) =~= Seq::<u8>::empty());
        assert(encode_entries(ks.take(1), vs.take(1)) =~= encode_entry(ks[0], vs[0]));
    } else {
        lemma_encode_entries_snoc(ks.drop_first(), vs.drop_first(), i - 1);
        assert(ks.take(i + 1).drop_first() =~= ks.drop_first().take(i));
        assert(vs.take(i + 1).drop_first() =~= vs.drop_first().take(i));
        assert(ks.take(i).drop_first() =~= ks.drop_first().take(i - 1));
        assert(vs.take(i).drop_first() =~= vs.drop_first().take(i - 1));
        assert(ks.drop_first()[i - 1] == ks[i]);
        assert(vs.drop_first()[i - 1] == vs[i]);
    }
}

proof fn lemma_encode_entries_full(ks: Seq<Seq<u8>>, vs: Seq<u64>, n: int)
    requires
        n == ks.len() || n == vs.len(),
        n <= ks.len(),
        n <= vs.len(),
    ensures
        encode_entries(ks.take(n), vs.take(n)) == encode_entries(ks, vs),
    decreases n,
{
    if n > 0 && ks.len() > 0 && vs.len() > 0 {
        lemma_encode_entries_full(ks.drop_first(), vs.drop_first(), n - 1);
        assert(ks.take(n).drop_first() =~= ks.drop_first().take(n - 1));
        assert(vs.take(n).drop_first() =~= vs.drop_first().take(n - 1));
    } else {
        assert(ks.take(n).len() == 0 || vs.take(n).len() == 0);
    }
}

/// Reads entries written by `encode_entries` back.
proof fn lemma_decode_entries(p: Seq<u8>, c: int, ks: Seq<Seq<u8>>, vs: Seq<u64>)
    requires
        ks.len() == vs.len(),
        forall|i: int| 0 <= i < ks.len() ==> #[trigger] ks[i].len() <= 65535,
        0 <= c,
        c + encode_entries(ks, vs).len() <= p.len(),
        p.subrange(c, c + encode_entries(ks, vs).len()) == encode_entries(ks, vs),
    ensures
        decode_entries(p, c, ks.len()) == Some((ks, vs)),
    decreases ks.len(),
{
    lemma_auto_spec_u16_to_from_le_bytes();
    lemma_auto_spec_u64_to_from_le_bytes();
    if ks.len() > 0 {
        let e = encode_entry(ks[0], vs[0]);
        let rest = encode_entries(ks.drop_first(), vs.drop_first());
        let whole = encode_entries(ks, vs);
        assert(whole == e + rest);
        let k = ks[0];
        assert(key_len_code(k) as int == k.len());
        assert(spec_u16_to_le_bytes(key_len_code(k)).len() == 2);
        assert(spec_u64_to_le_bytes(vs[0]).len() == 8);
        assert(e.len() == 2 + k.len() + 8);
        lemma_sub_of_sub(p, c, whole, 0, 2);
        assert(whole.subrange(0, 2) =~= spec_u16_to_le_bytes(key_len_code(k)));
        let kl = k.len() as int;
        lemma_sub_of_sub(p, c, whole, 2, 2 + kl);
        assert(whole.subrange(2, 2 + kl) =~= k);
        lemma_sub_of_sub(p, c, whole, 2 + kl, 2 + kl + 8);
        assert(whole.subrange(2 + kl, 2 + kl + 8) =~= spec_u64_to_le_bytes(vs[0]));
        assert(forall|i: int| 0 <= i < ks.drop_first().len() ==> #[trigger] ks.drop_first()[i] == ks[i + 1]);
        lemma_sub_of_sub(p, c, whole, e.len() as int, whole.len() as int);
        assert(whole.subrange(e.len() as int, whole.len() as int) =~= rest);
        lemma_decode_entries(p, c + e.len(), ks.drop_first(), vs.drop_first());
        assert(seq![k] + ks.drop_first() =~= ks);
        assert(seq![vs[0]] + vs.drop_first() =~= vs);
    }
}

/// The parent link that `read_parent` reads without decoding the node is
/// the parent that the full decode gives.
pub proof fn lemma_read_parent_agrees(t: PageType, p: Seq<u8>, n: NodeImage)
    requires
        btree_decode(t, p) == Some(n),
    ensures
        n.parent == (if (t == PageType::BTreeLeaf || t == PageType::BTreeInternal) && p.len() >= 11 && p[2] != 0 {
            Some(le64_at(p, 3))
        } else {
            None
        }),
{
}

/// A node written to a page reads back as the same node.
pub proof fn lemma_node_round_trip(n: NodeImage)
    requires
        node_image_well_formed(n),
    ensures
        btree_decode(node_page_type(n), btree_encode(n)) == Some(n),
{
    lemma_auto_spec_u16_to_from_le_bytes();
    lemma_auto_spec_u64_to_from_le_bytes();
    let p = btree_encode(n);
    assert(p.subrange(0, 2) =~= spec_u16_to_le_bytes(n.key_count));
    let c1 = match n.parent { None => 3int, Some(_) => 11int };
    match n.parent {
        None => {},
        Some(x) => {
            assert(p.subrange(3, 11) =~= spec_u64_to_le_bytes(x));
        },
    }
    assert(decode_link(p, 2) == (n.parent, c1));
    if n.is_leaf {
        let c2 = match n.next { None => c1 + 1, Some(_) => c1 + 9 };
        match n.next {
            None => {},
            Some(x) => {
                assert(p.subrange(c1 + 1, c1 + 9) =~= spec_u64_to_le_bytes(x));
            },
        }
        assert(decode_link(p, c1) == (n.next, c2));
        let ents = encode_entries(n.keys, n.ptrs);
        assert(p.subrange(c2, c2 + ents.len()) =~= ents);
        lemma_decode_entries(p, c2, n.keys, n.ptrs);
    } else {
        assert(p.subrange(c1, c1 + 8) =~= spec_u64_to_le_bytes(n.ptrs[0]));
        let ents = encode_entries(n.keys, n.ptrs.drop_first());
        assert(p.subrange(c1 + 8, c1 + 8 + ents.len()) =~= ents);
        lemma_decode_entries(p, c1 + 8, n.keys, n.ptrs.drop_first());
        assert(seq![n.ptrs[0]] + n.ptrs.drop_first() =~= n.ptrs);
    }
}

/// Reads an optional page id at `cursor`, as `decode_link` states.
fn read_link(p: &[u8], cursor: usize) -> (r: (Option<u64>, usize))
    requires
        cursor <= p@.len() + 1,
        p@.len() + 16 <= usize::MAX,
    ensures
        r.0 == decode_link(p@, cursor as int).0,
        r.1 as int == decode_link(p@, cursor as int).1,
        r.1 <= p@.len() + 2,
{
    let len = p.len();
    if cursor <= len && len - cursor >= 9 && p[cursor] != 0 {
        let v = u64_from_le_bytes(slice_subrange(p, cursor + 1, cursor + 9));
        (Some(v), cursor + 9)
    } else {
        (None, cursor + 1)
    }
}

/// Reads `n` entries from `cursor`, as `decode_entries` states; the error
/// names the field that ran past the payload.
fn read_entries(p: &[u8], cursor: usize, n: u16) -> (r: Result<(Vec<Vec<u8>>, Vec<u64>, usize)>)
    requires
        cursor <= p@.len() + 2,
        p@.len() + 16 <= usize::MAX,
    ensures
        decode_entries(p@, cursor as int, n as nat) is None <==> r is Err,
        r matches Ok((ks, vs, _)) ==> decode_entries(p@, cursor as int, n as nat) == Some((key_seqs(ks@), vs@)),
        r matches Err(e) ==> e is Corruption,
{
    let mut keys: Vec<Vec<u8>> = Vec::new();
    let mut values: Vec<u64> = Vec::new();
    let mut cur: usize = cursor;
    let mut i: u16 = 0;
    let len = p.len();
    while i < n
        invariant
            0 <= i <= n,
            len == p@.len(),
            cur <= len + 2,
            i > 0 ==> cur <= len,
            decode_entries(p@, cursor as int, n as nat) == match decode_entries(p@, cur as int, (n - i) as nat) {
                None => None,
                Some((ks, vs)) => Some((key_seqs(keys@) + ks, values@ + vs)),
            },
        decreases n - i,
    {
        let ghost before = decode_entries(p@, cur as int, (n - i) as nat);
        if cur > len || len - cur < 2 {
            return Err(DbError::Corruption(String::from_str("Truncated key length")));
        }
        let key_len = u16_from_le_bytes(slice_subrange(p, cur, cur + 2)) as usize;
        let c2 = cur + 2;
        if key_len > len - c2 {
            return Err(DbError::Corruption(String::from_str("Truncated key")));
        }
        let key = copy_range(p, c2, c2 + key_len);
        let c3 = c2 + key_len;
        if len - c3 < 8 {
            return Err(DbError::Corruption(String::from_str("Truncated value")));
        }
        let value = u64_from_le_bytes(slice_subrange(p, c3, c3 + 8));
        let ghost ks0 = key_seqs(keys@);
        let ghost vs0 = values@;
        keys.push(key);
        values.push(value);
        cur = c3 + 8;
        i = i + 1;
        proof {
            assert(key_seqs(keys@) =~= ks0.push(p@.subrange(c2 as int, c3 as int)));
            match decode_entries(p@, cur as int, (n - i) as nat) {
                None => {},
                Some((ks, vs)) => {
                    assert(ks0 + (seq![p@.subrange(c2 as int, c3 as int)] + ks) =~= key_seqs(keys@) + ks);
                    assert(vs0 + (seq![value] + vs) =~= values@ + vs);
                },
            }
        }
    }
    proof {
        assert(key_seqs(keys@) + Seq::<Seq<u8>>::empty() =~= key_seqs(keys@));
        assert(values@ + Seq::<u64>::empty() =~= values@);
    }
    Ok((keys, values, cur))
}

fn push_link(buf: &mut Vec<u8>, link: Option<u64>)
    ensures
        final(buf)@ == old(buf)@ + encode_link(link),
{
    match link {
        Some(x) => {
            buf.push(1u8);
            let mut b = u64_to_le_bytes(x);
            buf.append(&mut b);
        },
        None => {
            buf.push(0u8);
        },
    }
    proof {
        assert(final(buf)@ =~= old(buf)@ + encode_link(link));
    }
}

/// Writes the pairs `(keys[i], ids[i])`, as many as the shorter list holds.
fn push_entries(buf: &mut Vec<u8>, keys: &Vec<Vec<u8>>, ids: &[u64])
    ensures
        final(buf)@ == old(buf)@ + encode_entries(key_seqs(keys@), ids@),
{
    let n = if keys.len() < ids.len() { keys.len() } else { ids.len() };
    let ghost ks = key_seqs(keys@);
    let mut i: usize = 0;
    while i < n
        invariant
            0 <= i <= n,
            n <= keys@.len(),
            n <= ids@.len(),
            n == keys@.len() || n == ids@.len(),
            ks == key_seqs(keys@),
            buf@ == old(buf)@ + encode_entries(ks.take(i as int), ids@.take(i as int)),
        decreases n - i,
    {
        let key = &keys[i];
        let key_len: u16 = if key.len() > 65535 { 65535 } else { key.len() as u16 };
        let ghost before = buf@;
        let mut l = u16_to_le_bytes(key_len);
        buf.append(&mut l);
        push_slice(buf, key.as_slice());
        let mut v = u64_to_le_bytes(ids[i]);
        buf.append(&mut v);
        proof {
            assert(ks[i as int] == key@);
            assert(buf@ =~= before + encode_entry(ks[i as int], ids@[i as int]));
            lemma_encode_entries_snoc(ks, ids@, i as int);
        }
        i = i + 1;
    }
    proof {
        lemma_encode_entries_full(ks, ids@, n as int);
    }
}

impl Page {
    /// The B+Tree node this page holds. A page of another type, or a payload
    /// that ends before the node does, is corruption.
    pub fn deserialize_btree(&self) -> (r: Result<Node>)
        requires
            self.payload@.len() <= isize::MAX,
        ensures
            r is Ok <==> btree_decode(self.header.page_type, self.payload@) is Some,
            r matches Ok(n) ==> btree_decode(self.header.page_type, self.payload@) == Some(n.image())
                && n.header_consistent(),
            r matches Err(e) ==> e is Corruption,
    {
        let t = self.header.page_type;
        if t != PageType::BTreeLeaf && t != PageType::BTreeInternal {
            return Err(DbError::Corruption(String::from_str("Not a BTree page")));
        }
        let is_leaf = t == PageType::BTreeLeaf;
        let p = self.payload.as_slice();
        if 2 > p.len() {
            return Err(DbError::Corruption(String::from_str("Truncated BTree page")));
        }
        let key_count = u16_from_le_bytes(slice_subrange(p, 0, 2));
        let (parent, c1) = read_link(p, 2);
        let header = NodeHeader { is_leaf, key_count, parent };
        if is_leaf {
            let (next, c2) = read_link(p, c1);
            match read_entries(p, c2, key_count) {
                Ok((keys, values, _)) => Ok(Node::Leaf(LeafNode { header, next, keys, values })),
                Err(e) => Err(e),
            }
        } else {
            if c1 > p.len() || p.len() - c1 < 8 {
                return Err(DbError::Corruption(String::from_str("Truncated first child")));
            }
            let first = u64_from_le_bytes(slice_subrange(p, c1, c1 + 8));
            match read_entries(p, c1 + 8, key_count) {
                Ok((keys, rest, _)) => {
                    let mut children: Vec<u64> = Vec::new();
                    children.push(first);
                    let mut rest = rest;
                    let ghost rv = rest@;
                    children.append(&mut rest);
                    proof {
                        assert(children@ =~= seq![first] + rv);
                    }
                    Ok(Node::Internal(InternalNode { header, keys, children }))
                },
                Err(e) => Err(e),
            }
        }
    }

    /// Writes a node into the page: its type becomes the node's, its payload
    /// the node's layout, and its payload length the payload's length.
    pub fn serialize_btree(&mut self, node: &Node) -> (r: Result<()>)
        requires
            node matches Node::Internal(n) ==> n.children@.len() > 0,
        ensures
            r is Ok,
            final(self).payload@ == btree_encode(node.image()),
            final(self).header.page_type == node_page_type(node.image()),
            final(self).header.payload_len == final(self).payload@.len() as u32,
            final(self).header.flags == old(self).header.flags,
            final(self).header.page_id == old(self).header.page_id,
            final(self).header.lsn == old(self).header.lsn,
    {
        let mut buf: Vec<u8> = Vec::new();
        match node {
            Node::Leaf(leaf) => {
                self.header.page_type = PageType::BTreeLeaf;
                let mut kc = u16_to_le_bytes(leaf.header.key_count);
                buf.append(&mut kc);
                push_link(&mut buf, leaf.header.parent);
                push_link(&mut buf, leaf.next);
                push_entries(&mut buf, &leaf.keys, leaf.values.as_slice());
                proof {
                    assert(buf@ =~= btree_encode(node.image()));
                }
            },
            Node::Internal(internal) => {
                self.header.page_type = PageType::BTreeInternal;
                let mut kc = u16_to_le_bytes(internal.header.key_count);
                buf.append(&mut kc);
                push_link(&mut buf, internal.header.parent);
                let mut first = u64_to_le_bytes(internal.children[0]);
                buf.append(&mut first);
                let rest = slice_subrange(internal.children.as_slice(), 1, internal.children.len());
                push_entries(&mut buf, &internal.keys, rest);
                proof {
                    assert(rest@ =~= internal.children@.drop_first());
                    assert(buf@ =~= btree_encode(node.image()));
                }
            },
        }
        self.payload = buf;
        self.header.payload_len = self.payload.len() as u32;
        Ok(())
    }

    /// The parent id stored in a B+Tree page, if the page holds one.
    pub fn read_parent(&self) -> (r: Option<PageId>)
        ensures
            r == (if (self.header.page_type == PageType::BTreeLeaf
                || self.header.page_type == PageType::BTreeInternal) && self.payload@.len() >= 11
                && self.payload@[2] != 0 {
                Some(le64_at(self.payload@, 3))
            } else {
                None
            }),
    {
        let t = self.header.page_type;
        if t != PageType::BTreeLeaf && t != PageType::BTreeInternal {
            return None;
        }
        if self.payload.len() < 3 {
            return None;
        }
        if self.payload[2] != 0 && self.payload.len() >= 11 {
            Some(u64_from_le_bytes(slice_subrange(self.payload.as_slice(), 3, 11)))
        } else {
            None
        }
    }

    /// Marks the parent as present and stores its id in bytes 3..11 of the
    /// payload, growing a shorter payload to 11 bytes with zeros.
    pub fn write_parent(&mut self, parent: PageId) -> (r: Result<()>)
        ensures
            old(self).header.page_type != PageType::BTreeLeaf && old(self).header.page_type
                != PageType::BTreeInternal ==> (r matches Err(DbError::Internal(_)) && *final(self) == *old(self)),
            (old(self).header.page_type == PageType::BTreeLeaf || old(self).header.page_type
                == PageType::BTreeInternal) && old(self).payload@.len() < 3 ==> (r matches Err(
                DbError::Corruption(_),
            ) && *final(self) == *old(self)),
            (old(self).header.page_type == PageType::BTreeLeaf || old(self).header.page_type
                == PageType::BTreeInternal) && old(self).payload@.len() >= 3 ==> {
                &&& r is Ok
                &&& final(self).header == old(self).header
                &&& final(self).payload@ == {
                    let grown = if old(self).payload@.len() < 11 {
                        old(self).payload@ + Seq::new((11 - old(self).payload@.len()) as nat, |i: int| 0u8)
                    } else {
                        old(self).payload@
                    };
                    grown.subrange(0, 2) + seq![1u8] + spec_u64_to_le_bytes(parent) + grown.subrange(11, grown.len() as int)
                }
            },
    {
        let t = self.header.page_type;
        if t != PageType::BTreeLeaf && t != PageType::BTreeInternal {
            return Err(DbError::Internal(String::from_str("Not a BTree page")));
        }
        if self.payload.len() < 3 {
            return Err(DbError::Corruption(String::from_str("Page too small for parent")));
        }
        let ghost grown = if self.payload@.len() < 11 {
            self.payload@ + Seq::new((11 - self.payload@.len()) as nat, |i: int| 0u8)
        } else {
            self.payload@
        };
        while self.payload.len() < 11
            invariant
                old(self).payload@.len() < 11 ==> self.payload@.len() <= 11 && self.payload@ == grown.subrange(0, self.payload@.len() as int),
                old(self).payload@.len() >= 11 ==> self.payload@ == old(self).payload@,
                self.payload@.len() >= old(self).payload@.len(),
                self.payload@.len() >= 3,
                grown.len() >= 11,
                self.header == old(self).header,
                grown == (if old(self).payload@.len() < 11 {
                    old(self).payload@ + Seq::new((11 - old(self).payload@.len()) as nat, |i: int| 0u8)
                } else {
                    old(self).payload@
                }),
            decreases 11 - self.payload@.len(),
        {
            let ghost before = self.payload@;
            self.payload.push(0u8);
            proof {
                assert(grown[before.len() as int] == 0u8);
                assert(self.payload@ =~= grown.subrange(0, self.payload@.len() as int));
            }
        }
        proof {
            assert(self.payload@ =~= grown);
        }
        let bytes = u64_to_le_bytes(parent);
        self.payload.set(2, 1u8);
        let mut k: usize = 0;
        while k < 8
            invariant
                0 <= k <= 8,
                bytes@ == spec_u64_to_le_bytes(parent),
                bytes@.len() == 8,
                self.payload@.len() == grown.len(),
                grown.len() >= 11,
                self.payload@ == grown.subrange(0, 2) + seq![1u8] + bytes@.subrange(0, k as int)
                    + grown.subrange(3 + k, grown.len() as int),
                self.header == old(self).header,
            decreases 8 - k,
        {
            self.payload.set(3 + k, bytes[k]);
            k = k + 1;
            proof {
                assert(self.payload@ =~= grown.subrange(0, 2) + seq![1u8] + bytes@.subrange(0, k as int)
                    + grown.subrange(3 + k, grown.len() as int));
            }
        }
        proof {
            assert(bytes@.subrange(0, 8) =~= bytes@);
        }
        Ok(())
    }
}

/// After `write_parent` succeeds, `read_parent` gives the parent back.
pub proof fn lemma_write_then_read_parent(payload: Seq<u8>, grown: Seq<u8>, parent: u64)
    requires
        grown.len() >= 11,
        payload == grown.subrange(0, 2) + seq![1u8] + spec_u64_to_le_bytes(parent) + grown.subrange(11, grown.len() as int),
    ensures
        payload.len() >= 11,
        payload[2] != 0,
        le64_at(payload, 3) == parent,
{
    lemma_auto_spec_u64_to_from_le_bytes();
    assert(payload.subrange(3, 11) =~= spec_u64_to_le_bytes(parent));
}

} // verus!
