//! The storage engine's own formats: composite index keys and the version
//! chains stored in data pages.
//!
//! A composite key is `table name | 0 | key`. A stored chain is
//! `count (4) | (created_by (16) | 0, or 1 and deleted_by (16) | value length (4) | value)*`,
//! lengths little endian, transaction ids as their 16 bytes.

use vstd::prelude::*;
use vstd::bytes::*;
use vstd::slice::slice_subrange;
use vstd::string::*;
use crate::error::{DbError, Result};
use crate::tx::{TxId, uuid_from_slice, tx_le, lemma_same_bytes_same_id};
use crate::page::Page;
use crate::mvcc::{
    chain_after_insert, MvccTable, RowVersion, Transaction, VersionView, chain_view, copy_bytes, first_visible, is_visible, lemma_first_visible,
    visible_at,
};
use crate::bytes::{push_slice, copy_range, lemma_sub_of_sub};
use crate::wal::le32_at;

verus! {

/// The index key of `key` in table `table`.
pub open spec fn composite_key(table: Seq<u8>, key: Seq<u8>) -> Seq<u8> {
    table + seq![0u8] + key
}

/// The index key of `key` in the table named `table_name`.
pub fn create_composite_key(table_name: &str, key: &[u8]) -> (r: Vec<u8>)
    ensures
        r@ == composite_key(table_name.spec_bytes(), key@),
{
    let mut composite: Vec<u8> = Vec::new();
    push_slice(&mut composite, table_name.as_bytes());
    composite.push(0u8);
    push_slice(&mut composite, key);
    composite
}

/// The position of the first zero byte; the length when there is none.
pub open spec fn first_zero(s: Seq<u8>) -> int
    decreases s.len(),
{
    if s.len() == 0 {
        0
    } else if s[0] == 0 {
        0
    } else {
        1 + first_zero(s.drop_first())
    }
}

proof fn lemma_first_zero(s: Seq<u8>, i: int)
    requires
        0 <= i <= s.len(),
        forall|j: int| 0 <= j < i ==> s[j] != 0,
        i < s.len() ==> s[i] == 0,
    ensures
        first_zero(s) == i,
    decreases i,
{
    if i > 0 {
        assert forall|j: int| 0 <= j < i - 1 implies s.drop_first()[j] != 0 by {
            assert(s.drop_first()[j] == s[j + 1]);
        }
        lemma_first_zero(s.drop_first(), i - 1);
    }
}

fn find_zero(s: &[u8]) -> (r: usize)
    ensures
        r == first_zero(s@),
        r <= s@.len(),
{
    let mut i: usize = 0;
    while i < s.len()
        invariant
            0 <= i <= s@.len(),
            forall|j: int| 0 <= j < i ==> s@[j] != 0,
        decreases s@.len() - i,
    {
        if s[i] == 0 {
            proof {
                lemma_first_zero(s@, i as int);
            }
            return i;
        }
        i = i + 1;
    }
    proof {
        lemma_first_zero(s@, i as int);
    }
    i
}

/// The key part of a composite key: what follows the first zero byte.
/// `None` where there is no zero byte.
pub fn extract_key_from_composite(composite: &[u8]) -> (r: Option<&[u8]>)
    ensures
        first_zero(composite@) <= composite@.len(),
        first_zero(composite@) == composite@.len() ==> r is None,
        first_zero(composite@) < composite@.len() ==> (r matches Some(k) && k@ == composite@.subrange(
            first_zero(composite@) + 1,
            composite@.len() as int,
        )),
{
    let pos = find_zero(composite);
    if pos == composite.len() {
        return None;
    }
    Some(slice_subrange(composite, pos + 1, composite.len()))
}

/// The table name and key of a composite key. `None` where there is no zero
/// byte, the name is empty, or nothing follows the zero byte.
pub fn extract_key_from_composite_with_table(composite: &[u8]) -> (r: Option<(&[u8], &[u8])>)
    ensures
        ({
            let p = first_zero(composite@);
            let n = composite@.len() as int;
            if p == n || p == 0 || p >= n - 1 {
                r is None
            } else {
                r matches Some((t, k)) && t@ == composite@.subrange(0, p) && k@ == composite@.subrange(p + 1, n)
            }
        }),
{
    let pos = find_zero(composite);
    if pos == composite.len() {
        return None;
    }
    if pos == 0 || pos >= composite.len() - 1 {
        return None;
    }
    let table_name = slice_subrange(composite, 0, pos);
    let key = slice_subrange(composite, pos + 1, composite.len());
    Some((table_name, key))
}

/// A key put into a composite key with a table name free of zero bytes comes back out.
pub proof fn lemma_composite_round_trip(table: Seq<u8>, key: Seq<u8>)
    requires
        forall|i: int| 0 <= i < table.len() ==> table[i] != 0,
    ensures
        first_zero(composite_key(table, key)) == table.len(),
        composite_key(table, key).subrange(table.len() as int + 1, composite_key(table, key).len() as int) == key,
        composite_key(table, key).subrange(0, table.len() as int) == table,
{
    let c = composite_key(table, key);
    lemma_first_zero(c, table.len() as int);
    assert(c.subrange(table.len() as int + 1, c.len() as int) =~= key);
    assert(c.subrange(0, table.len() as int) =~= table);
}

/// A stored version as mathematical values: transaction ids as their bytes.
pub ghost struct VersionImage {
    pub created_by: Seq<u8>,
    pub deleted_by: Option<Seq<u8>>,
    pub value: Seq<u8>,
}

pub open spec fn version_image(v: VersionView) -> VersionImage {
    VersionImage {
        created_by: v.created_by.0@,
        deleted_by: match v.deleted_by {
            Some(d) => Some(d.0@),
            None => None,
        },
        value: v.value,
    }
}

pub open spec fn chain_images(c: Seq<VersionView>) -> Seq<VersionImage> {
    c.map_values(|v: VersionView| version_image(v))
}

pub open spec fn encode_version(v: VersionImage) -> Seq<u8> {
    v.created_by + (match v.deleted_by {
        None => seq![0u8],
        Some(d) => seq![1u8] + d,
    }) + spec_u32_to_le_bytes(v.value.len() as u32) + v.value
}

pub open spec fn encode_versions(vs: Seq<VersionImage>) -> Seq<u8>
    decreases vs.len(),
{
    if vs.len() == 0 {
        Seq::empty()
    } else {
        encode_version(vs[0]) + encode_versions(vs.drop_first())
    }
}

/// The payload a version chain is stored as.
pub open spec fn encode_chain(vs: Seq<VersionImage>) -> Seq<u8> {
    spec_u32_to_le_bytes(vs.len() as u32) + encode_versions(vs)
}

/// `n` versions from cursor `c`, `None` where the payload ends early.
/// A marker byte of 1 announces a deleting id; any other marker, none.
pub open spec fn decode_versions(p: Seq<u8>, c: int, n: nat) -> Option<Seq<VersionImage>>
    decreases n,
{
    if n == 0 {
        Some(Seq::empty())
    } else if c + 16 > p.len() {
        None
    } else if c + 16 >= p.len() {
        None
    } else if p[c + 16] == 1 && c + 33 > p.len() {
        None
    } else {
        let del = if p[c + 16] == 1 { Some(p.subrange(c + 17, c + 33)) } else { None };
        let c2 = if p[c + 16] == 1 { c + 33 } else { c + 17 };
        if c2 + 4 > p.len() {
            None
        } else {
            let vl = le32_at(p, c2) as int;
            if c2 + 4 + vl > p.len() {
                None
            } else {
                match decode_versions(p, c2 + 4 + vl, (n - 1) as nat) {
                    None => None,
                    Some(rest) => Some(
                        seq![VersionImage { created_by: p.subrange(c, c + 16), deleted_by: del, value: p.subrange(c2 + 4, c2 + 4 + vl) }]
                            + rest,
                    ),
                }
            }
        }
    }
}

/// The chain a data page payload holds; a payload shorter than a count holds none.
pub open spec fn decode_chain(p: Seq<u8>) -> Option<Seq<VersionImage>> {
    if p.len() < 4 {
        Some(Seq::empty())
    } else {
        decode_versions(p, 4, le32_at(p, 0) as nat)
    }
}

pub open spec fn then_prefix(a: Seq<VersionImage>, o: Option<Seq<VersionImage>>) -> Option<Seq<VersionImage>> {
    match o {
        None => None,
        Some(r) => Some(a + r),
    }
}

fn read_id(p: &[u8], c: usize) -> (r: Result<TxId>)
    requires
        c + 16 <= p@.len(),
    ensures
        r matches Ok(t) && t.0@ == p@.subrange(c as int, c + 16),
{
    let n = p.len();
    assert(n == p@.len());
    match uuid_from_slice(slice_subrange(p, c, c + 16)) {
        Ok(b) => Ok(TxId(b)),
        Err(_) => Err(DbError::Corruption(String::from_str("Invalid UUID"))),
    }
}

/// Reads the version chain stored in a data page.
pub fn deserialize_mvcc_data(page: &Page) -> (r: Result<Vec<RowVersion>>)
    ensures
        r is Ok <==> decode_chain(page.payload@) is Some,
        r matches Ok(v) ==> decode_chain(page.payload@) == Some(chain_images(chain_view(v@))),
        r matches Err(e) ==> e is Corruption,
{
    let p = page.payload.as_slice();
    let n = p.len();
    let mut versions: Vec<RowVersion> = Vec::new();
    if n < 4 {
        proof {
            assert(chain_images(chain_view(versions@)) =~= Seq::<VersionImage>::empty());
        }
        return Ok(versions);
    }
    let count = u32_from_le_bytes(slice_subrange(p, 0, 4)) as usize;
    let ghost whole = decode_chain(p@);
    let mut cursor: usize = 4;
    let mut k: usize = 0;
    proof {
        assert(chain_images(chain_view(versions@)) =~= Seq::<VersionImage>::empty());
        assert(then_prefix(Seq::empty(), decode_versions(p@, 4, count as nat)) == decode_versions(p@, 4, count as nat));
    }
    while k < count
        invariant
            n == p@.len(),
            p@ == page.payload@,
            4 <= cursor <= n,
            k <= count,
            count == le32_at(p@, 0),
            whole == decode_chain(p@),
            whole == then_prefix(chain_images(chain_view(versions@)), decode_versions(p@, cursor as int, (count - k) as nat)),
        decreases count - k,
    {
        let ghost imgs = chain_images(chain_view(versions@));
        let ghost m = (count - k) as nat;
        let c0 = cursor;
        if 16 > n - cursor {
            proof {
                assert(decode_versions(p@, c0 as int, m) is None);
            }
            return Err(DbError::Corruption(String::from_str("Truncated created_by")));
        }
        let created_by = match read_id(p, cursor) {
            Ok(t) => t,
            Err(e) => return Err(e),
        };
        cursor = cursor + 16;
        if cursor >= n {
            proof {
                assert(decode_versions(p@, c0 as int, m) is None);
            }
            return Err(DbError::Corruption(String::from_str("Truncated deleted_by marker")));
        }
        let deleted_by = if p[cursor] == 1 {
            cursor = cursor + 1;
            if 16 > n - cursor {
                proof {
                    assert(decode_versions(p@, c0 as int, m) is None);
                }
                return Err(DbError::Corruption(String::from_str("Truncated deleted_by")));
            }
            match read_id(p, cursor) {
                Ok(t) => Some(t),
                Err(e) => return Err(e),
            }
        } else {
            cursor = cursor + 1;
            None
        };
        if deleted_by.is_some() {
            cursor = cursor + 16;
        }
        if 4 > n - cursor {
            proof {
                assert(decode_versions(p@, c0 as int, m) is None);
            }
            return Err(DbError::Corruption(String::from_str("Truncated value length")));
        }
        let value_len = u32_from_le_bytes(slice_subrange(p, cursor, cursor + 4)) as usize;
        cursor = cursor + 4;
        if value_len > n - cursor {
            proof {
                assert(decode_versions(p@, c0 as int, m) is None);
            }
            return Err(DbError::Corruption(String::from_str("Truncated value")));
        }
        let value = copy_range(p, cursor, cursor + value_len);
        cursor = cursor + value_len;
        let v = RowVersion { created_by, deleted_by, value };
        versions.push(v);
        proof {
            let rest = decode_versions(p@, cursor as int, (m - 1) as nat);
            assert(decode_versions(p@, c0 as int, m) == then_prefix(seq![version_image(v@)], rest));
            assert(chain_images(chain_view(versions@)) =~= imgs + seq![version_image(v@)]);
            match rest {
                None => {},
                Some(r) => {
                    assert(imgs + (seq![version_image(v@)] + r) =~= (imgs + seq![version_image(v@)]) + r);
                },
            }
        }
        k = k + 1;
    }
    proof {
        assert(decode_versions(p@, cursor as int, 0) == Some(Seq::<VersionImage>::empty()));
        assert(chain_images(chain_view(versions@)) + Seq::<VersionImage>::empty() =~= chain_images(chain_view(versions@)));
    }
    Ok(versions)
}

proof fn lemma_encode_versions_snoc(vs: Seq<VersionImage>, i: int)
    requires
        0 <= i < vs.len(),
    ensures
        encode_versions(vs.take(i + 1)) == encode_versions(vs.take(i)) + encode_version(vs[i]),
    decreases i,
{
    if i == 0 {
        assert(vs.take(1).drop_first() =~= Seq::<VersionImage>::empty());
        assert(encode_versions(vs.take(0)) =~= Seq::<u8>::empty());
        assert(vs.take(1)[0] == vs[0]);
        assert(encode_versions(vs.take(1).drop_first()) =~= Seq::<u8>::empty());
        assert(encode_versions(vs.take(1)) =~= encode_version(vs[0]));
    } else {
        lemma_encode_versions_snoc(vs.drop_first(), i - 1);
        assert(vs.take(i + 1).drop_first() =~= vs.drop_first().take(i));
        assert(vs.take(i).drop_first() =~= vs.drop_first().take(i - 1));
        assert(vs.drop_first()[i - 1] == vs[i]);
    }
}

/// A version whose ids are 16 bytes long and whose value length fits 32 bits.
pub open spec fn version_fits(v: VersionImage) -> bool {
    &&& v.created_by.len() == 16
    &&& v.deleted_by matches Some(d) ==> d.len() == 16
    &&& v.value.len() <= u32::MAX
}

proof fn lemma_decode_versions(p: Seq<u8>, c: int, vs: Seq<VersionImage>)
    requires
        forall|i: int| 0 <= i < vs.len() ==> version_fits(#[trigger] vs[i]),
        0 <= c,
        c + encode_versions(vs).len() <= p.len(),
        p.subrange(c, c + encode_versions(vs).len()) == encode_versions(vs),
    ensures
        decode_versions(p, c, vs.len()) == Some(vs),
    decreases vs.len(),
{
    lemma_auto_spec_u32_to_from_le_bytes();
    if vs.len() > 0 {
        let v = vs[0];
        assert(version_fits(v));
        let e = encode_version(v);
        let rest = encode_versions(vs.drop_first());
        let whole = encode_versions(vs);
        assert(whole == e + rest);
        let mark = match v.deleted_by {
            None => seq![0u8],
            Some(d) => seq![1u8] + d,
        };
        let ml = mark.len() as int;
        let vl = v.value.len() as int;
        assert(e.len() == 16 + ml + 4 + vl);
        lemma_sub_of_sub(p, c, whole, 0, 16);
        assert(whole.subrange(0, 16) =~= v.created_by);
        assert(p[c + 16] == whole[16]);
        assert(whole[16] == mark[0]);
        match v.deleted_by {
            Some(d) => {
                lemma_sub_of_sub(p, c, whole, 17, 33);
                assert(whole.subrange(17, 33) =~= d);
            },
            None => {},
        }
        lemma_sub_of_sub(p, c, whole, 16 + ml, 20 + ml);
        assert(whole.subrange(16 + ml, 20 + ml) =~= spec_u32_to_le_bytes(v.value.len() as u32));
        lemma_sub_of_sub(p, c, whole, 20 + ml, 20 + ml + vl);
        assert(whole.subrange(20 + ml, 20 + ml + vl) =~= v.value);
        lemma_sub_of_sub(p, c, whole, e.len() as int, whole.len() as int);
        assert(whole.subrange(e.len() as int, whole.len() as int) =~= rest);
        assert(forall|i: int| 0 <= i < vs.drop_first().len() ==> #[trigger] vs.drop_first()[i] == vs[i + 1]);
        lemma_decode_versions(p, c + e.len(), vs.drop_first());
        assert(seq![v] + vs.drop_first() =~= vs);
    }
}

/// A stored chain reads back as itself, where it has fewer than 2^32
/// versions and every version fits.
pub proof fn lemma_chain_round_trip(vs: Seq<VersionImage>)
    requires
        vs.len() <= u32::MAX,
        forall|i: int| 0 <= i < vs.len() ==> version_fits(#[trigger] vs[i]),
    ensures
        decode_chain(encode_chain(vs)) == Some(vs),
{
    lemma_auto_spec_u32_to_from_le_bytes();
    let p = encode_chain(vs);
    let body = encode_versions(vs);
    assert(p.subrange(0, 4) =~= spec_u32_to_le_bytes(vs.len() as u32));
    assert(p.subrange(4, 4 + body.len() as int) =~= body);
    lemma_decode_versions(p, 4, vs);
}

fn push_version(buf: &mut Vec<u8>, v: &RowVersion)
    ensures
        final(buf)@ == old(buf)@ + encode_version(version_image(v@)),
{
    push_slice(buf, v.created_by.0.as_slice());
    match v.deleted_by {
        Some(d) => {
            buf.push(1u8);
            push_slice(buf, d.0.as_slice());
        },
        None => {
            buf.push(0u8);
        },
    }
    let mut len = u32_to_le_bytes(v.value.len() as u32);
    buf.append(&mut len);
    push_slice(buf, v.value.as_slice());
    proof {
        assert(final(buf)@ =~= old(buf)@ + encode_version(version_image(v@)));
    }
}

/// The payload a version chain is stored as.
pub fn serialize_versions(versions: &[RowVersion]) -> (r: Result<Vec<u8>>)
    ensures
        r matches Ok(b) && b@ == encode_chain(chain_images(versions@.map_values(|v: RowVersion| v@))),
{
    let ghost imgs = chain_images(versions@.map_values(|v: RowVersion| v@));
    let mut buf = u32_to_le_bytes(versions.len() as u32);
    let mut i: usize = 0;
    proof {
        assert(encode_versions(imgs.take(0)) =~= Seq::<u8>::empty());
        assert(buf@ =~= spec_u32_to_le_bytes(versions@.len() as u32) + encode_versions(imgs.take(0)));
    }
    while i < versions.len()
        invariant
            0 <= i <= versions@.len(),
            imgs == chain_images(versions@.map_values(|v: RowVersion| v@)),
            buf@ == spec_u32_to_le_bytes(versions@.len() as u32) + encode_versions(imgs.take(i as int)),
        decreases versions@.len() - i,
    {
        proof {
            lemma_encode_versions_snoc(imgs, i as int);
            assert(imgs[i as int] == version_image(versions@[i as int]@));
        }
        push_version(&mut buf, &versions[i]);
        i = i + 1;
    }
    proof {
        assert(imgs.take(versions@.len() as int) =~= imgs);
    }
    Ok(buf)
}

/// The stored chain of `key`; an empty payload where the table has no such row.
pub fn serialize_mvcc_data(table: &MvccTable, key: &[u8]) -> (r: Result<Vec<u8>>)
    requires
        table.wf(),
    ensures
        table@.contains_key(key@) ==> (r matches Ok(b) && b@ == encode_chain(chain_images(table@[key@]))),
        !table@.contains_key(key@) ==> (r matches Ok(b) && b@.len() == 0),
{
    match table.versions(key) {
        Some(versions) => serialize_versions(versions.as_slice()),
        None => Ok(Vec::new()),
    }
}

/// The value of the first version of a chain visible to `tx`: what a read
/// of a stored row gives.
pub fn visible_value(versions: &[RowVersion], tx: &Transaction) -> (r: Option<Vec<u8>>)
    ensures
        ({
            let c = chain_view(versions@);
            let i = first_visible(c, tx.snapshot_tx);
            &&& r matches Some(v) ==> i < c.len() && v@ == c[i].value
            &&& r is None ==> i == c.len()
        }),
{
    let ghost c = chain_view(versions@);
    let mut j: usize = 0;
    while j < versions.len()
        invariant
            0 <= j <= versions@.len(),
            c == chain_view(versions@),
            forall|k: int| 0 <= k < j ==> !visible_at(#[trigger] c[k].created_by, c[k].deleted_by, tx.snapshot_tx),
        decreases versions@.len() - j,
    {
        if is_visible(&versions[j], tx) {
            proof {
                lemma_first_visible(c, tx.snapshot_tx, j as int);
            }
            return Some(copy_bytes(&versions[j].value));
        }
        j = j + 1;
    }
    proof {
        lemma_first_visible(c, tx.snapshot_tx, j as int);
    }
    None
}

/// Marks the first version of a chain visible to `tx` as deleted by `tx`;
/// a chain with no visible version stays as it is.
pub fn mark_visible_deleted(versions: &mut Vec<RowVersion>, tx: &Transaction)
    ensures
        ({
            let c = chain_view(old(versions)@);
            let i = first_visible(c, tx.snapshot_tx);
            &&& i < c.len() ==> chain_view(final(versions)@) == c.update(
                i,
                VersionView { deleted_by: Some(tx.tx_id), ..c[i] },
            )
            &&& i == c.len() ==> final(versions)@ == old(versions)@
        }),
{
    let ghost c = chain_view(versions@);
    let mut j: usize = 0;
    while j < versions.len()
        invariant
            0 <= j <= versions@.len(),
            versions@ == old(versions)@,
            c == chain_view(versions@),
            forall|k: int| 0 <= k < j ==> !visible_at(#[trigger] c[k].created_by, c[k].deleted_by, tx.snapshot_tx),
        decreases versions@.len() - j,
    {
        if is_visible(&versions[j], tx) {
            proof {
                lemma_first_visible(c, tx.snapshot_tx, j as int);
            }
            let mut version = RowVersion { created_by: tx.tx_id, deleted_by: None, value: Vec::new() };
            versions.set_and_swap(j, &mut version);
            version.deleted_by = Some(tx.tx_id);
            versions.set(j, version);
            proof {
                assert(chain_view(versions@) =~= c.update(j as int, VersionView { deleted_by: Some(tx.tx_id), ..c[j as int] }));
            }
            return;
        }
        j = j + 1;
    }
    proof {
        lemma_first_visible(c, tx.snapshot_tx, j as int);
    }
}

/// The version is visible to `snapshot` and nobody has deleted it.
pub open spec fn live_at(v: VersionView, snapshot: TxId) -> bool {
    visible_at(v.created_by, v.deleted_by, snapshot) && v.deleted_by is None
}

/// The position of the first live version; the length when none is.
pub open spec fn first_live(c: Seq<VersionView>, snapshot: TxId) -> int
    decreases c.len(),
{
    if c.len() == 0 {
        0
    } else if live_at(c[0], snapshot) {
        0
    } else {
        1 + first_live(c.drop_first(), snapshot)
    }
}

proof fn lemma_first_live(c: Seq<VersionView>, snapshot: TxId, i: int)
    requires
        0 <= i <= c.len(),
        forall|j: int| 0 <= j < i ==> !live_at(#[trigger] c[j], snapshot),
        i < c.len() ==> live_at(c[i], snapshot),
    ensures
        first_live(c, snapshot) == i,
    decreases i,
{
    if i > 0 {
        assert(!live_at(c[0], snapshot));
        assert forall|j: int| 0 <= j < i - 1 implies !live_at(#[trigger] c.drop_first()[j], snapshot) by {
            assert(c.drop_first()[j] == c[j + 1]);
        }
        lemma_first_live(c.drop_first(), snapshot, i - 1);
    }
}

/// The value of the first version of a chain that `tx` sees and that is not
/// deleted: what a range scan reports for a stored row.
pub fn live_value(versions: &[RowVersion], tx: &Transaction) -> (r: Option<Vec<u8>>)
    ensures
        ({
            let c = chain_view(versions@);
            let i = first_live(c, tx.snapshot_tx);
            &&& r matches Some(v) ==> i < c.len() && v@ == c[i].value
            &&& r is None ==> i == c.len()
        }),
{
    let ghost c = chain_view(versions@);
    let mut j: usize = 0;
    while j < versions.len()
        invariant
            0 <= j <= versions@.len(),
            c == chain_view(versions@),
            forall|k: int| 0 <= k < j ==> !live_at(#[trigger] c[k], tx.snapshot_tx),
        decreases versions@.len() - j,
    {
        if is_visible(&versions[j], tx) && versions[j].deleted_by.is_none() {
            proof {
                lemma_first_live(c, tx.snapshot_tx, j as int);
            }
            return Some(copy_bytes(&versions[j].value));
        }
        proof {
            assert(!live_at(c[j as int], tx.snapshot_tx));
        }
        j = j + 1;
    }
    proof {
        lemma_first_live(c, tx.snapshot_tx, j as int);
    }
    None
}

/// The key a range scan reports for an index entry: the key part of its
/// composite key; a composite key without a zero byte is corrupt.
pub fn index_entry_key(composite: &[u8]) -> (r: Result<Vec<u8>>)
    ensures
        first_zero(composite@) == composite@.len() ==> (r matches Err(DbError::Corruption(m))
            && m@ == "Invalid composite key format"@),
        first_zero(composite@) < composite@.len() ==> (r matches Ok(k) && k@ == composite@.subrange(
            first_zero(composite@) + 1,
            composite@.len() as int,
        )),
{
    match extract_key_from_composite(composite) {
        Some(k) => {
            let r = copy_range(k, 0, k.len());
            proof {
                assert(k@.subrange(0, k@.len() as int) =~= k@);
            }
            Ok(r)
        },
        None => Err(DbError::Corruption(String::from_str("Invalid composite key format"))),
    }
}

/// A read gives back what an insert wrote through a data page: the chain
/// stored after a new version of `key` by `writer` reads back from its
/// payload (where it fits) as a chain whose first version is the new one,
/// so a reader whose snapshot is not before the writer sees `value`.
pub proof fn lemma_read_back_written_value(
    rows: Map<Seq<u8>, Seq<VersionView>>,
    key: Seq<u8>,
    writer: TxId,
    value: Seq<u8>,
    snapshot: TxId,
    read: Seq<VersionView>,
)
    requires
        tx_le(writer, snapshot),
        chain_after_insert(rows, key, writer, value).len() <= u32::MAX,
        forall|i: int| 0 <= i < chain_after_insert(rows, key, writer, value).len() ==> version_fits(
            #[trigger] version_image(chain_after_insert(rows, key, writer, value)[i]),
        ),
        decode_chain(encode_chain(chain_images(chain_after_insert(rows, key, writer, value)))) == Some(chain_images(read)),
    ensures
        read.len() > 0,
        first_visible(read, snapshot) == 0,
        read[0].value == value,
{
    let c = chain_after_insert(rows, key, writer, value);
    let imgs = chain_images(c);
    assert forall|i: int| 0 <= i < imgs.len() implies version_fits(#[trigger] imgs[i]) by {
        assert(imgs[i] == version_image(c[i]));
    }
    lemma_chain_round_trip(imgs);
    assert(chain_images(read) == imgs);
    assert(read.len() == c.len());
    assert(version_image(read[0]) == chain_images(read)[0]);
    assert(version_image(c[0]) == imgs[0]);
    lemma_same_bytes_same_id(read[0].created_by, writer);
    assert(read[0].deleted_by is None);
    lemma_first_visible(read, snapshot, 0);
}

} // verus!
