//! The write-ahead log: record encoding, framing, the file header, and the
//! choice of what a replay keeps.
//!
//! File layout: `"SABIWAL" | version (2) | reserved (2)`, then frames
//! `length (4) | payload | crc32 of payload (4)`, all little endian.
//! A payload is `type (1) | transaction id (16, UUID little-endian form) | ...`:
//! a put adds `table (4) | key length (4) | key | value length (4) | value`,
//! a delete adds `table (4) | key length (4) | key`.

use vstd::prelude::*;
use vstd::bytes::*;
use vstd::slice::slice_subrange;
use vstd::string::*;
use crate::error::{DbError, Result};
use crate::tx::{TxId, lemma_same_bytes_same_id};
use crate::page::{crc32, crc32_of};
use crate::bytes::{push_slice, copy_range, range_equals};
use crate::text::{decimal_digits, decimal_string};

verus! {

/// The magic bytes `SABIWAL` that open a log file.
pub const WAL_MAGIC: [u8; 7] = [0x53, 0x41, 0x42, 0x49, 0x57, 0x41, 0x4c];

pub const WAL_VERSION: u16 = 1;

/// Magic (7), version (2), reserved (2).
pub const WAL_HEADER_SIZE: usize = 11;

pub open spec fn wal_magic() -> Seq<u8> {
    seq![0x53u8, 0x41u8, 0x42u8, 0x49u8, 0x57u8, 0x41u8, 0x4cu8]
}

/// The kind of a log record, stored as its first byte.
#[derive(Debug, Clone, Copy, PartialEq, Eq, Structural)]
pub enum WalRecordType {
    Begin,
    Put,
    Delete,
    Commit,
    Abort,
}

pub open spec fn record_type_code(t: WalRecordType) -> u8 {
    match t {
        WalRecordType::Begin => 1,
        WalRecordType::Put => 2,
        WalRecordType::Delete => 3,
        WalRecordType::Commit => 4,
        WalRecordType::Abort => 5,
    }
}

pub open spec fn unknown_type_message(v: u8) -> Seq<char> {
    "Unknown WAL record type "@ + decimal_digits(v as nat)
}

impl WalRecordType {
    /// The byte this kind is stored as.
    pub fn code(&self) -> (r: u8)
        ensures
            r == record_type_code(*self),
    {
        match self {
            WalRecordType::Begin => 1,
            WalRecordType::Put => 2,
            WalRecordType::Delete => 3,
            WalRecordType::Commit => 4,
            WalRecordType::Abort => 5,
        }
    }

    /// Reads a stored kind; bytes other than 1 to 5 are corruption.
    pub fn from_u8(v: u8) -> (r: Result<WalRecordType>)
        ensures
            1 <= v <= 5 ==> (r matches Ok(t) && record_type_code(t) == v),
            !(1 <= v <= 5) ==> (r matches Err(DbError::Corruption(m)) && m@ == unknown_type_message(v)),
    {
        if v == 1 {
            Ok(WalRecordType::Begin)
        } else if v == 2 {
            Ok(WalRecordType::Put)
        } else if v == 3 {
            Ok(WalRecordType::Delete)
        } else if v == 4 {
            Ok(WalRecordType::Commit)
        } else if v == 5 {
            Ok(WalRecordType::Abort)
        } else {
            proof {
                reveal_strlit("Unknown WAL record type ");
            }
            let digits = decimal_string(v as u64);
            Err(DbError::Corruption(String::from_str("Unknown WAL record type ").concat(digits.as_str())))
        }
    }
}

/// One entry of the log.
#[derive(Debug, Clone)]
pub enum WalRecord {
    Begin { tx: TxId },
    Put { tx: TxId, table_id: u32, key: Vec<u8>, value: Vec<u8> },
    Delete { tx: TxId, table_id: u32, key: Vec<u8> },
    Commit { tx: TxId },
    Abort { tx: TxId },
}

/// A log record as mathematical values; a transaction is its 16 id bytes.
pub ghost enum RecordView {
    Begin { tx: Seq<u8> },
    Put { tx: Seq<u8>, table_id: u32, key: Seq<u8>, value: Seq<u8> },
    Delete { tx: Seq<u8>, table_id: u32, key: Seq<u8> },
    Commit { tx: Seq<u8> },
    Abort { tx: Seq<u8> },
}

impl View for WalRecord {
    type V = RecordView;

    open spec fn view(&self) -> RecordView {
        match self {
            WalRecord::Begin { tx } => RecordView::Begin { tx: tx.0@ },
            WalRecord::Put { tx, table_id, key, value } => RecordView::Put {
                tx: tx.0@,
                table_id: *table_id,
                key: key@,
                value: value@,
            },
            WalRecord::Delete { tx, table_id, key } => RecordView::Delete {
                tx: tx.0@,
                table_id: *table_id,
                key: key@,
            },
            WalRecord::Commit { tx } => RecordView::Commit { tx: tx.0@ },
            WalRecord::Abort { tx } => RecordView::Abort { tx: tx.0@ },
        }
    }
}

/// The transaction a record belongs to.
pub open spec fn record_tx(r: RecordView) -> Seq<u8> {
    match r {
        RecordView::Begin { tx } => tx,
        RecordView::Put { tx, .. } => tx,
        RecordView::Delete { tx, .. } => tx,
        RecordView::Commit { tx } => tx,
        RecordView::Abort { tx } => tx,
    }
}

/// The UUID little-endian form: the first three fields byte-swapped, the rest as is.
/// Applying it twice gives the bytes back.
pub open spec fn uuid_le_bytes(b: Seq<u8>) -> Seq<u8> {
    seq![b[3], b[2], b[1], b[0], b[5], b[4], b[7], b[6]] + b.subrange(8, 16)
}

/// `Uuid::to_bytes_le`: the source lists the bytes in the order `uuid_le_bytes` gives.
#[verifier::external_body]
fn uuid_to_bytes_le(b: &[u8; 16]) -> (r: [u8; 16])
    ensures
        r@ == uuid_le_bytes(b@),
{
    uuid::Uuid::from_bytes(*b).to_bytes_le()
}

/// `Uuid::from_bytes_le`: the source reorders the bytes as `uuid_le_bytes` gives.
#[verifier::external_body]
fn uuid_from_bytes_le(s: &[u8]) -> (r: [u8; 16])
    requires
        s@.len() == 16,
    ensures
        r@ == uuid_le_bytes(s@),
{
    let b: [u8; 16] = s.try_into().unwrap();
    *uuid::Uuid::from_bytes_le(b).as_bytes()
}

pub open spec fn le32_at(p: Seq<u8>, c: int) -> u32 {
    spec_u32_from_le_bytes(p.subrange(c, c + 4))
}

/// The payload a record is stored as. Lengths are stored as 32-bit numbers.
pub open spec fn wal_encode(r: RecordView) -> Seq<u8> {
    match r {
        RecordView::Begin { tx } => seq![1u8] + uuid_le_bytes(tx),
        RecordView::Put { tx, table_id, key, value } => seq![2u8] + uuid_le_bytes(tx)
            + spec_u32_to_le_bytes(table_id) + spec_u32_to_le_bytes(key.len() as u32) + key
            + spec_u32_to_le_bytes(value.len() as u32) + value,
        RecordView::Delete { tx, table_id, key } => seq![3u8] + uuid_le_bytes(tx)
            + spec_u32_to_le_bytes(table_id) + spec_u32_to_le_bytes(key.len() as u32) + key,
        RecordView::Commit { tx } => seq![4u8] + uuid_le_bytes(tx),
        RecordView::Abort { tx } => seq![5u8] + uuid_le_bytes(tx),
    }
}

/// A payload long enough for everything its kind byte says it holds. Reading
/// a shorter one runs off its end; a payload whose kind byte is unknown is
/// rejected before anything else is read.
pub open spec fn record_in_bounds(p: Seq<u8>) -> bool {
    &&& p.len() >= 1
    &&& (1 <= p[0] <= 5 ==> p.len() >= 17)
    &&& (p[0] == 2 ==> {
        &&& p.len() >= 25
        &&& 25 + le32_at(p, 21) + 4 <= p.len()
        &&& 29 + le32_at(p, 21) + le32_at(p, 25 + le32_at(p, 21)) <= p.len()
    })
    &&& (p[0] == 3 ==> p.len() >= 25 && 25 + le32_at(p, 21) <= p.len())
}

/// The record a payload holds, `None` where its kind byte is unknown.
pub open spec fn wal_decode(p: Seq<u8>) -> Option<RecordView> {
    let tx = uuid_le_bytes(p.subrange(1, 17));
    if p[0] == 1 {
        Some(RecordView::Begin { tx })
    } else if p[0] == 2 {
        let kl = le32_at(p, 21) as int;
        let vl = le32_at(p, 25 + kl) as int;
        Some(RecordView::Put {
            tx,
            table_id: le32_at(p, 17),
            key: p.subrange(25, 25 + kl),
            value: p.subrange(29 + kl, 29 + kl + vl),
        })
    } else if p[0] == 3 {
        let kl = le32_at(p, 21) as int;
        Some(RecordView::Delete { tx, table_id: le32_at(p, 17), key: p.subrange(25, 25 + kl) })
    } else if p[0] == 4 {
        Some(RecordView::Commit { tx })
    } else if p[0] == 5 {
        Some(RecordView::Abort { tx })
    } else {
        None
    }
}

fn push_u32(buf: &mut Vec<u8>, x: u32)
    ensures
        final(buf)@ == old(buf)@ + spec_u32_to_le_bytes(x),
{
    let mut b = u32_to_le_bytes(x);
    buf.append(&mut b);
}

fn push_tx(buf: &mut Vec<u8>, tx: &TxId)
    ensures
        final(buf)@ == old(buf)@ + uuid_le_bytes(tx.0@),
{
    let b = uuid_to_bytes_le(&tx.0);
    push_slice(buf, b.as_slice());
}

/// The payload a record is stored as.
pub fn serialize_record(record: &WalRecord) -> (r: Vec<u8>)
    ensures
        r@ == wal_encode(record@),
{
    let mut buf: Vec<u8> = Vec::new();
    match record {
        WalRecord::Begin { tx } => {
            buf.push(1u8);
            push_tx(&mut buf, tx);
        },
        WalRecord::Put { tx, table_id, key, value } => {
            buf.push(2u8);
            push_tx(&mut buf, tx);
            push_u32(&mut buf, *table_id);
            push_u32(&mut buf, key.len() as u32);
            push_slice(&mut buf, key.as_slice());
            push_u32(&mut buf, value.len() as u32);
            push_slice(&mut buf, value.as_slice());
        },
        WalRecord::Delete { tx, table_id, key } => {
            buf.push(3u8);
            push_tx(&mut buf, tx);
            push_u32(&mut buf, *table_id);
            push_u32(&mut buf, key.len() as u32);
            push_slice(&mut buf, key.as_slice());
        },
        WalRecord::Commit { tx } => {
            buf.push(4u8);
            push_tx(&mut buf, tx);
        },
        WalRecord::Abort { tx } => {
            buf.push(5u8);
            push_tx(&mut buf, tx);
        },
    }
    proof {
        assert(buf@ =~= wal_encode(record@));
    }
    buf
}

fn read_u32(p: &[u8], c: usize) -> (r: u32)
    requires
        c + 4 <= p@.len(),
    ensures
        r == le32_at(p@, c as int),
{
    let n = p.len();
    assert(n == p@.len());
    u32_from_le_bytes(slice_subrange(p, c, c + 4))
}

/// Whether a payload is long enough to be read (`record_in_bounds`).
pub fn record_fits(payload: &[u8]) -> (r: bool)
    ensures
        r == record_in_bounds(payload@),
{
    let n = payload.len();
    if n < 1 {
        return false;
    }
    let t = payload[0];
    if 1 <= t && t <= 5 && n < 17 {
        return false;
    }
    if t == 2 || t == 3 {
        if n < 25 {
            return false;
        }
        let kl = read_u32(payload, 21) as usize;
        if kl > n - 25 {
            return false;
        }
        if t == 3 {
            return true;
        }
        if kl + 4 > n - 25 {
            return false;
        }
        let vl = read_u32(payload, 25 + kl) as usize;
        if vl > n - 29 - kl {
            return false;
        }
    }
    true
}

/// Reads a record back from its payload; an unknown kind byte is corruption.
pub fn deserialize_record(payload: &[u8]) -> (r: Result<WalRecord>)
    requires
        record_in_bounds(payload@),
    ensures
        wal_decode(payload@) matches Some(v) ==> (r matches Ok(rec) && rec@ == v),
        wal_decode(payload@) is None ==> (r matches Err(DbError::Corruption(m))
            && m@ == unknown_type_message(payload@[0])),
{
    let record_type = match WalRecordType::from_u8(payload[0]) {
        Ok(t) => t,
        Err(e) => return Err(e),
    };
    let tx = TxId(uuid_from_bytes_le(slice_subrange(payload, 1, 17)));
    match record_type {
        WalRecordType::Begin => Ok(WalRecord::Begin { tx }),
        WalRecordType::Put => {
            let table_id = read_u32(payload, 17);
            let key_len = read_u32(payload, 21) as usize;
            let key = copy_range(payload, 25, 25 + key_len);
            let cursor = 25 + key_len;
            let val_len = read_u32(payload, cursor) as usize;
            let value = copy_range(payload, cursor + 4, cursor + 4 + val_len);
            Ok(WalRecord::Put { tx, table_id, key, value })
        },
        WalRecordType::Delete => {
            let table_id = read_u32(payload, 17);
            let key_len = read_u32(payload, 21) as usize;
            let key = copy_range(payload, 25, 25 + key_len);
            Ok(WalRecord::Delete { tx, table_id, key })
        },
        WalRecordType::Commit => Ok(WalRecord::Commit { tx }),
        WalRecordType::Abort => Ok(WalRecord::Abort { tx }),
    }
}

/// A record read back from the payload it is stored as is the record itself,
/// where its key and value lengths fit the 32-bit length fields.
pub proof fn lemma_record_round_trip(r: RecordView)
    requires
        record_tx(r).len() == 16,
        r matches RecordView::Put { key, value, .. } ==> key.len() <= u32::MAX && value.len() <= u32::MAX,
        r matches RecordView::Delete { key, .. } ==> key.len() <= u32::MAX,
    ensures
        record_in_bounds(wal_encode(r)),
        wal_decode(wal_encode(r)) == Some(r),
{
    lemma_auto_spec_u32_to_from_le_bytes();
    let p = wal_encode(r);
    let tx = record_tx(r);
    assert(uuid_le_bytes(uuid_le_bytes(tx)) =~= tx);
    assert(p.subrange(1, 17) =~= uuid_le_bytes(tx));
    match r {
        RecordView::Put { tx, table_id, key, value } => {
            let kl = key.len() as int;
            assert(p.subrange(17, 21) =~= spec_u32_to_le_bytes(table_id));
            assert(p.subrange(21, 25) =~= spec_u32_to_le_bytes(key.len() as u32));
            assert(p.subrange(25, 25 + kl) =~= key);
            assert(p.subrange(25 + kl, 29 + kl) =~= spec_u32_to_le_bytes(value.len() as u32));
            assert(p.subrange(29 + kl, 29 + kl + value.len()) =~= value);
        },
        RecordView::Delete { tx, table_id, key } => {
            let kl = key.len() as int;
            assert(p.subrange(17, 21) =~= spec_u32_to_le_bytes(table_id));
            assert(p.subrange(21, 25) =~= spec_u32_to_le_bytes(key.len() as u32));
            assert(p.subrange(25, 25 + kl) =~= key);
        },
        _ => {},
    }
}

/// What is appended to the log for a payload: its length, itself, its checksum.
pub open spec fn wal_frame(p: Seq<u8>) -> Seq<u8> {
    spec_u32_to_le_bytes(p.len() as u32) + p + spec_u32_to_le_bytes(crc32_of(p))
}

/// The bytes appended to the log for a record.
pub fn encode_frame(record: &WalRecord) -> (r: Vec<u8>)
    ensures
        r@ == wal_frame(wal_encode(record@)),
{
    let payload = serialize_record(record);
    let checksum = crc32(payload.as_slice());
    let mut buf: Vec<u8> = Vec::new();
    push_u32(&mut buf, payload.len() as u32);
    push_slice(&mut buf, payload.as_slice());
    push_u32(&mut buf, checksum);
    buf
}

/// Whether appending this record must reach the disk before returning:
/// only a commit is a durability point.
pub fn needs_sync(record: &WalRecord) -> (r: bool)
    ensures
        r == (record@ is Commit),
{
    match record {
        WalRecord::Commit { .. } => true,
        _ => false,
    }
}

/// A frame read back gives the payload it was written with, and the stored
/// checksum is that of the payload, where the payload's length fits 32 bits.
pub proof fn lemma_frame_round_trip(p: Seq<u8>)
    requires
        p.len() <= u32::MAX,
    ensures
        spec_u32_from_le_bytes(wal_frame(p).subrange(0, 4)) == p.len(),
        wal_frame(p).subrange(4, 4 + p.len() as int) == p,
        spec_u32_from_le_bytes(wal_frame(p).subrange(4 + p.len() as int, 8 + p.len() as int)) == crc32_of(p),
        wal_frame(p).len() == 8 + p.len(),
{
    lemma_auto_spec_u32_to_from_le_bytes();
    let f = wal_frame(p);
    assert(f.subrange(0, 4) =~= spec_u32_to_le_bytes(p.len() as u32));
    assert(f.subrange(4, 4 + p.len() as int) =~= p);
    assert(f.subrange(4 + p.len() as int, 8 + p.len() as int) =~= spec_u32_to_le_bytes(crc32_of(p)));
}

/// The 11 bytes a new log file starts with.
pub open spec fn wal_header_bytes() -> Seq<u8> {
    wal_magic() + spec_u16_to_le_bytes(1) + spec_u16_to_le_bytes(0)
}

/// The header written to a new, empty log file.
pub fn wal_header() -> (r: Vec<u8>)
    ensures
        r@ == wal_header_bytes(),
{
    let magic: [u8; 7] = WAL_MAGIC;
    let mut buf: Vec<u8> = Vec::new();
    push_slice(&mut buf, magic.as_slice());
    let mut v = u16_to_le_bytes(WAL_VERSION);
    buf.append(&mut v);
    let mut z = u16_to_le_bytes(0u16);
    buf.append(&mut z);
    proof {
        assert(magic@ =~= wal_magic());
    }
    buf
}

pub open spec fn header_version(h: Seq<u8>) -> u16 {
    spec_u16_from_le_bytes(h.subrange(7, 9))
}

pub open spec fn unsupported_version_message(v: u16) -> Seq<char> {
    "Unsupported WAL version "@ + decimal_digits(v as nat)
}

/// Checks the header a log file starts with: the magic, then the version.
pub fn check_wal_header(header: &[u8]) -> (r: Result<()>)
    requires
        header@.len() == WAL_HEADER_SIZE,
    ensures
        header@.subrange(0, 7) != wal_magic() ==> (r matches Err(DbError::Corruption(m))
            && m@ == "Invalid WAL magic"@),
        header@.subrange(0, 7) == wal_magic() && header_version(header@) != WAL_VERSION ==> (r matches Err(
            DbError::Corruption(m),
        ) && m@ == unsupported_version_message(header_version(header@))),
        header@.subrange(0, 7) == wal_magic() && header_version(header@) == WAL_VERSION ==> r is Ok,
{
    let magic: [u8; 7] = WAL_MAGIC;
    proof {
        assert(magic@ =~= wal_magic());
        reveal_strlit("Invalid WAL magic");
        reveal_strlit("Unsupported WAL version ");
    }
    if !range_equals(header, 0, magic.as_slice()) {
        return Err(DbError::Corruption(String::from_str("Invalid WAL magic")));
    }
    let version = u16_from_le_bytes(slice_subrange(header, 7, 9));
    if version != WAL_VERSION {
        let digits = decimal_string(version as u64);
        return Err(DbError::Corruption(String::from_str("Unsupported WAL version ").concat(digits.as_str())));
    }
    Ok(())
}

/// A freshly written header passes the check.
pub proof fn lemma_header_accepted()
    ensures
        wal_header_bytes().len() == WAL_HEADER_SIZE,
        wal_header_bytes().subrange(0, 7) == wal_magic(),
        header_version(wal_header_bytes()) == WAL_VERSION,
{
    lemma_auto_spec_u16_to_from_le_bytes();
    let h = wal_header_bytes();
    assert(h.subrange(0, 7) =~= wal_magic());
    assert(h.subrange(7, 9) =~= spec_u16_to_le_bytes(1));
}

/// Reads the length field that opens a frame from the bytes a read gave:
/// none at the end of the log, four for a length, anything else is a torn write.
pub fn decode_length(bytes: &[u8]) -> (r: Result<Option<u32>>)
    requires
        bytes@.len() <= 4,
    ensures
        bytes@.len() == 0 ==> r matches Ok(None),
        0 < bytes@.len() < 4 ==> (r matches Err(DbError::Corruption(m)) && m@ == "Truncated WAL length"@),
        bytes@.len() == 4 ==> r == Ok::<Option<u32>, DbError>(Some(spec_u32_from_le_bytes(bytes@))),
{
    proof {
        reveal_strlit("Truncated WAL length");
    }
    if bytes.len() == 0 {
        return Ok(None);
    }
    if bytes.len() != 4 {
        return Err(DbError::Corruption(String::from_str("Truncated WAL length")));
    }
    Ok(Some(u32_from_le_bytes(bytes)))
}

/// Checks a payload against the checksum stored after it.
pub fn verify_checksum(payload: &[u8], expected: u32) -> (r: Result<()>)
    ensures
        r is Ok <==> crc32_of(payload@) == expected,
        r matches Err(e) ==> (e matches DbError::Corruption(m) && m@ == "WAL checksum mismatch (possible crash)"@),
{
    proof {
        reveal_strlit("WAL checksum mismatch (possible crash)");
    }
    let actual = crc32(payload);
    if actual != expected {
        return Err(DbError::Corruption(String::from_str("WAL checksum mismatch (possible crash)")));
    }
    Ok(())
}

/// Some record in `rs` commits transaction `t`.
pub open spec fn commits(rs: Seq<RecordView>, t: Seq<u8>) -> bool {
    exists|i: int| 0 <= i < rs.len() && #[trigger] is_commit_of(rs[i], t)
}

pub open spec fn is_commit_of(r: RecordView, t: Seq<u8>) -> bool {
    r is Commit && record_tx(r) == t
}

/// A record a replay keeps: not an abort, and its transaction committed somewhere in `all`.
pub open spec fn replay_keeps(all: Seq<RecordView>, r: RecordView) -> bool {
    r !is Abort && commits(all, record_tx(r))
}

/// The records of `rs` that a replay of `all` keeps, in their order.
pub open spec fn kept_records(rs: Seq<RecordView>, all: Seq<RecordView>) -> Seq<RecordView>
    decreases rs.len(),
{
    if rs.len() == 0 {
        Seq::empty()
    } else if replay_keeps(all, rs.last()) {
        kept_records(rs.drop_last(), all).push(rs.last())
    } else {
        kept_records(rs.drop_last(), all)
    }
}

/// What replaying a log gives: its records whose transaction committed, aborts left out.
pub open spec fn replay(rs: Seq<RecordView>) -> Seq<RecordView> {
    kept_records(rs, rs)
}

pub open spec fn records_view(v: Seq<WalRecord>) -> Seq<RecordView> {
    v.map_values(|r: WalRecord| r@)
}

/// The transactions committed in `rs`, in log order.
pub open spec fn commit_ids(rs: Seq<RecordView>) -> Seq<Seq<u8>>
    decreases rs.len(),
{
    if rs.len() == 0 {
        Seq::empty()
    } else if rs.last() is Commit {
        commit_ids(rs.drop_last()).push(record_tx(rs.last()))
    } else {
        commit_ids(rs.drop_last())
    }
}

proof fn lemma_commit_ids(rs: Seq<RecordView>, t: Seq<u8>)
    ensures
        commit_ids(rs).contains(t) <==> commits(rs, t),
    decreases rs.len(),
{
    if rs.len() > 0 {
        let pre = rs.drop_last();
        let ids = commit_ids(rs);
        let pids = commit_ids(pre);
        lemma_commit_ids(pre, t);
        if commits(rs, t) {
            let i = choose|i: int| 0 <= i < rs.len() && #[trigger] is_commit_of(rs[i], t);
            if i < rs.len() - 1 {
                assert(is_commit_of(pre[i], t));
                let j = choose|j: int| 0 <= j < pids.len() && pids[j] == t;
                assert(ids[j] == t);
            } else {
                assert(ids[ids.len() - 1] == t);
            }
        }
        if ids.contains(t) {
            let j = choose|j: int| 0 <= j < ids.len() && ids[j] == t;
            if rs.last() is Commit && j == ids.len() - 1 {
                assert(is_commit_of(rs[rs.len() - 1], t));
            } else {
                assert(pids[j] == t);
                let i = choose|i: int| 0 <= i < pre.len() && #[trigger] is_commit_of(pre[i], t);
                assert(is_commit_of(rs[i], t));
            }
        }
    } else {
        assert(commit_ids(rs).len() == 0);
    }
}

pub open spec fn id_views(ids: Seq<TxId>) -> Seq<Seq<u8>> {
    ids.map_values(|t: TxId| t.0@)
}

/// Whether `t` is among `ids`.
fn contains_tx(ids: &Vec<TxId>, t: &TxId) -> (r: bool)
    ensures
        r == id_views(ids@).contains(t.0@),
{
    let mut j: usize = 0;
    while j < ids.len()
        invariant
            0 <= j <= ids@.len(),
            forall|k: int| 0 <= k < j ==> ids@[k].0@ != t.0@,
        decreases ids@.len() - j,
    {
        proof {
            lemma_same_bytes_same_id(ids@[j as int], *t);
        }
        if ids[j] == *t {
            proof {
                assert(id_views(ids@)[j as int] == t.0@);
            }
            return true;
        }
        j = j + 1;
    }
    proof {
        if id_views(ids@).contains(t.0@) {
            let k = choose|k: int| 0 <= k < id_views(ids@).len() && id_views(ids@)[k] == t.0@;
            assert(ids@[k].0@ == t.0@);
        }
    }
    false
}

/// The records of a log that belong to committed transactions, in log order;
/// aborts, and everything of a transaction that never committed, are left out.
pub fn committed_records(records: Vec<WalRecord>) -> (r: Vec<WalRecord>)
    ensures
        records_view(r@) == replay(records_view(records@)),
{
    let ghost all = records_view(records@);
    let mut committed: Vec<TxId> = Vec::new();
    let mut i: usize = 0;
    while i < records.len()
        invariant
            0 <= i <= records@.len(),
            all == records_view(records@),
            id_views(committed@) == commit_ids(all.take(i as int)),
        decreases records@.len() - i,
    {
        proof {
            assert(all.take(i + 1).drop_last() =~= all.take(i as int));
        }
        match &records[i] {
            WalRecord::Commit { tx } => {
                committed.push(*tx);
                proof {
                    assert(id_views(committed@) =~= commit_ids(all.take(i as int)).push(tx.0@));
                }
            },
            _ => {
                proof {
                    assert(id_views(committed@) =~= commit_ids(all.take(i as int)));
                }
            },
        }
        i = i + 1;
    }
    proof {
        assert(all.take(records@.len() as int) =~= all);
    }
    let ghost src = records@;
    let mut out: Vec<WalRecord> = Vec::new();
    for rec in it: records.into_iter()
        invariant
            it.seq() == src,
            all == records_view(src),
            id_views(committed@) == commit_ids(all),
            records_view(out@) == kept_records(all.take(it.index() as int), all),
    {
        let ghost k = it.index() as int;
        proof {
            assert(all.take(k + 1).drop_last() =~= all.take(k));
            assert(rec@ == all[k]);
            lemma_commit_ids(all, record_tx(rec@));
        }
        let keep = match &rec {
            WalRecord::Abort { .. } => false,
            WalRecord::Begin { tx } => contains_tx(&committed, tx),
            WalRecord::Put { tx, .. } => contains_tx(&committed, tx),
            WalRecord::Delete { tx, .. } => contains_tx(&committed, tx),
            WalRecord::Commit { tx } => contains_tx(&committed, tx),
        };
        if keep {
            out.push(rec);
            proof {
                assert(records_view(out@) =~= kept_records(all.take(k), all).push(all[k]));
            }
        } else {
            proof {
                assert(records_view(out@) =~= kept_records(all.take(k), all));
            }
        }
    }
    proof {
        assert(all.take(all.len() as int) =~= all);
    }
    out
}

/// The log has a Commit record for transaction `t`.
pub open spec fn log_commits(log: Seq<RecordView>, t: Seq<u8>) -> bool {
    exists|k: int| 0 <= k < log.len() && #[trigger] log[k] is Commit && record_tx(log[k]) == t
}

/// What recovery replays of `log`: a record not an abort whose transaction
/// the log commits.
pub open spec fn recovered(log: Seq<RecordView>) -> spec_fn(RecordView) -> bool {
    |r: RecordView| !(r is Abort) && log_commits(log, record_tx(r))
}

proof fn lemma_kept_records_filter(rs: Seq<RecordView>, all: Seq<RecordView>)
    ensures
        kept_records(rs, all) == rs.filter(recovered(all)),
    decreases rs.len(),
{
    reveal(Seq::filter);
    if rs.len() > 0 {
        lemma_kept_records_filter(rs.drop_last(), all);
        let r = rs.last();
        if log_commits(all, record_tx(r)) {
            let k = choose|k: int| 0 <= k < all.len() && #[trigger] all[k] is Commit && record_tx(all[k]) == record_tx(r);
            assert(is_commit_of(all[k], record_tx(r)));
        }
        if commits(all, record_tx(r)) {
            let k = choose|k: int| 0 <= k < all.len() && #[trigger] is_commit_of(all[k], record_tx(r));
            assert(all[k] is Commit && record_tx(all[k]) == record_tx(r));
        }
    }
}

/// Recovery replays exactly, and in log order, the records that are not
/// aborts and whose transaction has a Commit record in the log: every
/// replayed record's transaction committed, and nothing of a transaction
/// without a Commit record is replayed.
pub proof fn lemma_replay_is_committed_work(log: Seq<RecordView>)
    ensures
        replay(log) == log.filter(recovered(log)),
        forall|i: int| 0 <= i < replay(log).len() ==> log_commits(log, record_tx(#[trigger] replay(log)[i])),
        forall|i: int| 0 <= i < replay(log).len() ==> !(#[trigger] replay(log)[i] is Abort),
        forall|i: int| 0 <= i < log.len() && !(#[trigger] log[i] is Abort) && log_commits(log, record_tx(log[i])) ==> replay(
            log,
        ).contains(log[i]),
{
    broadcast use vstd::seq_lib::group_filter_ensures;
    lemma_kept_records_filter(log, log);
    assert forall|i: int| 0 <= i < replay(log).len() implies log_commits(log, record_tx(#[trigger] replay(log)[i])) by {
        assert(recovered(log)(replay(log)[i]));
    }
    assert forall|i: int| 0 <= i < replay(log).len() implies !(#[trigger] replay(log)[i] is Abort) by {
        assert(recovered(log)(replay(log)[i]));
    }
    assert forall|i: int| 0 <= i < log.len() && !(#[trigger] log[i] is Abort) && log_commits(log, record_tx(log[i]))
        implies replay(log).contains(log[i]) by {
        assert(recovered(log)(log[i]));
    }
}

/// Every record a replay returns is a record of the log, not an abort, and
/// belongs to a transaction the log commits.
pub proof fn lemma_replay_only_committed(rs: Seq<RecordView>, all: Seq<RecordView>)
    ensures
        forall|i: int| 0 <= i < kept_records(rs, all).len() ==> rs.contains(
            #[trigger] kept_records(rs, all)[i],
        ) && replay_keeps(all, kept_records(rs, all)[i]),
    decreases rs.len(),
{
    if rs.len() > 0 {
        let pre = rs.drop_last();
        lemma_replay_only_committed(pre, all);
        let k = kept_records(rs, all);
        let kp = kept_records(pre, all);
        assert forall|i: int| 0 <= i < k.len() implies rs.contains(#[trigger] k[i]) && replay_keeps(all, k[i]) by {
            if i < kp.len() {
                assert(k[i] == kp[i]);
                let j = choose|j: int| 0 <= j < pre.len() && pre[j] == kp[i];
                assert(rs[j] == k[i]);
            } else {
                assert(k[i] == rs[rs.len() - 1]);
            }
        }
    }
}

/// Every record of the log that is not an abort and whose transaction the
/// log commits is among what a replay returns.
pub proof fn lemma_replay_keeps_committed(rs: Seq<RecordView>, all: Seq<RecordView>)
    ensures
        forall|i: int| 0 <= i < rs.len() && replay_keeps(all, #[trigger] rs[i]) ==> kept_records(
            rs,
            all,
        ).contains(rs[i]),
    decreases rs.len(),
{
    if rs.len() > 0 {
        let pre = rs.drop_last();
        lemma_replay_keeps_committed(pre, all);
        let k = kept_records(rs, all);
        let kp = kept_records(pre, all);
        assert forall|i: int| 0 <= i < rs.len() && replay_keeps(all, #[trigger] rs[i]) implies k.contains(rs[i]) by {
            if i < rs.len() - 1 {
                assert(pre[i] == rs[i]);
                let j = choose|j: int| 0 <= j < kp.len() && kp[j] == pre[i];
                assert(k[j] == kp[j]);
            } else {
                assert(k[k.len() - 1] == rs[i]);
            }
        }
    }
}

proof fn lemma_kept_same_pred(rs: Seq<RecordView>, a1: Seq<RecordView>, a2: Seq<RecordView>)
    requires
        forall|r: RecordView| #[trigger] replay_keeps(a1, r) == replay_keeps(a2, r),
    ensures
        kept_records(rs, a1) == kept_records(rs, a2),
    decreases rs.len(),
{
    if rs.len() > 0 {
        lemma_kept_same_pred(rs.drop_last(), a1, a2);
        assert(replay_keeps(a1, rs.last()) == replay_keeps(a2, rs.last()));
    }
}

proof fn lemma_kept_twice(rs: Seq<RecordView>, all: Seq<RecordView>)
    ensures
        kept_records(kept_records(rs, all), all) == kept_records(rs, all),
    decreases rs.len(),
{
    if rs.len() > 0 {
        let pre = rs.drop_last();
        lemma_kept_twice(pre, all);
        let k = kept_records(rs, all);
        if replay_keeps(all, rs.last()) {
            assert(k.drop_last() =~= kept_records(pre, all));
            assert(k.last() == rs.last());
        }
    }
}

/// Replaying what a replay returned gives the same records again.
pub proof fn lemma_replay_idempotent(rs: Seq<RecordView>)
    ensures
        replay(replay(rs)) == replay(rs),
{
    let k = replay(rs);
    lemma_replay_only_committed(rs, rs);
    lemma_replay_keeps_committed(rs, rs);
    assert forall|t: Seq<u8>| commits(k, t) == commits(rs, t) by {
        if commits(k, t) {
            let i = choose|i: int| 0 <= i < k.len() && #[trigger] is_commit_of(k[i], t);
            assert(rs.contains(k[i]));
            let j = choose|j: int| 0 <= j < rs.len() && rs[j] == k[i];
            assert(is_commit_of(rs[j], t));
        }
        if commits(rs, t) {
            let i = choose|i: int| 0 <= i < rs.len() && #[trigger] is_commit_of(rs[i], t);
            assert(replay_keeps(rs, rs[i]));
            assert(k.contains(rs[i]));
            let j = choose|j: int| 0 <= j < k.len() && k[j] == rs[i];
            assert(is_commit_of(k[j], t));
        }
    }
    assert forall|r: RecordView| #[trigger] replay_keeps(k, r) == replay_keeps(rs, r) by {
        assert(commits(k, record_tx(r)) == commits(rs, record_tx(r)));
    }
    lemma_kept_same_pred(k, k, rs);
    lemma_kept_twice(rs, rs);
}

/// The 16 id bytes of the nil transaction, under which the B+Tree logs
/// its changes.
pub open spec fn nil_tx_bytes() -> Seq<u8> {
    Seq::new(16, |i: int| 0u8)
}

/// The bytes of an ASCII text.
pub open spec fn ascii_bytes(s: Seq<char>) -> Seq<u8> {
    s.map_values(|c: char| c as u8)
}

fn ascii_tag(s: &str) -> (r: Vec<u8>)
    requires
        is_ascii(s),
    ensures
        r@ == ascii_bytes(s@),
{
    let b = s.as_bytes();
    proof {
        is_ascii_spec_bytes(s);
    }
    let r = copy_range(b, 0, b.len());
    proof {
        assert(b@.subrange(0, b@.len() as int) =~= b@);
        assert(r@ =~= ascii_bytes(s@));
    }
    r
}

fn index_put(table_id: u32, key: Vec<u8>, value: Vec<u8>) -> (r: WalRecord)
    ensures
        r@ == (RecordView::Put { tx: nil_tx_bytes(), table_id, key: key@, value: value@ }),
{
    let tx = TxId::nil();
    proof {
        assert(tx.0@ =~= nil_tx_bytes());
    }
    WalRecord::Put { tx, table_id, key, value }
}

/// The record that logs a key put into the B+Tree: a put in table 1 under
/// the nil transaction, its value the page id in 8 little-endian bytes.
pub fn btree_insert_record(key: &[u8], value: u64) -> (r: WalRecord)
    ensures
        r@ == (RecordView::Put { tx: nil_tx_bytes(), table_id: 1, key: key@, value: spec_u64_to_le_bytes(value) }),
{
    let k = copy_range(key, 0, key.len());
    proof {
        assert(key@.subrange(0, key@.len() as int) =~= key@);
    }
    index_put(1, k, u64_to_le_bytes(value))
}

/// The record that logs a leaf split: a put in table 2 of the key
/// `split_leaf` and the leaf's page id.
pub fn btree_split_leaf_record(leaf_id: u64) -> (r: WalRecord)
    ensures
        r@ == (RecordView::Put {
            tx: nil_tx_bytes(),
            table_id: 2,
            key: ascii_bytes("split_leaf"@),
            value: spec_u64_to_le_bytes(leaf_id),
        }),
{
    proof {
        reveal_strlit("split_leaf");
    }
    index_put(2, ascii_tag("split_leaf"), u64_to_le_bytes(leaf_id))
}

/// The record that logs an internal node split: a put in table 3 of the
/// key `split_internal` and the node's page id.
pub fn btree_split_internal_record(node_id: u64) -> (r: WalRecord)
    ensures
        r@ == (RecordView::Put {
            tx: nil_tx_bytes(),
            table_id: 3,
            key: ascii_bytes("split_internal"@),
            value: spec_u64_to_le_bytes(node_id),
        }),
{
    proof {
        reveal_strlit("split_internal");
    }
    index_put(3, ascii_tag("split_internal"), u64_to_le_bytes(node_id))
}

/// The record that logs a new root: a put in table 4 of the key `new_root`
/// and the two page ids under it, left first.
pub fn btree_new_root_record(left: u64, right: u64) -> (r: WalRecord)
    ensures
        r@ == (RecordView::Put {
            tx: nil_tx_bytes(),
            table_id: 4,
            key: ascii_bytes("new_root"@),
            value: spec_u64_to_le_bytes(left) + spec_u64_to_le_bytes(right),
        }),
{
    proof {
        reveal_strlit("new_root");
    }
    let mut value = u64_to_le_bytes(left);
    let r = u64_to_le_bytes(right);
    push_slice(&mut value, r.as_slice());
    index_put(4, ascii_tag("new_root"), value)
}

/// The record that logs a key deleted through the B+Tree's engine: a delete
/// in table 1 by transaction `tx`.
pub fn btree_delete_record(key: &[u8], tx: TxId) -> (r: WalRecord)
    ensures
        r@ == (RecordView::Delete { tx: tx.0@, table_id: 1, key: key@ }),
{
    let k = copy_range(key, 0, key.len());
    proof {
        assert(key@.subrange(0, key@.len() as int) =~= key@);
    }
    WalRecord::Delete { tx, table_id: 1, key: k }
}

} // verus!
