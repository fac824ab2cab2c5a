//! Transaction identifiers: version-7 UUIDs, ordered by the time they carry.

use vstd::prelude::*;
use crate::text::hex_of;

verus! {

/// `uuid::Error`, returned when text is not a UUID.
#[verifier::external_type_specification]
#[verifier::external_body]
pub struct ExUuidError(uuid::Error);

/// `std::time::SystemTime`, the point in time a transaction id carries.
#[verifier::external_type_specification]
#[verifier::external_body]
pub struct ExSystemTime(std::time::SystemTime);

/// A transaction identifier: the 16 bytes of a UUID, most significant first.
#[derive(Clone, Copy, Debug, Hash)]
pub struct TxId(pub [u8; 16]);

/// The version field of a UUID (the high nibble of byte 6).
pub open spec fn uuid_version(b: Seq<u8>) -> int {
    b[6] as int / 16
}

/// The 48-bit Unix millisecond field of a version-7 UUID (bytes 0..6, big endian).
pub open spec fn v7_millis(b: Seq<u8>) -> int {
    b[0] as int * 0x100_0000_0000 + b[1] as int * 0x1_0000_0000 + b[2] as int * 0x100_0000
        + b[3] as int * 0x1_0000 + b[4] as int * 0x100 + b[5] as int
}

/// The (seconds, nanoseconds) that `Uuid::get_timestamp().to_unix()` gives
/// for a UUID with these bytes, `None` where it gives none.
pub uninterp spec fn uuid_unix_time(b: Seq<u8>) -> Option<(u64, u32)>;

/// The hyphenated lower-case text that `Uuid`'s `Display` writes for these
/// bytes: 32 hexadecimal digits in groups of 8, 4, 4, 4 and 12, joined by hyphens.
pub open spec fn uuid_text(b: Seq<u8>) -> Seq<char> {
    hex_of(b.subrange(0, 4)) + seq!['-'] + hex_of(b.subrange(4, 6)) + seq!['-'] + hex_of(b.subrange(6, 8)) + seq!['-']
        + hex_of(b.subrange(8, 10)) + seq!['-'] + hex_of(b.subrange(10, 16))
}

/// The bytes that `Uuid::parse_str` reads from this text, `None` where it fails.
pub uninterp spec fn uuid_parse(s: Seq<char>) -> Option<Seq<u8>>;

/// The milliseconds that `Uuid::new_v7` stores for a Unix time: seconds
/// times 1000 plus whole milliseconds of the nanoseconds, saturating, cut to 48 bits.
pub open spec fn v7_millis_of(secs: u64, nanos: u32) -> int {
    let m = secs as int * 1000 + nanos as int / 1_000_000;
    let sat = if m > u64::MAX { u64::MAX as int } else { m };
    sat % 0x1_0000_0000_0000
}

/// `Uuid::now_v7()`: a fresh version-7 UUID. Its time and random bits are
/// not stated; the version field is 7, as the builder sets it.
#[verifier::external_body]
fn uuid_now_v7() -> (r: [u8; 16])
    ensures
        uuid_version(r@) == 7,
{
    *uuid::Uuid::now_v7().as_bytes()
}

/// `Uuid::new_v7(Timestamp::from_unix(NoContext, secs, nanos))`: a version-7
/// UUID whose millisecond field encodes the given time; its random bits are not stated.
#[verifier::external_body]
fn uuid_v7_at(secs: u64, nanos: u32) -> (r: [u8; 16])
    ensures
        uuid_version(r@) == 7,
        v7_millis(r@) == v7_millis_of(secs, nanos),
{
    let ts = uuid::Timestamp::from_unix(uuid::NoContext, secs, nanos);
    *uuid::Uuid::new_v7(ts).as_bytes()
}

/// `Uuid::get_timestamp` followed by `Timestamp::to_unix`. For version 7 the
/// source decodes the millisecond field; for versions other than 1, 6 and 7
/// it returns `None`. Versions 1 and 6 are named, not stated, beyond this:
/// their nanoseconds are a remainder modulo ten million times 100, so the
/// nanoseconds are always below one second.
#[verifier::external_body]
fn uuid_get_unix_time(b: &[u8; 16]) -> (r: Option<(u64, u32)>)
    ensures
        r == uuid_unix_time(b@),
        uuid_version(b@) == 7 ==> r == Some(
            ((v7_millis(b@) / 1000) as u64, ((v7_millis(b@) % 1000) * 1_000_000) as u32),
        ),
        uuid_version(b@) != 1 && uuid_version(b@) != 6 && uuid_version(b@) != 7 ==> r is None,
        r matches Some((_, n)) ==> n < 1_000_000_000,
{
    uuid::Uuid::from_bytes(*b).get_timestamp().map(|ts| ts.to_unix())
}

/// `Uuid`'s `Display`: the hyphenated lower-case form that `uuid_text` spells out.
#[verifier::external_body]
fn uuid_to_text(b: &[u8; 16]) -> (r: String)
    ensures
        r@ == uuid_text(b@),
        r@.len() == 36,
{
    uuid::Uuid::from_bytes(*b).to_string()
}

/// `Uuid::parse_str`.
#[verifier::external_body]
fn uuid_parse_str(s: &str) -> (r: Result<[u8; 16], uuid::Error>)
    ensures
        r is Ok <==> uuid_parse(s@) is Some,
        r matches Ok(b) ==> uuid_parse(s@) == Some(b@),
{
    uuid::Uuid::parse_str(s).map(|u| *u.as_bytes())
}

/// `Uuid::from_slice`: the source fails where the slice is not 16 bytes long
/// and otherwise takes the bytes as they are.
#[verifier::external_body]
pub(crate) fn uuid_from_slice(s: &[u8]) -> (r: Result<[u8; 16], uuid::Error>)
    ensures
        r is Ok <==> s@.len() == 16,
        r matches Ok(b) ==> b@ == s@,
{
    uuid::Uuid::from_slice(s).map(|u| *u.as_bytes())
}

/// `UNIX_EPOCH.checked_add(Duration::new(secs, nanos))`; `None` on overflow.
/// `Duration::new` panics where the nanoseconds carry past the largest
/// number of seconds; below one second of nanoseconds there is no carry.
#[verifier::external_body]
fn unix_epoch_plus(secs: u64, nanos: u32) -> (r: Option<std::time::SystemTime>)
    requires
        nanos < 1_000_000_000,
{
    std::time::UNIX_EPOCH.checked_add(std::time::Duration::new(secs, nanos))
}

/// The (seconds, nanoseconds) a transaction id is ordered by: its UUID time,
/// or (0, 0) where the UUID carries none.
pub open spec fn tx_time(t: TxId) -> (u64, u32) {
    match uuid_unix_time(t.0@) {
        Some(p) => p,
        None => (0, 0),
    }
}

/// `a` sorts strictly before `b`: earlier seconds, or equal seconds and earlier nanoseconds.
pub open spec fn tx_lt(a: TxId, b: TxId) -> bool {
    tx_time(a).0 < tx_time(b).0 || (tx_time(a).0 == tx_time(b).0 && tx_time(a).1 < tx_time(b).1)
}

/// `a` sorts no later than `b`.
pub open spec fn tx_le(a: TxId, b: TxId) -> bool {
    !tx_lt(b, a)
}

pub open spec fn is_nil_bytes(b: Seq<u8>) -> bool {
    forall|i: int| 0 <= i < b.len() ==> b[i] == 0
}

impl TxId {
    /// The time this id is ordered by.
    pub fn extract_timestamp(&self) -> (r: (u64, u32))
        ensures
            r == tx_time(*self),
    {
        match uuid_get_unix_time(&self.0) {
            Some(p) => p,
            None => (0, 0),
        }
    }

    /// A fresh id for a transaction beginning now.
    pub fn new() -> (r: TxId)
        ensures
            uuid_version(r.0@) == 7,
    {
        TxId(uuid_now_v7())
    }

    /// The nil id: sixteen zero bytes. It sorts before every version-7 id of a later time.
    pub fn nil() -> (r: TxId)
        ensures
            is_nil_bytes(r.0@),
            r.0@ =~= Seq::new(16, |i: int| 0u8),
    {
        let r = TxId([0u8; 16]);
        proof {
            assert(r.0@ =~= Seq::new(16, |i: int| 0u8));
        }
        r
    }

    /// The point in time this id carries, `None` where it carries none or the
    /// time overflows `SystemTime`.
    pub fn timestamp(&self) -> (r: Option<std::time::SystemTime>)
        ensures
            uuid_unix_time(self.0@) is None ==> r is None,
            r is Some ==> uuid_unix_time(self.0@) is Some,
    {
        match uuid_get_unix_time(&self.0) {
            Some((secs, nanos)) => unix_epoch_plus(secs, nanos),
            None => None,
        }
    }

    /// A version-7 id for a given Unix time (useful for testing and replay).
    pub fn from_timestamp(secs: u64, nanos: u32) -> (r: TxId)
        ensures
            uuid_version(r.0@) == 7,
            v7_millis(r.0@) == v7_millis_of(secs, nanos),
    {
        TxId(uuid_v7_at(secs, nanos))
    }

    /// Whether all sixteen bytes are zero.
    pub fn is_nil(&self) -> (r: bool)
        ensures
            r == is_nil_bytes(self.0@),
    {
        let mut i: usize = 0;
        while i < 16
            invariant
                0 <= i <= 16,
                self.0@.len() == 16,
                forall|j: int| 0 <= j < i ==> self.0@[j] == 0,
            decreases 16 - i,
        {
            if self.0[i] != 0 {
                return false;
            }
            i = i + 1;
        }
        true
    }

    /// The hyphenated text of the UUID (36 characters).
    pub fn to_string(&self) -> (r: String)
        ensures
            r@ == uuid_text(self.0@),
            r@.len() == 36,
    {
        uuid_to_text(&self.0)
    }
}

impl std::str::FromStr for TxId {
    type Err = uuid::Error;

    fn from_str(s: &str) -> (r: core::result::Result<TxId, uuid::Error>)
        ensures
            r is Ok <==> uuid_parse(s@) is Some,
            r matches Ok(t) ==> uuid_parse(s@) == Some(t.0@),
    {
        match uuid_parse_str(s) {
            Ok(b) => Ok(TxId(b)),
            Err(e) => Err(e),
        }
    }
}

impl PartialEq for TxId {
    fn eq(&self, other: &Self) -> (r: bool) {
        let mut i: usize = 0;
        while i < 16
            invariant
                0 <= i <= 16,
                self.0@.len() == 16,
                other.0@.len() == 16,
                forall|j: int| 0 <= j < i ==> self.0@[j] == other.0@[j],
            decreases 16 - i,
        {
            if self.0[i] != other.0[i] {
                return false;
            }
            i = i + 1;
        }
        proof {
            assert(self.0 =~= other.0);
        }
        true
    }
}

impl Eq for TxId {}

/// Two ids with the same bytes are the same id.
pub proof fn lemma_same_bytes_same_id(a: TxId, b: TxId)
    ensures
        a.0@ == b.0@ ==> a == b,
{
    if a.0@ == b.0@ {
        assert(a.0 =~= b.0);
    }
}

impl vstd::std_specs::cmp::PartialEqSpecImpl for TxId {
    open spec fn obeys_eq_spec() -> bool {
        true
    }

    open spec fn eq_spec(&self, other: &Self) -> bool {
        *self == *other
    }
}

} // verus!
