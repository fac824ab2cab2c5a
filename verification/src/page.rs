//! Fixed-size, checksummed pages: the unit the page file reads and writes.
//!
//! On-disk layout of a page (little endian):
//! `magic (4) | type (2) | flags (2) | page id (8) | lsn (8) | payload length (4) | crc32 (4) | payload | zero fill`
//! The checksum covers the first 28 bytes and the payload.

use vstd::prelude::*;
use vstd::bytes::*;
use vstd::slice::slice_subrange;
use vstd::string::*;
use crate::error::{DbError, Result};
use crate::bytes::{push_slice, copy_range, range_equals, zeros};

verus! {

pub const PAGE_SIZE: usize = 4096;

/// The header occupies the first 32 bytes of a page.
pub const PAGE_HEADER_SIZE: usize = 32;

/// The largest payload a page can hold.
pub const MAX_PAYLOAD: usize = 4064;

/// The magic bytes `SABI` that open every page.
pub const PAGE_MAGIC: [u8; 4] = [0x53, 0x41, 0x42, 0x49];

pub open spec fn page_magic() -> Seq<u8> {
    seq![0x53u8, 0x41u8, 0x42u8, 0x49u8]
}

/// What a page holds.
#[derive(Debug, Clone, Copy, PartialEq, Eq, Structural)]
pub enum PageType {
    /// Unallocated page (code 0).
    Free,
    /// Raw data storage (code 1).
    Data,
    /// B+Tree internal node (code 2).
    BTreeInternal,
    /// B+Tree leaf node (code 3).
    BTreeLeaf,
}

pub type PageId = u64;

/// The 2-byte code a page type is stored as.
pub open spec fn page_type_code(t: PageType) -> u16 {
    match t {
        PageType::Free => 0,
        PageType::Data => 1,
        PageType::BTreeInternal => 2,
        PageType::BTreeLeaf => 3,
    }
}

/// The page type a code stands for, `None` for an unknown code.
pub open spec fn page_type_of_code(v: u16) -> Option<PageType> {
    if v == 0 {
        Some(PageType::Free)
    } else if v == 1 {
        Some(PageType::Data)
    } else if v == 2 {
        Some(PageType::BTreeInternal)
    } else if v == 3 {
        Some(PageType::BTreeLeaf)
    } else {
        None
    }
}

impl PageType {
    /// The code this type is stored as.
    pub fn code(&self) -> (r: u16)
        ensures
            r == page_type_code(*self),
    {
        match self {
            PageType::Free => 0,
            PageType::Data => 1,
            PageType::BTreeInternal => 2,
            PageType::BTreeLeaf => 3,
        }
    }

    /// Reads a stored code; an unknown code is corruption.
    pub fn from_code(value: u16) -> (r: Result<PageType>)
        ensures
            page_type_of_code(value) matches Some(t) ==> (r matches Ok(u) && u == t),
            page_type_of_code(value) is None ==> r matches Err(DbError::Corruption(_)),
    {
        if value == 0 {
            Ok(PageType::Free)
        } else if value == 1 {
            Ok(PageType::Data)
        } else if value == 2 {
            Ok(PageType::BTreeInternal)
        } else if value == 3 {
            Ok(PageType::BTreeLeaf)
        } else {
            Err(DbError::Corruption(String::from_str("Unknown page type")))
        }
    }
}

impl TryFrom<u16> for PageType {
    type Error = DbError;

    fn try_from(value: u16) -> (r: Result<PageType>)
        ensures
            page_type_of_code(value) matches Some(t) ==> (r matches Ok(u) && u == t),
            page_type_of_code(value) is None ==> r matches Err(DbError::Corruption(_)),
    {
        PageType::from_code(value)
    }
}

impl vstd::std_specs::convert::TryFromSpecImpl<u16> for PageType {
    /// The error carries text, which a specification cannot build; what
    /// `try_from` returns is stated by `PageType::from_code`.
    open spec fn obeys_try_from_spec() -> bool {
        false
    }

    open spec fn try_from_spec(v: u16) -> core::result::Result<PageType, DbError> {
        arbitrary()
    }
}

#[derive(Debug, Clone)]
pub struct PageHeader {
    pub page_type: PageType,
    /// Custom flags (dirty, compressed, ...).
    pub flags: u16,
    pub page_id: u64,
    /// Log sequence number of the last WAL record applied to the page.
    pub lsn: u64,
    /// Size of the payload in bytes.
    pub payload_len: u32,
}

#[derive(Debug, Clone)]
pub struct Page {
    pub header: PageHeader,
    pub payload: Vec<u8>,
}

/// The CRC-32 (IEEE) checksum that `crc32fast::Hasher` computes over these bytes.
pub uninterp spec fn crc32_of(data: Seq<u8>) -> u32;

/// `crc32fast::Hasher::new`, `update`, `finalize`: the checksum of `data`, named, not stated.
#[verifier::external_body]
pub(crate) fn crc32(data: &[u8]) -> (r: u32)
    ensures
        r == crc32_of(data@),
{
    let mut hasher = crc32fast::Hasher::new();
    hasher.update(data);
    hasher.finalize()
}

/// The first 28 bytes of a page: everything in the header but the checksum.
pub open spec fn page_header_bytes(h: PageHeader, len: u32) -> Seq<u8> {
    page_magic() + spec_u16_to_le_bytes(page_type_code(h.page_type)) + spec_u16_to_le_bytes(h.flags)
        + spec_u64_to_le_bytes(h.page_id) + spec_u64_to_le_bytes(h.lsn) + spec_u32_to_le_bytes(len)
}

/// The 4096 bytes a page with this header and payload is stored as. The
/// stored payload length is the payload's actual length.
pub open spec fn page_image(h: PageHeader, payload: Seq<u8>) -> Seq<u8> {
    let pre = page_header_bytes(h, payload.len() as u32);
    pre + spec_u32_to_le_bytes(crc32_of(pre + payload)) + payload
        + Seq::new((MAX_PAYLOAD - payload.len()) as nat, |i: int| 0u8)
}

pub open spec fn stored_payload_len(data: Seq<u8>) -> u32 {
    spec_u32_from_le_bytes(data.subrange(24, 28))
}

/// The bytes the checksum of a stored page covers.
pub open spec fn checksummed_bytes(data: Seq<u8>) -> Seq<u8> {
    data.subrange(0, 28) + data.subrange(32, 32 + stored_payload_len(data))
}

/// The header and payload a stored page decodes to, `None` where the magic,
/// the page type or the checksum is wrong.
pub open spec fn page_decode(data: Seq<u8>) -> Option<(PageHeader, Seq<u8>)> {
    if data.subrange(0, 4) != page_magic() {
        None
    } else {
        match page_type_of_code(spec_u16_from_le_bytes(data.subrange(4, 6))) {
            None => None,
            Some(t) => {
                let len = stored_payload_len(data);
                if crc32_of(checksummed_bytes(data)) != spec_u32_from_le_bytes(data.subrange(28, 32)) {
                    None
                } else {
                    Some((
                        PageHeader {
                            page_type: t,
                            flags: spec_u16_from_le_bytes(data.subrange(6, 8)),
                            page_id: spec_u64_from_le_bytes(data.subrange(8, 16)),
                            lsn: spec_u64_from_le_bytes(data.subrange(16, 24)),
                            payload_len: len,
                        },
                        data.subrange(32, 32 + len),
                    ))
                }
            },
        }
    }
}

/// Decoding reads the payload only where the stored length fits in the page:
/// a page with a good magic and type but a longer stored length cannot be read.
pub open spec fn page_readable(data: Seq<u8>) -> bool {
    &&& data.len() == PAGE_SIZE
    &&& (data.subrange(0, 4) == page_magic() && page_type_of_code(
        spec_u16_from_le_bytes(data.subrange(4, 6)),
    ) is Some) ==> 32 + stored_payload_len(data) <= PAGE_SIZE
}

impl Page {
    /// An empty page of the given id and type.
    pub fn new(page_id: u64, page_type: PageType) -> (r: Page)
        ensures
            r.header.page_id == page_id,
            r.header.page_type == page_type,
            r.header.flags == 0,
            r.header.lsn == 0,
            r.header.payload_len == 0,
            r.payload@.len() == 0,
    {
        Page {
            header: PageHeader { page_type, flags: 0, page_id, lsn: 0, payload_len: 0 },
            payload: Vec::new(),
        }
    }

    /// The page as the 4096 bytes it is stored as; a payload longer than
    /// 4064 bytes does not fit and is reported as corruption.
    pub fn serialize(&self) -> (r: Result<Vec<u8>>)
        ensures
            self.payload@.len() > MAX_PAYLOAD ==> r matches Err(DbError::Corruption(_)),
            self.payload@.len() <= MAX_PAYLOAD ==> (r matches Ok(buf) && buf@ == page_image(
                self.header,
                self.payload@,
            ) && buf@.len() == PAGE_SIZE),
    {
        if self.payload.len() > MAX_PAYLOAD {
            return Err(DbError::Corruption(String::from_str("Page payload overflow")));
        }
        let payload_length = self.payload.len() as u32;
        let mut buf: Vec<u8> = Vec::new();
        buf.push(0x53u8);
        buf.push(0x41u8);
        buf.push(0x42u8);
        buf.push(0x49u8);
        proof {
            assert(buf@ =~= page_magic());
        }
        let mut t = u16_to_le_bytes(self.header.page_type.code());
        buf.append(&mut t);
        let mut f = u16_to_le_bytes(self.header.flags);
        buf.append(&mut f);
        let mut id = u64_to_le_bytes(self.header.page_id);
        buf.append(&mut id);
        let mut lsn = u64_to_le_bytes(self.header.lsn);
        buf.append(&mut lsn);
        let mut len = u32_to_le_bytes(payload_length);
        buf.append(&mut len);
        proof {
            assert(buf@ =~= page_header_bytes(self.header, payload_length));
        }
        let ghost pre = buf@;
        let mut covered: Vec<u8> = copy_range(buf.as_slice(), 0, buf.len());
        push_slice(&mut covered, self.payload.as_slice());
        proof {
            assert(pre.subrange(0, pre.len() as int) =~= pre);
            assert(covered@ == pre + self.payload@);
        }
        let checksum = crc32(covered.as_slice());
        let mut c = u32_to_le_bytes(checksum);
        buf.append(&mut c);
        push_slice(&mut buf, self.payload.as_slice());
        let mut fill = zeros(MAX_PAYLOAD - self.payload.len());
        buf.append(&mut fill);
        proof {
            assert(buf@ == pre + spec_u32_to_le_bytes(crc32_of(pre + self.payload@)) + self.payload@
                + Seq::new((MAX_PAYLOAD - self.payload@.len()) as nat, |i: int| 0u8));
            assert(buf@ =~= page_image(self.header, self.payload@));
            lemma_auto_spec_u16_to_from_le_bytes();
            lemma_auto_spec_u32_to_from_le_bytes();
            lemma_auto_spec_u64_to_from_le_bytes();
        }
        Ok(buf)
    }

    /// Reads a stored page back, checking the magic, the page type and the checksum.
    pub fn deserialize(data: &[u8]) -> (r: Result<Page>)
        requires
            page_readable(data@),
        ensures
            r is Ok <==> page_decode(data@) is Some,
            r matches Ok(p) ==> page_decode(data@) == Some((p.header, p.payload@)),
            r matches Err(e) ==> e is Corruption,
    {
        let magic: [u8; 4] = PAGE_MAGIC;
        proof {
            assert(magic@ =~= page_magic());
        }
        if !range_equals(data, 0, magic.as_slice()) {
            return Err(DbError::Corruption(String::from_str("Invalid page magic")));
        }
        let code = u16_from_le_bytes(slice_subrange(data, 4, 6));
        let page_type = match PageType::from_code(code) {
            Ok(t) => t,
            Err(e) => return Err(e),
        };
        let flags = u16_from_le_bytes(slice_subrange(data, 6, 8));
        let page_id = u64_from_le_bytes(slice_subrange(data, 8, 16));
        let lsn = u64_from_le_bytes(slice_subrange(data, 16, 24));
        let payload_len = u32_from_le_bytes(slice_subrange(data, 24, 28));
        let expected_checksum = u32_from_le_bytes(slice_subrange(data, 28, 32));
        let end: usize = 32 + payload_len as usize;
        let mut covered = copy_range(data, 0, 28);
        let payload = copy_range(data, 32, end);
        push_slice(&mut covered, payload.as_slice());
        let actual_checksum = crc32(covered.as_slice());
        if actual_checksum != expected_checksum {
            return Err(DbError::Corruption(String::from_str("Page checksum mismatch")));
        }
        Ok(Page {
            header: PageHeader { page_type, flags, page_id, lsn, payload_len },
            payload,
        })
    }
}

/// A page read back gives the header and payload it was written with; the
/// stored payload length is the payload's length.
pub proof fn lemma_page_round_trip(h: PageHeader, payload: Seq<u8>)
    requires
        payload.len() <= MAX_PAYLOAD,
    ensures
        page_readable(page_image(h, payload)),
        page_decode(page_image(h, payload)) == Some((
            PageHeader { payload_len: payload.len() as u32, ..h },
            payload,
        )),
{
    lemma_auto_spec_u16_to_from_le_bytes();
    lemma_auto_spec_u32_to_from_le_bytes();
    lemma_auto_spec_u64_to_from_le_bytes();
    let len = payload.len() as u32;
    let pre = page_header_bytes(h, len);
    let img = page_image(h, payload);
    assert(pre.len() == 28);
    assert(img.subrange(0, 4) =~= page_magic());
    assert(img.subrange(4, 6) =~= spec_u16_to_le_bytes(page_type_code(h.page_type)));
    assert(img.subrange(6, 8) =~= spec_u16_to_le_bytes(h.flags));
    assert(img.subrange(8, 16) =~= spec_u64_to_le_bytes(h.page_id));
    assert(img.subrange(16, 24) =~= spec_u64_to_le_bytes(h.lsn));
    assert(img.subrange(24, 28) =~= spec_u32_to_le_bytes(len));
    assert(img.subrange(28, 32) =~= spec_u32_to_le_bytes(crc32_of(pre + payload)));
    assert(img.subrange(0, 28) =~= pre);
    assert(img.subrange(32, 32 + len) =~= payload);
    assert(checksummed_bytes(img) =~= pre + payload);
}

/// The page ids a page file has freed, for reuse, most recently freed last.
#[derive(Debug)]
pub struct FreeList {
    ids: Vec<u64>,
}

impl View for FreeList {
    type V = Seq<u64>;

    closed spec fn view(&self) -> Seq<u64> {
        self.ids@
    }
}

impl FreeList {
    pub fn new() -> (r: FreeList)
        ensures
            r@ == Seq::<u64>::empty(),
    {
        FreeList { ids: Vec::new() }
    }

    /// The most recently freed page, taken off the list; `None` where no
    /// page is free.
    pub fn take_freed(&mut self) -> (r: Option<u64>)
        ensures
            old(self)@.len() > 0 ==> r == Some(old(self)@.last()) && final(self)@ == old(self)@.drop_last(),
            old(self)@.len() == 0 ==> r is None && final(self)@ == old(self)@,
    {
        self.ids.pop()
    }

    /// Makes a page available again.
    pub fn free(&mut self, page_id: u64)
        ensures
            final(self)@ == old(self)@.push(page_id),
    {
        self.ids.push(page_id);
    }
}

/// The page just past the end of a file of `file_len` bytes: where a page
/// file grows when no page is free.
pub fn page_after(file_len: u64) -> (r: u64)
    ensures
        r == file_len / (PAGE_SIZE as u64),
{
    file_len / (PAGE_SIZE as u64)
}

/// A page freed and then taken is handed out again, and the free list is as
/// it was.
pub proof fn lemma_free_then_allocate(ids: Seq<u64>, page_id: u64)
    ensures
        ids.push(page_id).len() > 0,
        ids.push(page_id).last() == page_id,
        ids.push(page_id).drop_last() == ids,
{
    assert(ids.push(page_id).drop_last() =~= ids);
}

} // verus!
