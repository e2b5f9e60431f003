//! Page header and page type definitions.
//!
//! Every page (except page 0 and WAL records) begins with a 64-byte header:
//!
//! | Offset | Size | Field                                  |
//! |--------|------|----------------------------------------|
//! | 0x00   | 1    | magic byte (0x6F, ASCII 'o')           |
//! | 0x01   | 1    | page type                              |
//! | 0x02   | 2    | flags                                  |
//! | 0x04   | 4    | low 32 bits of the page LSN            |
//! | 0x08   | 8    | page id                                |
//! | 0x10   | 8    | next page                              |
//! | 0x18   | 8    | previous page                          |
//! | 0x20   | 8    | parent page                            |
//! | 0x28   | 4    | payload length                         |
//! | 0x2C   | 4    | free offset                            |
//! | 0x30   | 4    | record count                           |
//! | 0x34   | 4    | CRC-32C of the payload                 |
//! | 0x38   | 4    | encryption tag offset                  |
//! | 0x3C   | 4    | high 32 bits of the page LSN           |

use vstd::prelude::*;

use crate::codec::{
    concat_str, copy_range, crc32c, crc32c_of, le_u16, le_u32, le_u64, lemma_u16_at, lemma_u32_at,
    lemma_u64_at, push_slice, push_u16, push_u32, push_u64, read_u16, read_u32, read_u64,
    slice_to_array, u16_at, u32_at, u64_at,
};
use crate::error::{OvnError, OvnResult};

verus! {

/// Size of the page header in bytes.
pub const PAGE_HEADER_SIZE: usize = 64;

/// Magic byte at offset 0 of every data page.
pub const PAGE_MAGIC_BYTE: u8 = 0x6F;

/// Page flag: payload is compressed.
pub const PAGE_FLAG_COMPRESSED: u16 = 1;
/// Page flag: payload is encrypted.
pub const PAGE_FLAG_ENCRYPTED: u16 = 2;
/// Page flag: dirty-on-disk shadow.
pub const PAGE_FLAG_DIRTY_SHADOW: u16 = 4;
/// Page flag: root of a B+ tree.
pub const PAGE_FLAG_IS_ROOT: u16 = 8;

/// Usable payload size of a page of `page_size` bytes.
pub fn payload_size(page_size: u32) -> (r: u32)
    requires
        page_size >= 64,
    ensures
        r == page_size - 64,
{
    page_size - 64
}

/// Page type identifiers.
#[derive(Debug, Clone, Copy, PartialEq, Eq, Hash)]
pub enum PageType {
    Interior,
    Leaf,
    Overflow,
    FreelistLeaf,
    FreelistTrunk,
    DocumentHeap,
    Oplog,
    FtsPosting,
    VectorGraph,
    ColumnChunk,
    GeoRtreeNode,
    HashBucket,
    BloomFilter,
    BitmapFreespace,
    AuditLog,
    SchemaDict,
    LearnedIndex,
    ProfileLog,
    Wal,
    BlobChunk,
    ChangeStreamRecord,
    SegmentDirectory,
    Metadata,
    SstableIndex,
    Free,
    Unused,
}

/// The on-disk code of a page type.
pub open spec fn page_type_code(t: PageType) -> u8 {
    match t {
        PageType::Interior => 0x01,
        PageType::Leaf => 0x02,
        PageType::Overflow => 0x03,
        PageType::FreelistLeaf => 0x04,
        PageType::FreelistTrunk => 0x05,
        PageType::DocumentHeap => 0x06,
        PageType::Oplog => 0x07,
        PageType::FtsPosting => 0x08,
        PageType::VectorGraph => 0x09,
        PageType::ColumnChunk => 0x0A,
        PageType::GeoRtreeNode => 0x0B,
        PageType::HashBucket => 0x0C,
        PageType::BloomFilter => 0x0D,
        PageType::BitmapFreespace => 0x0E,
        PageType::AuditLog => 0x0F,
        PageType::SchemaDict => 0x10,
        PageType::LearnedIndex => 0x11,
        PageType::ProfileLog => 0x12,
        PageType::Wal => 0x14,
        PageType::BlobChunk => 0x16,
        PageType::ChangeStreamRecord => 0x17,
        PageType::SegmentDirectory => 0x20,
        PageType::Metadata => 0x30,
        PageType::SstableIndex => 0x31,
        PageType::Free => 0xFE,
        PageType::Unused => 0xFF,
    }
}

/// The page type with a given code, if any.
pub open spec fn page_type_from_code(b: u8) -> Option<PageType> {
    if b == 0x01 { Some(PageType::Interior) }
    else if b == 0x02 { Some(PageType::Leaf) }
    else if b == 0x03 { Some(PageType::Overflow) }
    else if b == 0x04 { Some(PageType::FreelistLeaf) }
    else if b == 0x05 { Some(PageType::FreelistTrunk) }
    else if b == 0x06 { Some(PageType::DocumentHeap) }
    else if b == 0x07 { Some(PageType::Oplog) }
    else if b == 0x08 { Some(PageType::FtsPosting) }
    else if b == 0x09 { Some(PageType::VectorGraph) }
    else if b == 0x0A { Some(PageType::ColumnChunk) }
    else if b == 0x0B { Some(PageType::GeoRtreeNode) }
    else if b == 0x0C { Some(PageType::HashBucket) }
    else if b == 0x0D { Some(PageType::BloomFilter) }
    else if b == 0x0E { Some(PageType::BitmapFreespace) }
    else if b == 0x0F { Some(PageType::AuditLog) }
    else if b == 0x10 { Some(PageType::SchemaDict) }
    else if b == 0x11 { Some(PageType::LearnedIndex) }
    else if b == 0x12 { Some(PageType::ProfileLog) }
    else if b == 0x14 { Some(PageType::Wal) }
    else if b == 0x16 { Some(PageType::BlobChunk) }
    else if b == 0x17 { Some(PageType::ChangeStreamRecord) }
    else if b == 0x20 { Some(PageType::SegmentDirectory) }
    else if b == 0x30 { Some(PageType::Metadata) }
    else if b == 0x31 { Some(PageType::SstableIndex) }
    else if b == 0xFE { Some(PageType::Free) }
    else if b == 0xFF { Some(PageType::Unused) }
    else { None }
}

impl PageType {
    /// The on-disk code of this page type.
    pub fn code(&self) -> (b: u8)
        ensures
            b == page_type_code(*self),
    {
        match self {
        PageType::Interior => 0x01,
        PageType::Leaf => 0x02,
        PageType::Overflow => 0x03,
        PageType::FreelistLeaf => 0x04,
        PageType::FreelistTrunk => 0x05,
        PageType::DocumentHeap => 0x06,
        PageType::Oplog => 0x07,
        PageType::FtsPosting => 0x08,
        PageType::VectorGraph => 0x09,
        PageType::ColumnChunk => 0x0A,
        PageType::GeoRtreeNode => 0x0B,
        PageType::HashBucket => 0x0C,
        PageType::BloomFilter => 0x0D,
        PageType::BitmapFreespace => 0x0E,
        PageType::AuditLog => 0x0F,
        PageType::SchemaDict => 0x10,
        PageType::LearnedIndex => 0x11,
        PageType::ProfileLog => 0x12,
        PageType::Wal => 0x14,
        PageType::BlobChunk => 0x16,
        PageType::ChangeStreamRecord => 0x17,
        PageType::SegmentDirectory => 0x20,
        PageType::Metadata => 0x30,
        PageType::SstableIndex => 0x31,
        PageType::Free => 0xFE,
        PageType::Unused => 0xFF,
        }
    }

    /// Convert a raw byte to a page type.
    pub fn from_u8(v: u8) -> (r: Option<PageType>)
        ensures
            r == page_type_from_code(v),
    {
        match v {
            0x01 => Some(PageType::Interior),
            0x02 => Some(PageType::Leaf),
            0x03 => Some(PageType::Overflow),
            0x04 => Some(PageType::FreelistLeaf),
            0x05 => Some(PageType::FreelistTrunk),
            0x06 => Some(PageType::DocumentHeap),
            0x07 => Some(PageType::Oplog),
            0x08 => Some(PageType::FtsPosting),
            0x09 => Some(PageType::VectorGraph),
            0x0A => Some(PageType::ColumnChunk),
            0x0B => Some(PageType::GeoRtreeNode),
            0x0C => Some(PageType::HashBucket),
            0x0D => Some(PageType::BloomFilter),
            0x0E => Some(PageType::BitmapFreespace),
            0x0F => Some(PageType::AuditLog),
            0x10 => Some(PageType::SchemaDict),
            0x11 => Some(PageType::LearnedIndex),
            0x12 => Some(PageType::ProfileLog),
            0x14 => Some(PageType::Wal),
            0x16 => Some(PageType::BlobChunk),
            0x17 => Some(PageType::ChangeStreamRecord),
            0x20 => Some(PageType::SegmentDirectory),
            0x30 => Some(PageType::Metadata),
            0x31 => Some(PageType::SstableIndex),
            0xFE => Some(PageType::Free),
            0xFF => Some(PageType::Unused),
            _ => None,
        }
    }

    /// Convert a raw `u32` to a page type (legacy layout stored it as `u32`).
    pub fn from_u32(v: u32) -> (r: Option<PageType>)
        ensures
            r == (if v <= 0xFF { page_type_from_code(v as u8) } else { None }),
    {
        if v <= 0xFF {
            PageType::from_u8(v as u8)
        } else {
            None
        }
    }
}

/// Decoding the code of a page type gives the type back.
pub proof fn lemma_page_type_roundtrip(t: PageType)
    ensures
        page_type_from_code(page_type_code(t)) == Some(t),
{
}

/// A known page code is the code of the type it decodes to.
pub proof fn lemma_page_type_code_inverse(b: u8)
    ensures
        page_type_from_code(b) matches Some(t) ==> page_type_code(t) == b,
{
}


/// The 64-byte header at the start of every page, plus legacy alias fields
/// kept for older engine code (not serialized).
#[derive(Debug, Clone, Copy, PartialEq, Eq)]
pub struct PageHeader {
    pub magic_byte: u8,
    pub page_type: PageType,
    pub flags: u16,
    pub page_lsn_low: u32,
    pub page_id: u64,
    pub next_page: u64,
    pub prev_page: u64,
    pub parent_page: u64,
    pub payload_len: u32,
    pub free_offset: u32,
    pub record_count: u32,
    pub checksum: u32,
    pub encryption_tag_offset: u32,
    pub full_lsn_high: u32,
    /// Legacy alias of `page_id`.
    pub page_number: u64,
    /// Legacy: transaction id that last modified this page.
    pub txid: u64,
    /// Legacy alias of `record_count` (truncated to 16 bits).
    pub slot_count: u16,
    /// Legacy alias of `free_offset` (truncated to 16 bits).
    pub free_space_offset: u16,
    /// Legacy alias of `next_page` (truncated to 32 bits).
    pub right_sibling: u32,
    /// Legacy alias of `checksum`.
    pub crc32: u32,
}

/// The 64-bit LSN made of a high and a low half.
pub open spec fn combine_lsn(high: u32, low: u32) -> u64 {
    ((high as u64) << 32u64) | (low as u64)
}

/// `combine_lsn` is the arithmetic value `high * 2^32 + low`.
pub proof fn lemma_combine_lsn_value(high: u32, low: u32)
    ensures
        combine_lsn(high, low) == high as int * 0x1_0000_0000 + low as int,
{
    assert(((high as u64) << 32u64) | (low as u64) == (high as u64) * 0x1_0000_0000u64 + (low as u64))
        by (bit_vector);
}

/// The serialized 64 bytes of a page header.
pub open spec fn page_header_image(h: PageHeader) -> Seq<u8> {
    seq![h.magic_byte, page_type_code(h.page_type)] + le_u16(h.flags) + le_u32(h.page_lsn_low)
        + le_u64(h.page_id) + le_u64(h.next_page) + le_u64(h.prev_page) + le_u64(h.parent_page)
        + le_u32(h.payload_len) + le_u32(h.free_offset) + le_u32(h.record_count) + le_u32(
        h.checksum,
    ) + le_u32(h.encryption_tag_offset) + le_u32(h.full_lsn_high)
}

/// The page type read from a header image: the byte at offset 1, or else
/// the legacy little-endian `u32` at offset 0, or else `Unused`.
pub open spec fn parsed_page_type(s: Seq<u8>) -> PageType {
    match page_type_from_code(s[1]) {
        Some(t) => t,
        None => {
            let legacy = u32_at(s, 0);
            if legacy <= 0xFF {
                match page_type_from_code(legacy as u8) {
                    Some(t) => t,
                    None => PageType::Unused,
                }
            } else {
                PageType::Unused
            }
        },
    }
}

/// The header decoded from the first 64 bytes of `s`.
pub open spec fn parsed_page_header(s: Seq<u8>) -> PageHeader {
    let record_count = u32_at(s, 48);
    let free_offset = u32_at(s, 44);
    let next_page = u64_at(s, 16);
    let checksum = u32_at(s, 52);
    PageHeader {
        magic_byte: s[0],
        page_type: parsed_page_type(s),
        flags: u16_at(s, 2),
        page_lsn_low: u32_at(s, 4),
        page_id: u64_at(s, 8),
        next_page,
        prev_page: u64_at(s, 24),
        parent_page: u64_at(s, 32),
        payload_len: u32_at(s, 40),
        free_offset,
        record_count,
        checksum,
        encryption_tag_offset: u32_at(s, 56),
        full_lsn_high: u32_at(s, 60),
        page_number: u64_at(s, 8),
        txid: combine_lsn(u32_at(s, 60), u32_at(s, 4)),
        slot_count: record_count as u16,
        free_space_offset: free_offset as u16,
        right_sibling: next_page as u32,
        crc32: checksum,
    }
}

/// A header with its legacy aliases recomputed from the serialized fields,
/// as decoding produces them.
pub open spec fn normalized_header(h: PageHeader) -> PageHeader {
    PageHeader {
        page_number: h.page_id,
        txid: combine_lsn(h.full_lsn_high, h.page_lsn_low),
        slot_count: h.record_count as u16,
        free_space_offset: h.free_offset as u16,
        right_sibling: h.next_page as u32,
        crc32: h.checksum,
        ..h
    }
}

/// A fresh header: given type and page number, magic byte set, all else zero.
pub open spec fn fresh_page_header(page_type: PageType, page_number: u64) -> PageHeader {
    PageHeader {
        magic_byte: PAGE_MAGIC_BYTE,
        page_type,
        flags: 0,
        page_lsn_low: 0,
        page_id: page_number,
        next_page: 0,
        prev_page: 0,
        parent_page: 0,
        payload_len: 0,
        free_offset: 0,
        record_count: 0,
        checksum: 0,
        encryption_tag_offset: 0,
        full_lsn_high: 0,
        page_number,
        txid: 0,
        slot_count: 0,
        free_space_offset: 0,
        right_sibling: 0,
        crc32: 0,
    }
}

impl PageHeader {
    /// A fresh header of the given type and page number; every other field
    /// is zero and the magic byte is set.
    pub fn new(page_type: PageType, page_number: u64) -> (h: PageHeader)
        ensures
            h == fresh_page_header(page_type, page_number),
    {
        PageHeader {
            magic_byte: PAGE_MAGIC_BYTE,
            page_type,
            flags: 0,
            page_lsn_low: 0,
            page_id: page_number,
            next_page: 0,
            prev_page: 0,
            parent_page: 0,
            payload_len: 0,
            free_offset: 0,
            record_count: 0,
            checksum: 0,
            encryption_tag_offset: 0,
            full_lsn_high: 0,
            page_number,
            txid: 0,
            slot_count: 0,
            free_space_offset: 0,
            right_sibling: 0,
            crc32: 0,
        }
    }

    /// The full 64-bit LSN combining the high and low halves.
    pub fn full_lsn(&self) -> (r: u64)
        ensures
            r == combine_lsn(self.full_lsn_high, self.page_lsn_low),
            r == self.full_lsn_high as int * 0x1_0000_0000 + self.page_lsn_low as int,
    {
        proof {
            lemma_combine_lsn_value(self.full_lsn_high, self.page_lsn_low);
        }
        ((self.full_lsn_high as u64) << 32u64) | (self.page_lsn_low as u64)
    }

    /// Set the full 64-bit LSN, splitting it into the two halves; nothing
    /// else changes.
    pub fn set_full_lsn(&mut self, lsn: u64)
        ensures
            final(self).page_lsn_low == lsn % 0x1_0000_0000,
            final(self).full_lsn_high == lsn / 0x1_0000_0000,
            combine_lsn(final(self).full_lsn_high, final(self).page_lsn_low) == lsn,
            *final(self) == (PageHeader {
                page_lsn_low: final(self).page_lsn_low,
                full_lsn_high: final(self).full_lsn_high,
                ..*old(self)
            }),
    {
        let low = lsn as u32;
        let high = (lsn >> 32u64) as u32;
        assert(low == lsn % 0x1_0000_0000 && high == lsn / 0x1_0000_0000) by (bit_vector)
            requires
                low == lsn as u32,
                high == (lsn >> 32u64) as u32,
        ;
        assert(((high as u64) << 32u64) | (low as u64) == lsn) by (bit_vector)
            requires
                low == lsn as u32,
                high == (lsn >> 32u64) as u32,
        ;
        self.page_lsn_low = low;
        self.full_lsn_high = high;
    }

    /// Serialize the header to exactly 64 bytes.
    pub fn to_bytes(&self) -> (out: [u8; 64])
        ensures
            out@ == page_header_image(*self),
    {
        let mut buf: Vec<u8> = Vec::new();
        buf.push(self.magic_byte);
        buf.push(self.page_type.code());
        push_u16(&mut buf, self.flags);
        push_u32(&mut buf, self.page_lsn_low);
        push_u64(&mut buf, self.page_id);
        push_u64(&mut buf, self.next_page);
        push_u64(&mut buf, self.prev_page);
        push_u64(&mut buf, self.parent_page);
        push_u32(&mut buf, self.payload_len);
        push_u32(&mut buf, self.free_offset);
        push_u32(&mut buf, self.record_count);
        push_u32(&mut buf, self.checksum);
        push_u32(&mut buf, self.encryption_tag_offset);
        push_u32(&mut buf, self.full_lsn_high);
        assert(buf@ =~= page_header_image(*self));
        slice_to_array(buf.as_slice())
    }

    /// Decode a page header from a buffer of at least 64 bytes; shorter
    /// buffers are an encoding error.
    pub fn from_bytes(buf: &[u8]) -> (r: OvnResult<PageHeader>)
        ensures
            buf@.len() < 64 ==> r matches Err(OvnError::EncodingError(_)),
            buf@.len() >= 64 ==> r == Ok::<PageHeader, OvnError>(parsed_page_header(buf@)),
    {
        if buf.len() < PAGE_HEADER_SIZE {
            return Err(OvnError::EncodingError("Page header buffer too small".to_string()));
        }
        let magic_byte = buf[0];
        let page_type = match PageType::from_u8(buf[1]) {
            Some(t) => t,
            None => {
                let legacy = read_u32(buf, 0);
                match PageType::from_u32(legacy) {
                    Some(t) => t,
                    None => PageType::Unused,
                }
            },
        };
        let flags = read_u16(buf, 2);
        let page_lsn_low = read_u32(buf, 4);
        let page_id = read_u64(buf, 8);
        let next_page = read_u64(buf, 16);
        let prev_page = read_u64(buf, 24);
        let parent_page = read_u64(buf, 32);
        let payload_len = read_u32(buf, 40);
        let free_offset = read_u32(buf, 44);
        let record_count = read_u32(buf, 48);
        let checksum = read_u32(buf, 52);
        let encryption_tag_offset = read_u32(buf, 56);
        let full_lsn_high = read_u32(buf, 60);
        Ok(PageHeader {
            magic_byte,
            page_type,
            flags,
            page_lsn_low,
            page_id,
            next_page,
            prev_page,
            parent_page,
            payload_len,
            free_offset,
            record_count,
            checksum,
            encryption_tag_offset,
            full_lsn_high,
            page_number: page_id,
            txid: ((full_lsn_high as u64) << 32u64) | (page_lsn_low as u64),
            slot_count: record_count as u16,
            free_space_offset: free_offset as u16,
            right_sibling: next_page as u32,
            crc32: checksum,
        })
    }

    /// Store the CRC-32C of `payload` as the checksum (and its alias).
    pub fn compute_crc(&mut self, payload: &[u8])
        ensures
            *final(self) == (PageHeader {
                checksum: crc32c_of(payload@),
                crc32: crc32c_of(payload@),
                ..*old(self)
            }),
    {
        let c = crc32c(payload);
        self.checksum = c;
        self.crc32 = c;
    }

    /// Check the CRC-32C of `payload` against the stored checksum.
    pub fn verify_crc(&self, payload: &[u8]) -> (r: OvnResult<()>)
        ensures
            r is Ok <==> crc32c_of(payload@) == self.checksum,
            r matches Err(e) ==> e matches OvnError::ChecksumMismatch { expected, actual, .. }
                && expected == self.checksum && actual == crc32c_of(payload@),
    {
        let computed = crc32c(payload);
        if computed != self.checksum {
            let location = concat_str("page ".to_string(), &self.page_id.to_string());
            return Err(
                OvnError::ChecksumMismatch { location, expected: self.checksum, actual: computed },
            );
        }
        Ok(())
    }
}

/// Decoding the image of a header gives back the header, with its legacy
/// aliases recomputed from the serialized fields.
pub proof fn lemma_page_header_roundtrip(h: PageHeader)
    ensures
        page_header_image(h).len() == 64,
        parsed_page_header(page_header_image(h)) == normalized_header(h),
{
    let s = page_header_image(h);
    assert(s.len() == 64);
    assert(s.subrange(2, 4) =~= le_u16(h.flags));
    lemma_u16_at(s, 2, h.flags);
    assert(s.subrange(4, 8) =~= le_u32(h.page_lsn_low));
    lemma_u32_at(s, 4, h.page_lsn_low);
    assert(s.subrange(8, 16) =~= le_u64(h.page_id));
    lemma_u64_at(s, 8, h.page_id);
    assert(s.subrange(16, 24) =~= le_u64(h.next_page));
    lemma_u64_at(s, 16, h.next_page);
    assert(s.subrange(24, 32) =~= le_u64(h.prev_page));
    lemma_u64_at(s, 24, h.prev_page);
    assert(s.subrange(32, 40) =~= le_u64(h.parent_page));
    lemma_u64_at(s, 32, h.parent_page);
    assert(s.subrange(40, 44) =~= le_u32(h.payload_len));
    lemma_u32_at(s, 40, h.payload_len);
    assert(s.subrange(44, 48) =~= le_u32(h.free_offset));
    lemma_u32_at(s, 44, h.free_offset);
    assert(s.subrange(48, 52) =~= le_u32(h.record_count));
    lemma_u32_at(s, 48, h.record_count);
    assert(s.subrange(52, 56) =~= le_u32(h.checksum));
    lemma_u32_at(s, 52, h.checksum);
    assert(s.subrange(56, 60) =~= le_u32(h.encryption_tag_offset));
    lemma_u32_at(s, 56, h.encryption_tag_offset);
    assert(s.subrange(60, 64) =~= le_u32(h.full_lsn_high));
    lemma_u32_at(s, 60, h.full_lsn_high);
    assert(s[0] == h.magic_byte);
    assert(s[1] == page_type_code(h.page_type));
    lemma_page_type_roundtrip(h.page_type);
}


/// A complete page: header and payload bytes, with buffer-pool bookkeeping.
#[derive(Debug, Clone)]
pub struct Page {
    /// The page header.
    pub header: PageHeader,
    /// The payload bytes (page size minus the header).
    pub payload: Vec<u8>,
    /// Whether this page has been modified.
    pub dirty: bool,
    /// Number of active references.
    pub pin_count: u32,
}

/// The bytes a page serializes to: its header with the checksum set to the
/// CRC-32C of the payload, then the payload.
pub open spec fn page_image(header: PageHeader, payload: Seq<u8>) -> Seq<u8> {
    page_header_image(PageHeader { checksum: crc32c_of(payload), crc32: crc32c_of(payload), ..header })
        + payload
}

impl Page {
    /// A clean, unpinned page of `page_size` bytes with a fresh header and a
    /// zeroed payload.
    pub fn new(page_type: PageType, page_number: u64, page_size: u32) -> (p: Page)
        requires
            page_size >= 64,
        ensures
            p.header == fresh_page_header(page_type, page_number),
            p.payload@ == crate::codec::zeros((page_size - 64) as nat),
            !p.dirty,
            p.pin_count == 0,
    {
        let mut payload: Vec<u8> = Vec::new();
        crate::codec::push_zeros(&mut payload, (page_size - 64) as usize);
        Page { header: PageHeader::new(page_type, page_number), payload, dirty: false, pin_count: 0 }
    }

    /// Serialize the whole page; the header written carries the CRC-32C of
    /// the payload (the page itself is not changed).
    pub fn to_bytes(&self) -> (out: Vec<u8>)
        ensures
            out@ == page_image(self.header, self.payload@),
    {
        let mut header = self.header;
        header.compute_crc(self.payload.as_slice());
        let hb = header.to_bytes();
        let mut buf: Vec<u8> = Vec::new();
        push_slice(&mut buf, hb.as_slice());
        push_slice(&mut buf, self.payload.as_slice());
        buf
    }

    /// Decode a page of `page_size` bytes. The buffer must hold at least
    /// `page_size` bytes; a nonzero stored checksum must match the CRC-32C
    /// of the payload.
    pub fn from_bytes(buf: &[u8], page_size: u32) -> (r: OvnResult<Page>)
        requires
            buf@.len() < page_size || page_size >= 64,
        ensures
            buf@.len() < page_size ==> r matches Err(OvnError::EncodingError(_)),
            buf@.len() >= page_size ==> {
                let h = parsed_page_header(buf@);
                let payload = buf@.subrange(64, page_size as int);
                if h.checksum != 0 && crc32c_of(payload) != h.checksum {
                    r matches Err(OvnError::ChecksumMismatch { expected, actual, .. })
                        && expected == h.checksum && actual == crc32c_of(payload)
                } else {
                    r matches Ok(p) && p.header == h && p.payload@ == payload && !p.dirty
                        && p.pin_count == 0
                }
            },
    {
        if buf.len() < page_size as usize {
            return Err(OvnError::EncodingError("Page buffer too small".to_string()));
        }
        let header = match PageHeader::from_bytes(buf) {
            Ok(h) => h,
            Err(e) => { return Err(e); },
        };
        let payload = copy_range(buf, 64, page_size as usize);
        if header.checksum != 0 {
            match header.verify_crc(payload.as_slice()) {
                Ok(()) => {},
                Err(e) => { return Err(e); },
            }
        }
        Ok(Page { header, payload, dirty: false, pin_count: 0 })
    }

    /// Total page size including the header.
    pub fn total_size(&self) -> (r: usize)
        requires
            self.payload@.len() + 64 <= usize::MAX,
        ensures
            r == 64 + self.payload@.len(),
    {
        64 + self.payload.len()
    }
}

/// Decoding a serialized page gives back its header (with the payload
/// checksum filled in and the legacy aliases recomputed) and its payload;
/// the decoded page is clean and unpinned.
pub proof fn lemma_page_roundtrip(header: PageHeader, payload: Seq<u8>)
    ensures
        ({
            let s = page_image(header, payload);
            let h = PageHeader { checksum: crc32c_of(payload), crc32: crc32c_of(payload), ..header };
            &&& s.len() == 64 + payload.len()
            &&& parsed_page_header(s) == normalized_header(h)
            &&& s.subrange(64, s.len() as int) == payload
            &&& (parsed_page_header(s).checksum == 0 || crc32c_of(s.subrange(64, s.len() as int))
                == parsed_page_header(s).checksum)
        }),
{
    let s = page_image(header, payload);
    let h = PageHeader { checksum: crc32c_of(payload), crc32: crc32c_of(payload), ..header };
    let img = page_header_image(h);
    lemma_page_header_roundtrip(h);
    assert(s.subrange(0, 64) =~= img);
    assert(s.subrange(64, s.len() as int) =~= payload);
    // the header fields read from `s` only look at its first 64 bytes
    assert forall|i: int| 0 <= i < 64 implies s[i] == img[i] by {
        assert(s[i] == s.subrange(0, 64)[i]);
    }
    assert(parsed_page_header(s) == parsed_page_header(img));
}

/// Slot entry of a leaf page's slot array, packed into 4 bytes:
/// bits 0..15 offset, bits 16..30 length, bit 31 tombstone.
#[derive(Debug, Clone, Copy, PartialEq, Eq)]
pub struct SlotEntry {
    /// Offset of the document within the payload.
    pub doc_offset: u16,
    /// Length of the document in bytes.
    pub doc_length: u16,
    /// Whether this slot is tombstoned.
    pub tombstone: bool,
}

/// The packed form of a slot entry.
pub open spec fn slot_packed(s: SlotEntry) -> u32 {
    (s.doc_offset as u32) | ((s.doc_length as u32) << 16u32) | (if s.tombstone {
        0x8000_0000u32
    } else {
        0u32
    })
}

/// The slot entry unpacked from a `u32`.
pub open spec fn slot_unpacked(p: u32) -> SlotEntry {
    SlotEntry {
        doc_offset: (p & 0xFFFF) as u16,
        doc_length: ((p >> 16u32) & 0x7FFF) as u16,
        tombstone: p & 0x8000_0000 != 0,
    }
}

impl SlotEntry {
    /// Pack into 4 bytes: `offset | length << 16 | tombstone << 31`.
    pub fn to_packed(&self) -> (r: u32)
        ensures
            r == slot_packed(*self),
    {
        let mut packed = (self.doc_offset as u32) | ((self.doc_length as u32) << 16u32);
        if self.tombstone {
            packed = packed | 0x8000_0000u32;
        }
        assert(packed == packed | 0u32) by (bit_vector);
        packed
    }

    /// Unpack from 4 bytes.
    pub fn from_packed(packed: u32) -> (r: SlotEntry)
        ensures
            r == slot_unpacked(packed),
    {
        SlotEntry {
            doc_offset: (packed & 0xFFFF) as u16,
            doc_length: ((packed >> 16u32) & 0x7FFF) as u16,
            tombstone: packed & 0x8000_0000 != 0,
        }
    }

    /// Serialize to 4 little-endian bytes.
    pub fn to_bytes(&self) -> (r: [u8; 4])
        ensures
            r@ == le_u32(slot_packed(*self)),
    {
        let mut buf: Vec<u8> = Vec::new();
        push_u32(&mut buf, self.to_packed());
        assert(buf@ =~= le_u32(slot_packed(*self)));
        slice_to_array(buf.as_slice())
    }

    /// Deserialize from 4 little-endian bytes.
    pub fn from_bytes(buf: &[u8; 4]) -> (r: SlotEntry)
        ensures
            r == slot_unpacked(u32_at(buf@, 0)),
    {
        SlotEntry::from_packed(read_u32(buf.as_slice(), 0))
    }
}

/// Unpacking a packed slot gives it back whenever its length fits in 15 bits.
pub proof fn lemma_slot_roundtrip(s: SlotEntry)
    requires
        s.doc_length < 0x8000,
    ensures
        slot_unpacked(slot_packed(s)) == s,
{
    let o = s.doc_offset;
    let l = s.doc_length;
    let t: u32 = if s.tombstone { 0x8000_0000u32 } else { 0u32 };
    let p = (o as u32) | ((l as u32) << 16u32) | t;
    assert(((p & 0xFFFF) as u16) == o && (((p >> 16u32) & 0x7FFF) as u16) == l) by (bit_vector)
        requires
            p == (o as u32) | ((l as u32) << 16u32) | t,
            t == 0 || t == 0x8000_0000u32,
            l < 0x8000,
    ;
    assert((p & 0x8000_0000 != 0) == (t != 0)) by (bit_vector)
        requires
            p == (o as u32) | ((l as u32) << 16u32) | t,
            t == 0 || t == 0x8000_0000u32,
            l < 0x8000,
    ;
}

/// Packing an unpacked word gives the word back: every `u32` is the image
/// of exactly one slot entry.
pub proof fn lemma_slot_packed_inverse(p: u32)
    ensures
        slot_packed(slot_unpacked(p)) == p,
        slot_unpacked(p).doc_length < 0x8000,
{
    let s = slot_unpacked(p);
    let t: u32 = if s.tombstone { 0x8000_0000u32 } else { 0u32 };
    assert(((p & 0xFFFF) as u16) as u32 | (((((p >> 16u32) & 0x7FFF) as u16) as u32) << 16u32)
        | (if p & 0x8000_0000 != 0 { 0x8000_0000u32 } else { 0u32 }) == p) by (bit_vector);
    assert((((p >> 16u32) & 0x7FFF) as u16) < 0x8000) by (bit_vector);
}

/// Decoding the bytes of a slot entry gives back its packed word.
pub proof fn lemma_slot_bytes_roundtrip(s: SlotEntry)
    ensures
        u32_at(le_u32(slot_packed(s)), 0) == slot_packed(s),
{
    let b = le_u32(slot_packed(s));
    assert(b.subrange(0, 4) =~= b);
    lemma_u32_at(b, 0, slot_packed(s));
}
} // verus!
