//! `.ovn2` binary format definitions: segment codes and header flags, plus
//! the file header, page header, segment directory and OBE encodings.

pub mod flags;
pub mod header;
pub mod obe;
pub mod page;
pub mod segment;

use vstd::prelude::*;

verus! {

/// Segment type codes used in the Segment Directory (page 1).
#[derive(Debug, Clone, Copy, PartialEq, Eq, Hash)]
pub enum SegmentType {
    Header,
    Data,
    Index,
    Wal,
    Metadata,
    Blob,
    ChangeStream,
    AttachedDb,
    Columnar,
    Vector,
    CdcLog,
    Security,
    EmbeddingCache,
    ZoneMap,
    LearnedIndex,
    AuditLog,
}

/// The on-disk code of a segment type.
pub open spec fn segment_code(t: SegmentType) -> u8 {
    match t {
        SegmentType::Header => 0x01,
        SegmentType::Data => 0x02,
        SegmentType::Index => 0x03,
        SegmentType::Wal => 0x04,
        SegmentType::Metadata => 0x05,
        SegmentType::Blob => 0x06,
        SegmentType::ChangeStream => 0x07,
        SegmentType::AttachedDb => 0x08,
        SegmentType::Columnar => 0x09,
        SegmentType::Vector => 0x0A,
        SegmentType::CdcLog => 0x0B,
        SegmentType::Security => 0x0C,
        SegmentType::EmbeddingCache => 0x0D,
        SegmentType::ZoneMap => 0x0E,
        SegmentType::LearnedIndex => 0x0F,
        SegmentType::AuditLog => 0x10,
    }
}

/// The segment type with a given code, if the code is known.
pub open spec fn segment_from_code(b: u8) -> Option<SegmentType> {
    if b == 0x01 { Some(SegmentType::Header) }
    else if b == 0x02 { Some(SegmentType::Data) }
    else if b == 0x03 { Some(SegmentType::Index) }
    else if b == 0x04 { Some(SegmentType::Wal) }
    else if b == 0x05 { Some(SegmentType::Metadata) }
    else if b == 0x06 { Some(SegmentType::Blob) }
    else if b == 0x07 { Some(SegmentType::ChangeStream) }
    else if b == 0x08 { Some(SegmentType::AttachedDb) }
    else if b == 0x09 { Some(SegmentType::Columnar) }
    else if b == 0x0A { Some(SegmentType::Vector) }
    else if b == 0x0B { Some(SegmentType::CdcLog) }
    else if b == 0x0C { Some(SegmentType::Security) }
    else if b == 0x0D { Some(SegmentType::EmbeddingCache) }
    else if b == 0x0E { Some(SegmentType::ZoneMap) }
    else if b == 0x0F { Some(SegmentType::LearnedIndex) }
    else if b == 0x10 { Some(SegmentType::AuditLog) }
    else { None }
}

impl SegmentType {
    /// The on-disk code of this segment type.
    pub fn code(&self) -> (b: u8)
        ensures
            b == segment_code(*self),
    {
        match self {
            SegmentType::Header => 0x01,
            SegmentType::Data => 0x02,
            SegmentType::Index => 0x03,
            SegmentType::Wal => 0x04,
            SegmentType::Metadata => 0x05,
            SegmentType::Blob => 0x06,
            SegmentType::ChangeStream => 0x07,
            SegmentType::AttachedDb => 0x08,
            SegmentType::Columnar => 0x09,
            SegmentType::Vector => 0x0A,
            SegmentType::CdcLog => 0x0B,
            SegmentType::Security => 0x0C,
            SegmentType::EmbeddingCache => 0x0D,
            SegmentType::ZoneMap => 0x0E,
            SegmentType::LearnedIndex => 0x0F,
            SegmentType::AuditLog => 0x10,
        }
    }

    /// Convert a raw byte to a segment type; `None` for unknown codes, which
    /// readers skip.
    pub fn from_byte(b: u8) -> (r: Option<SegmentType>)
        ensures
            r == segment_from_code(b),
    {
        match b {
            0x01 => Some(SegmentType::Header),
            0x02 => Some(SegmentType::Data),
            0x03 => Some(SegmentType::Index),
            0x04 => Some(SegmentType::Wal),
            0x05 => Some(SegmentType::Metadata),
            0x06 => Some(SegmentType::Blob),
            0x07 => Some(SegmentType::ChangeStream),
            0x08 => Some(SegmentType::AttachedDb),
            0x09 => Some(SegmentType::Columnar),
            0x0A => Some(SegmentType::Vector),
            0x0B => Some(SegmentType::CdcLog),
            0x0C => Some(SegmentType::Security),
            0x0D => Some(SegmentType::EmbeddingCache),
            0x0E => Some(SegmentType::ZoneMap),
            0x0F => Some(SegmentType::LearnedIndex),
            0x10 => Some(SegmentType::AuditLog),
            _ => None,
        }
    }

    /// Whether pages of this segment carry CRC32C checksums (all but the WAL,
    /// whose records carry their own).
    pub fn requires_checksum(&self) -> (r: bool)
        ensures
            r == !(*self is Wal),
    {
        !matches!(self, SegmentType::Wal)
    }

    /// Whether this segment is new in v2 (absent from v1 files).
    pub fn is_v2_only(&self) -> (r: bool)
        ensures
            r == (0x09 <= segment_code(*self) <= 0x10),
    {
        matches!(
            self,
            SegmentType::Columnar | SegmentType::Vector | SegmentType::CdcLog
                | SegmentType::Security | SegmentType::EmbeddingCache | SegmentType::ZoneMap
                | SegmentType::LearnedIndex | SegmentType::AuditLog
        )
    }
}

/// Decoding the code of a segment type gives the type back.
pub proof fn lemma_segment_code_roundtrip(t: SegmentType)
    ensures
        segment_from_code(segment_code(t)) == Some(t),
{
}

/// A known code is the code of the segment type it decodes to.
pub proof fn lemma_segment_from_code_inverse(b: u8)
    ensures
        segment_from_code(b) matches Some(t) ==> segment_code(t) == b,
        segment_from_code(b) is Some <==> 0x01 <= b <= 0x10,
{
}

} // verus!
