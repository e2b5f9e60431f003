//! The decisions of opening a database file: how an existing file opens
//! from its header, what a new file starts with, and where the WAL starts.

use vstd::prelude::*;

use crate::engine::config::OvnConfig;
use crate::error::{OvnError, OvnResult};
use crate::format::flags;
use crate::codec::{crc32c_of, u16_at, u32_at};
use crate::format::header::{fresh_header_fields, FileHeader, FileVersion};
use crate::format::segment::{dir_crc_offset, parsed_dir, SegmentDirectory, SegmentEntry, SEGMENT_DIR_MAGIC};

verus! {

/// How an existing database opens.
#[derive(Debug)]
pub struct OpenMode {
    /// The header read from page 0.
    pub header: FileHeader,
    /// Whether the engine refuses writes.
    pub read_only: bool,
    /// Whether crash recovery runs (the WAL was left active).
    pub recover: bool,
    /// Byte offset at which the WAL starts.
    pub wal_offset: u64,
}

/// The WAL never starts before the first two pages (header and segment
/// directory); a smaller recorded offset is raised to that.
pub open spec fn wal_offset_spec(recorded: u64, page_size: u32) -> u64 {
    let min = 2 * page_size;
    if recorded < min {
        min as u64
    } else {
        recorded
    }
}

/// The WAL start offset for a recorded offset and page size.
pub fn wal_start(recorded: u64, page_size: u32) -> (o: u64)
    ensures
        o == wal_offset_spec(recorded, page_size),
{
    let min = page_size as u64 * 2;
    if recorded < min {
        min
    } else {
        recorded
    }
}

/// How an existing database opens from the outcome of reading its header:
/// a header that could not be read refuses the open with its error; a v1
/// file opens read-only (compatibility mode); a v2 file with the WAL flag
/// set opens with crash recovery; the WAL starts at the recorded offset,
/// but never inside the first two pages.
pub fn open_mode(header: OvnResult<FileHeader>, cfg: &OvnConfig) -> (r: OvnResult<OpenMode>)
    ensures
        match header {
            Err(e) => r == Err::<OpenMode, OvnError>(e),
            Ok(h) => r matches Ok(m) && m.header == h && m.read_only == (cfg.read_only || h.file_version
                == FileVersion::V1) && m.recover == (h.file_version == FileVersion::V2 && h.flags
                & flags::WAL_ACTIVE != 0) && m.wal_offset == wal_offset_spec(h.wal_start_offset, cfg.page_size),
        },
{
    match header {
        Err(e) => Err(e),
        Ok(h) => {
            let v1 = h.is_v1_compat();
            let recover = !v1 && h.is_wal_active();
            let wal_offset = wal_start(h.wal_start_offset, cfg.page_size);
            Ok(OpenMode { header: h, read_only: cfg.read_only || v1, recover, wal_offset })
        },
    }
}

/// Whether a directory page decodes: long enough, with a matching (or
/// zero) CRC, the directory magic, and entries that fit.
pub open spec fn dir_page_valid(s: Seq<u8>) -> bool {
    let off = dir_crc_offset(s.len() as int);
    let stored = u32_at(s, off);
    &&& s.len() >= 8
    &&& (stored == 0 || crc32c_of(s.subrange(0, off)) == stored)
    &&& u32_at(s, 0) == SEGMENT_DIR_MAGIC
    &&& 8 + 32 * u16_at(s, 4) <= s.len()
}

/// The segment directory an existing database opens with: the one decoded
/// from page 1, or an empty one when page 1 could not be read or decoded.
pub fn directory_on_open(page: OvnResult<Vec<u8>>) -> (d: SegmentDirectory)
    requires
        page matches Ok(b) ==> b@.len() >= 16 || b@.len() < 8,
    ensures
        match page {
            Ok(b) => if dir_page_valid(b@) {
                d@ == parsed_dir(b@, u16_at(b@, 4) as nat)
            } else {
                d@ == Map::<u8, SegmentEntry>::empty()
            },
            Err(_) => d@ == Map::<u8, SegmentEntry>::empty(),
        },
        d.keys_consistent(),
{
    match page {
        Ok(b) => match SegmentDirectory::from_bytes(b.as_slice()) {
            Ok(d) => d,
            Err(_) => SegmentDirectory::new(),
        },
        Err(_) => SegmentDirectory::new(),
    }
}

/// What a new database file starts with: a fresh header for `page_size`
/// with the WAL flag set, and the default segment directory with free
/// pages from page 2.
pub fn new_database(page_size: u32) -> (r: (FileHeader, SegmentDirectory))
    ensures
        fresh_header_fields(r.0, page_size, r.0.db_uuid@, r.0.created_at),
        r.1@ == SegmentDirectory::default_directory(2),
        r.1.keys_consistent(),
{
    let mut header = FileHeader::new(page_size);
    header.set_wal_active(true);
    assert((flags::WAL_ACTIVE | flags::HAS_HLC) | flags::WAL_ACTIVE == flags::WAL_ACTIVE | flags::HAS_HLC)
        by (bit_vector);
    let dir = SegmentDirectory::with_defaults(2);
    (header, dir)
}

} // verus!
