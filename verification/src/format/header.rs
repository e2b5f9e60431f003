//! `.ovn2` file header (page 0, always 4096 bytes).
//!
//! | Offset | Size | Field                                  |
//! |--------|------|----------------------------------------|
//! | 0x0000 | 4    | magic (OVN2)                           |
//! | 0x0004 | 2    | format version major                   |
//! | 0x0006 | 2    | format version minor                   |
//! | 0x0008 | 4    | page size                              |
//! | 0x000C | 8    | total file size                        |
//! | 0x0014 | 8    | primary B+ tree root page              |
//! | 0x001C | 8    | metadata B+ tree root page             |
//! | 0x0024 | 8    | WAL segment start offset               |
//! | 0x002C | 8    | WAL segment size                       |
//! | 0x0034 | 4    | number of collections                  |
//! | 0x0038 | 4    | CRC-32C of bytes 0x0000..0x0038        |
//! | 0x003C | 8    | flags                                  |
//! | 0x0044 | 8    | creation timestamp (ms)                |
//! | 0x004C | 8    | last checkpoint timestamp (ms)         |
//! | 0x0054 | 16   | database UUID                          |
//! | 0x0064 | 64   | application identifier                 |
//! | 0x00A4 | 80   | ten v2 root pages and the HLC state    |
//! | 0x00F4 | 16   | KMS key id                             |
//! | 0x0104 | 16   | key derivation salt                    |
//! | 0x0114 | 32   | header HMAC                            |
//! | 0x0FF0 | 16   | shadow copy (magic, versions, page size, low flags) |
//!
//! v1 files (magic OVNX) store 32-bit flags at 0x3C, so the fields after
//! them sit 4 bytes earlier, and they have no v2 fields.

use vstd::prelude::*;
use vstd::slice::slice_subrange;

use crate::codec::{
    crc32c, crc32c_of, le_u16, le_u32, le_u64, lemma_u16_at, lemma_u32_at, lemma_u64_at,
    push_slice, push_u16, push_u32, push_u64, push_zeros, read_u16, read_u32, read_u64,
    slice_to_array, u16_at, u32_at, u64_at, zeros,
};
use crate::error::{OvnError, OvnResult};
use crate::format::flags;
use crate::{
    FORMAT_VERSION_MAJOR, FORMAT_VERSION_MAJOR_V1, FORMAT_VERSION_MINOR, OVN2_MAGIC, OVN_MAGIC_V1,
};

verus! {

/// Size of the file header in bytes (one full page).
pub const HEADER_SIZE: usize = 4096;

/// Offset of the shadow copy at the end of page 0.
pub const SHADOW_OFFSET: usize = 0x0FF0;

/// Which format version a header was read from.
#[derive(Debug, Clone, Copy, PartialEq, Eq)]
pub enum FileVersion {
    /// v1.x file, opened in read-only compatibility mode.
    V1,
    /// v2.x file, full read-write.
    V2,
}

/// The `.ovn2` file header occupying page 0.
#[derive(Debug, Clone, Copy, PartialEq, Eq)]
pub struct FileHeader {
    pub magic: u32,
    pub version_major: u16,
    pub version_minor: u16,
    pub page_size: u32,
    pub total_file_size: u64,
    pub primary_root_page: u64,
    pub metadata_root_page: u64,
    pub wal_start_offset: u64,
    pub wal_size: u64,
    pub collection_count: u32,
    /// CRC-32C of header bytes 0x0000..0x0038 as read from disk.
    pub checksum: u32,
    pub flags: u64,
    pub created_at: u64,
    pub last_checkpoint: u64,
    pub db_uuid: [u8; 16],
    pub app_id: [u8; 64],
    pub columnar_root_page: u64,
    pub vector_root_page: u64,
    pub cdc_log_root_page: u64,
    pub security_root_page: u64,
    pub embedding_cache_root_page: u64,
    pub zone_map_root_page: u64,
    pub learned_index_root_page: u64,
    pub audit_log_root_page: u64,
    pub bloom_root_page: u64,
    /// Persisted HLC state (physical ms in the top 48 bits, logical below).
    pub hlc_state: u64,
    pub kms_key_id: [u8; 16],
    pub key_derivation_salt: [u8; 16],
    pub header_hmac: [u8; 32],
    /// Which format version this header was decoded from.
    pub file_version: FileVersion,
}

/// The application identifier of fresh databases: "Oblivinx3x", NUL-padded.
pub open spec fn default_app_id() -> Seq<u8> {
    seq![0x4Fu8, 0x62, 0x6C, 0x69, 0x76, 0x69, 0x6E, 0x78, 0x33, 0x78] + zeros(54)
}

/// The header of a fresh database with the given identity and clock.
pub open spec fn fresh_header_fields(h: FileHeader, page_size: u32, db_uuid: Seq<u8>, now_ms: u64) -> bool {
    &&& h.magic == OVN2_MAGIC
    &&& h.version_major == FORMAT_VERSION_MAJOR
    &&& h.version_minor == FORMAT_VERSION_MINOR
    &&& h.page_size == page_size
    &&& h.total_file_size == page_size as u64 * 2
    &&& h.primary_root_page == 0
    &&& h.metadata_root_page == 0
    &&& h.wal_start_offset == page_size as u64 * 2
    &&& h.wal_size == 0
    &&& h.collection_count == 0
    &&& h.checksum == 0
    &&& h.flags == flags::WAL_ACTIVE | flags::HAS_HLC
    &&& h.created_at == now_ms
    &&& h.last_checkpoint == 0
    &&& h.db_uuid@ == db_uuid
    &&& h.app_id@ == default_app_id()
    &&& h.columnar_root_page == 0
    &&& h.vector_root_page == 0
    &&& h.cdc_log_root_page == 0
    &&& h.security_root_page == 0
    &&& h.embedding_cache_root_page == 0
    &&& h.zone_map_root_page == 0
    &&& h.learned_index_root_page == 0
    &&& h.audit_log_root_page == 0
    &&& h.bloom_root_page == 0
    &&& h.hlc_state == now_ms << 16u64
    &&& h.kms_key_id@ == zeros(16)
    &&& h.key_derivation_salt@ == zeros(16)
    &&& h.header_hmac@ == zeros(32)
    &&& h.file_version == FileVersion::V2
}

/// Bytes 0x0000..0x0038, the range the header checksum covers.
pub open spec fn header_core_image(h: FileHeader) -> Seq<u8> {
    le_u32(h.magic) + le_u16(h.version_major) + le_u16(h.version_minor) + le_u32(h.page_size)
        + le_u64(h.total_file_size) + le_u64(h.primary_root_page) + le_u64(h.metadata_root_page)
        + le_u64(h.wal_start_offset) + le_u64(h.wal_size) + le_u32(h.collection_count)
}

/// Bytes 0x003C..0x00A4: flags, timestamps, UUID and application id.
pub open spec fn header_middle_image(h: FileHeader) -> Seq<u8> {
    le_u64(h.flags) + le_u64(h.created_at) + le_u64(h.last_checkpoint) + h.db_uuid@ + h.app_id@
}

/// Bytes 0x00A4..0x0134: the v2-only fields.
pub open spec fn header_v2_image(h: FileHeader) -> Seq<u8> {
    le_u64(h.columnar_root_page) + le_u64(h.vector_root_page) + le_u64(h.cdc_log_root_page)
        + le_u64(h.security_root_page) + le_u64(h.embedding_cache_root_page) + le_u64(
        h.zone_map_root_page,
    ) + le_u64(h.learned_index_root_page) + le_u64(h.audit_log_root_page) + le_u64(
        h.bloom_root_page,
    ) + le_u64(h.hlc_state) + h.kms_key_id@ + h.key_derivation_salt@ + h.header_hmac@
}

/// The 16-byte shadow copy at 0x0FF0: magic, versions, page size and the low
/// 32 bits of the flags.
pub open spec fn header_shadow_image(h: FileHeader) -> Seq<u8> {
    le_u32(h.magic) + le_u16(h.version_major) + le_u16(h.version_minor) + le_u32(h.page_size)
        + le_u32(h.flags as u32)
}

/// The 4096 bytes a header serializes to. The stored checksum is the
/// CRC-32C of the core bytes, whatever `h.checksum` holds.
pub open spec fn header_image(h: FileHeader) -> Seq<u8> {
    header_core_image(h) + le_u32(crc32c_of(header_core_image(h))) + header_middle_image(h)
        + header_v2_image(h) + zeros(3772) + header_shadow_image(h)
}

/// The header decoded from a buffer whose magic and version were accepted.
pub open spec fn parsed_header(s: Seq<u8>) -> FileHeader {
    let magic = u32_at(s, 0);
    let v1 = magic == OVN_MAGIC_V1;
    FileHeader {
        magic,
        version_major: u16_at(s, 4),
        version_minor: u16_at(s, 6),
        page_size: u32_at(s, 8),
        total_file_size: u64_at(s, 0x0C),
        primary_root_page: u64_at(s, 0x14),
        metadata_root_page: u64_at(s, 0x1C),
        wal_start_offset: u64_at(s, 0x24),
        wal_size: u64_at(s, 0x2C),
        collection_count: u32_at(s, 0x34),
        checksum: u32_at(s, 0x38),
        flags: if v1 { (u32_at(s, 0x3C) & 7u32) as u64 } else { u64_at(s, 0x3C) },
        created_at: if v1 { u64_at(s, 0x40) } else { u64_at(s, 0x44) },
        last_checkpoint: if v1 { u64_at(s, 0x48) } else { u64_at(s, 0x4C) },
        db_uuid: if v1 { array_of16(s.subrange(0x50, 0x60)) } else { array_of16(s.subrange(0x54, 0x64)) },
        app_id: if v1 { array_of64(s.subrange(0x60, 0xA0)) } else { array_of64(s.subrange(0x64, 0xA4)) },
        columnar_root_page: if v1 { 0 } else { u64_at(s, 0xA4) },
        vector_root_page: if v1 { 0 } else { u64_at(s, 0xAC) },
        cdc_log_root_page: if v1 { 0 } else { u64_at(s, 0xB4) },
        security_root_page: if v1 { 0 } else { u64_at(s, 0xBC) },
        embedding_cache_root_page: if v1 { 0 } else { u64_at(s, 0xC4) },
        zone_map_root_page: if v1 { 0 } else { u64_at(s, 0xCC) },
        learned_index_root_page: if v1 { 0 } else { u64_at(s, 0xD4) },
        audit_log_root_page: if v1 { 0 } else { u64_at(s, 0xDC) },
        bloom_root_page: if v1 { 0 } else { u64_at(s, 0xE4) },
        hlc_state: if v1 { 0 } else { u64_at(s, 0xEC) },
        kms_key_id: if v1 { array_of16(zeros(16)) } else { array_of16(s.subrange(0xF4, 0x104)) },
        key_derivation_salt: if v1 { array_of16(zeros(16)) } else { array_of16(s.subrange(0x104, 0x114)) },
        header_hmac: if v1 { array_of32(zeros(32)) } else { array_of32(s.subrange(0x114, 0x134)) },
        file_version: if v1 { FileVersion::V1 } else { FileVersion::V2 },
    }
}

/// The 16-byte array whose contents are `s`.
pub open spec fn array_of16(s: Seq<u8>) -> [u8; 16] {
    choose|a: [u8; 16]| a@ == s
}

/// The 32-byte array whose contents are `s`.
pub open spec fn array_of32(s: Seq<u8>) -> [u8; 32] {
    choose|a: [u8; 32]| a@ == s
}

/// The 64-byte array whose contents are `s`.
pub open spec fn array_of64(s: Seq<u8>) -> [u8; 64] {
    choose|a: [u8; 64]| a@ == s
}

/// How `FileHeader::from_bytes` answers a buffer `s`.
pub open spec fn header_parse_outcome(s: Seq<u8>, r: OvnResult<FileHeader>) -> bool {
    let magic = u32_at(s, 0);
    if s.len() < 4096 {
        r matches Err(OvnError::EncodingError(_))
    } else if magic != OVN2_MAGIC && magic != OVN_MAGIC_V1 {
        r == Err::<FileHeader, OvnError>(OvnError::InvalidMagic(magic))
    } else if magic == OVN_MAGIC_V1 && u16_at(s, 4) != FORMAT_VERSION_MAJOR_V1 {
        r matches Err(OvnError::EncodingError(_))
    } else if u32_at(s, 0x38) != 0 && crc32c_of(s.subrange(0, 0x38)) != u32_at(s, 0x38) {
        r matches Err(OvnError::ChecksumMismatch { expected, actual, .. }) && expected == u32_at(
            s,
            0x38,
        ) && actual == crc32c_of(s.subrange(0, 0x38))
    } else {
        r matches Ok(h) && header_fields_match(h, parsed_header(s))
    }
}

/// Two headers agree on every field (arrays compared by contents).
pub open spec fn header_fields_match(a: FileHeader, b: FileHeader) -> bool {
    &&& a.magic == b.magic
    &&& a.version_major == b.version_major
    &&& a.version_minor == b.version_minor
    &&& a.page_size == b.page_size
    &&& a.total_file_size == b.total_file_size
    &&& a.primary_root_page == b.primary_root_page
    &&& a.metadata_root_page == b.metadata_root_page
    &&& a.wal_start_offset == b.wal_start_offset
    &&& a.wal_size == b.wal_size
    &&& a.collection_count == b.collection_count
    &&& a.checksum == b.checksum
    &&& a.flags == b.flags
    &&& a.created_at == b.created_at
    &&& a.last_checkpoint == b.last_checkpoint
    &&& a.db_uuid@ == b.db_uuid@
    &&& a.app_id@ == b.app_id@
    &&& a.columnar_root_page == b.columnar_root_page
    &&& a.vector_root_page == b.vector_root_page
    &&& a.cdc_log_root_page == b.cdc_log_root_page
    &&& a.security_root_page == b.security_root_page
    &&& a.embedding_cache_root_page == b.embedding_cache_root_page
    &&& a.zone_map_root_page == b.zone_map_root_page
    &&& a.learned_index_root_page == b.learned_index_root_page
    &&& a.audit_log_root_page == b.audit_log_root_page
    &&& a.bloom_root_page == b.bloom_root_page
    &&& a.hlc_state == b.hlc_state
    &&& a.kms_key_id@ == b.kms_key_id@
    &&& a.key_derivation_salt@ == b.key_derivation_salt@
    &&& a.header_hmac@ == b.header_hmac@
    &&& a.file_version == b.file_version
}


/// Copy the bytes `buf[start..start + 16]` into an array.
fn read_array16(buf: &[u8], start: usize) -> (a: [u8; 16])
    requires
        start + 16 <= buf.len(),
    ensures
        a@ == buf@.subrange(start as int, start + 16),
{
    slice_to_array(slice_subrange(buf, start, start + 16))
}

/// Copy the bytes `buf[start..start + 32]` into an array.
fn read_array32(buf: &[u8], start: usize) -> (a: [u8; 32])
    requires
        start + 32 <= buf.len(),
    ensures
        a@ == buf@.subrange(start as int, start + 32),
{
    slice_to_array(slice_subrange(buf, start, start + 32))
}

/// Copy the bytes `buf[start..start + 64]` into an array.
fn read_array64(buf: &[u8], start: usize) -> (a: [u8; 64])
    requires
        start + 64 <= buf.len(),
    ensures
        a@ == buf@.subrange(start as int, start + 64),
{
    slice_to_array(slice_subrange(buf, start, start + 64))
}

impl FileHeader {
    /// The header of a fresh v2 database with the given page size, database
    /// UUID and creation time: WAL_ACTIVE and HAS_HLC set, the WAL starting
    /// after pages 0 and 1, the HLC state seeded from the creation time.
    pub fn with_identity(page_size: u32, db_uuid: [u8; 16], now_ms: u64) -> (h: FileHeader)
        ensures
            fresh_header_fields(h, page_size, db_uuid@, now_ms),
    {
        let mut app_id = [0u8; 64];
        app_id[0] = 0x4F;
        app_id[1] = 0x62;
        app_id[2] = 0x6C;
        app_id[3] = 0x69;
        app_id[4] = 0x76;
        app_id[5] = 0x69;
        app_id[6] = 0x6E;
        app_id[7] = 0x78;
        app_id[8] = 0x33;
        app_id[9] = 0x78;
        assert(app_id@ =~= default_app_id());
        let zero16 = [0u8; 16];
        let zero32 = [0u8; 32];
        assert(zero16@ =~= zeros(16));
        assert(zero32@ =~= zeros(32));
        let wal_start = page_size as u64 * 2;
        FileHeader {
            magic: OVN2_MAGIC,
            version_major: FORMAT_VERSION_MAJOR,
            version_minor: FORMAT_VERSION_MINOR,
            page_size,
            total_file_size: page_size as u64 * 2,
            primary_root_page: 0,
            metadata_root_page: 0,
            wal_start_offset: wal_start,
            wal_size: 0,
            collection_count: 0,
            checksum: 0,
            flags: flags::WAL_ACTIVE | flags::HAS_HLC,
            created_at: now_ms,
            last_checkpoint: 0,
            db_uuid,
            app_id,
            columnar_root_page: 0,
            vector_root_page: 0,
            cdc_log_root_page: 0,
            security_root_page: 0,
            embedding_cache_root_page: 0,
            zone_map_root_page: 0,
            learned_index_root_page: 0,
            audit_log_root_page: 0,
            bloom_root_page: 0,
            hlc_state: now_ms << 16u64,
            kms_key_id: zero16,
            key_derivation_salt: zero16,
            header_hmac: zero32,
            file_version: FileVersion::V2,
        }
    }

    /// A new v2 header for a fresh database, with a random UUID and the
    /// current wall-clock time as creation time.
    pub fn new(page_size: u32) -> (h: FileHeader)
        ensures
            fresh_header_fields(h, page_size, h.db_uuid@, h.created_at),
    {
        let uuid = crate::clock::random_uuid_bytes();
        let now_ms = crate::clock::unix_time_ms();
        FileHeader::with_identity(page_size, uuid, now_ms)
    }

    /// Whether this header was read from a v1 file (read-only compat).
    pub fn is_v1_compat(&self) -> (r: bool)
        ensures
            r == (self.file_version == FileVersion::V1),
    {
        match self.file_version {
            FileVersion::V1 => true,
            FileVersion::V2 => false,
        }
    }

    /// Serialize to a 4096-byte page image with the core checksum and the
    /// shadow copy filled in.
    pub fn to_bytes(&self) -> (out: Vec<u8>)
        ensures
            out@ == header_image(*self),
            out@.len() == HEADER_SIZE,
    {
        let mut buf: Vec<u8> = Vec::new();
        push_u32(&mut buf, self.magic);
        push_u16(&mut buf, self.version_major);
        push_u16(&mut buf, self.version_minor);
        push_u32(&mut buf, self.page_size);
        push_u64(&mut buf, self.total_file_size);
        push_u64(&mut buf, self.primary_root_page);
        push_u64(&mut buf, self.metadata_root_page);
        push_u64(&mut buf, self.wal_start_offset);
        push_u64(&mut buf, self.wal_size);
        push_u32(&mut buf, self.collection_count);
        assert(buf@ =~= header_core_image(*self));
        let crc = crc32c(buf.as_slice());
        push_u32(&mut buf, crc);
        let ghost after_crc = buf@;
        push_u64(&mut buf, self.flags);
        push_u64(&mut buf, self.created_at);
        push_u64(&mut buf, self.last_checkpoint);
        push_slice(&mut buf, self.db_uuid.as_slice());
        push_slice(&mut buf, self.app_id.as_slice());
        assert(buf@ =~= after_crc + header_middle_image(*self));
        let ghost after_middle = buf@;
        push_u64(&mut buf, self.columnar_root_page);
        push_u64(&mut buf, self.vector_root_page);
        push_u64(&mut buf, self.cdc_log_root_page);
        push_u64(&mut buf, self.security_root_page);
        push_u64(&mut buf, self.embedding_cache_root_page);
        push_u64(&mut buf, self.zone_map_root_page);
        push_u64(&mut buf, self.learned_index_root_page);
        push_u64(&mut buf, self.audit_log_root_page);
        push_u64(&mut buf, self.bloom_root_page);
        push_u64(&mut buf, self.hlc_state);
        push_slice(&mut buf, self.kms_key_id.as_slice());
        push_slice(&mut buf, self.key_derivation_salt.as_slice());
        push_slice(&mut buf, self.header_hmac.as_slice());
        assert(buf@ =~= after_middle + header_v2_image(*self));
        push_zeros(&mut buf, 3772);
        let ghost before_shadow = buf@;
        push_u32(&mut buf, self.magic);
        push_u16(&mut buf, self.version_major);
        push_u16(&mut buf, self.version_minor);
        push_u32(&mut buf, self.page_size);
        push_u32(&mut buf, self.flags as u32);
        assert(buf@ =~= before_shadow + header_shadow_image(*self));
        assert(buf@ =~= header_image(*self));
        buf
    }

    /// Decode a header from a page-sized buffer. Accepts v2 (OVN2) and v1
    /// (OVNX, major version 1) files; fails on a short buffer, an unknown
    /// magic, a wrong v1 version, or a nonzero stored checksum that does not
    /// match the CRC-32C of bytes 0x0000..0x0038.
    pub fn from_bytes(buf: &[u8]) -> (r: OvnResult<FileHeader>)
        ensures
            header_parse_outcome(buf@, r),
    {
        broadcast use vstd::array::group_array_axioms;
        if buf.len() < HEADER_SIZE {
            return Err(OvnError::EncodingError("Header buffer too small".to_string()));
        }
        let magic = read_u32(buf, 0);
        let v1 = if magic == OVN2_MAGIC {
            false
        } else if magic == OVN_MAGIC_V1 {
            true
        } else {
            return Err(OvnError::InvalidMagic(magic));
        };
        let version_major = read_u16(buf, 4);
        let version_minor = read_u16(buf, 6);
        if v1 && version_major != FORMAT_VERSION_MAJOR_V1 {
            return Err(OvnError::EncodingError("Unexpected v1 format version".to_string()));
        }
        let page_size = read_u32(buf, 8);
        let total_file_size = read_u64(buf, 0x0C);
        let primary_root_page = read_u64(buf, 0x14);
        let metadata_root_page = read_u64(buf, 0x1C);
        let wal_start_offset = read_u64(buf, 0x24);
        let wal_size = read_u64(buf, 0x2C);
        let collection_count = read_u32(buf, 0x34);
        let stored_crc = read_u32(buf, 0x38);
        if stored_crc != 0 {
            let computed = crc32c(slice_subrange(buf, 0, 0x38));
            if computed != stored_crc {
                return Err(
                    OvnError::ChecksumMismatch {
                        location: "file header".to_string(),
                        expected: stored_crc,
                        actual: computed,
                    },
                );
            }
        }
        let zero16 = [0u8; 16];
        let zero32 = [0u8; 32];
        assert(zero16@ =~= zeros(16));
        assert(zero32@ =~= zeros(32));
        let h = if v1 {
            FileHeader {
                magic,
                version_major,
                version_minor,
                page_size,
                total_file_size,
                primary_root_page,
                metadata_root_page,
                wal_start_offset,
                wal_size,
                collection_count,
                checksum: stored_crc,
                flags: flags::upgrade_v1_flags(read_u32(buf, 0x3C)),
                created_at: read_u64(buf, 0x40),
                last_checkpoint: read_u64(buf, 0x48),
                db_uuid: read_array16(buf, 0x50),
                app_id: read_array64(buf, 0x60),
                columnar_root_page: 0,
                vector_root_page: 0,
                cdc_log_root_page: 0,
                security_root_page: 0,
                embedding_cache_root_page: 0,
                zone_map_root_page: 0,
                learned_index_root_page: 0,
                audit_log_root_page: 0,
                bloom_root_page: 0,
                hlc_state: 0,
                kms_key_id: zero16,
                key_derivation_salt: zero16,
                header_hmac: zero32,
                file_version: FileVersion::V1,
            }
        } else {
            FileHeader {
                magic,
                version_major,
                version_minor,
                page_size,
                total_file_size,
                primary_root_page,
                metadata_root_page,
                wal_start_offset,
                wal_size,
                collection_count,
                checksum: stored_crc,
                flags: read_u64(buf, 0x3C),
                created_at: read_u64(buf, 0x44),
                last_checkpoint: read_u64(buf, 0x4C),
                db_uuid: read_array16(buf, 0x54),
                app_id: read_array64(buf, 0x64),
                columnar_root_page: read_u64(buf, 0xA4),
                vector_root_page: read_u64(buf, 0xAC),
                cdc_log_root_page: read_u64(buf, 0xB4),
                security_root_page: read_u64(buf, 0xBC),
                embedding_cache_root_page: read_u64(buf, 0xC4),
                zone_map_root_page: read_u64(buf, 0xCC),
                learned_index_root_page: read_u64(buf, 0xD4),
                audit_log_root_page: read_u64(buf, 0xDC),
                bloom_root_page: read_u64(buf, 0xE4),
                hlc_state: read_u64(buf, 0xEC),
                kms_key_id: read_array16(buf, 0xF4),
                key_derivation_salt: read_array16(buf, 0x104),
                header_hmac: read_array32(buf, 0x114),
                file_version: FileVersion::V2,
            }
        };
        Ok(h)
    }

    /// Whether the WAL_ACTIVE flag is set.
    pub fn is_wal_active(&self) -> (r: bool)
        ensures
            r == (self.flags & flags::WAL_ACTIVE != 0),
    {
        self.flags & flags::WAL_ACTIVE != 0
    }

    /// Set or clear the WAL_ACTIVE flag; no other bit or field changes.
    pub fn set_wal_active(&mut self, active: bool)
        ensures
            final(self).flags == (if active {
                old(self).flags | flags::WAL_ACTIVE
            } else {
                old(self).flags & !flags::WAL_ACTIVE
            }),
            (final(self).flags & flags::WAL_ACTIVE != 0) == active,
            *final(self) == (FileHeader { flags: final(self).flags, ..*old(self) }),
    {
        let f = self.flags;
        if active {
            assert((f | 1u64) & 1u64 != 0) by (bit_vector);
            self.flags = f | flags::WAL_ACTIVE;
        } else {
            assert((f & !1u64) & 1u64 == 0) by (bit_vector);
            self.flags = f & !flags::WAL_ACTIVE;
        }
    }

    /// Whether page-level compression is flagged.
    pub fn is_compressed(&self) -> (r: bool)
        ensures
            r == (self.flags & flags::COMPRESSED != 0),
    {
        self.flags & flags::COMPRESSED != 0
    }

    /// Whether columnar mirror segments are flagged.
    pub fn has_columnar(&self) -> (r: bool)
        ensures
            r == (self.flags & flags::HAS_COLUMNAR != 0),
    {
        self.flags & flags::HAS_COLUMNAR != 0
    }

    /// Whether vector index segments are flagged.
    pub fn has_vector(&self) -> (r: bool)
        ensures
            r == (self.flags & flags::HAS_VECTOR != 0),
    {
        self.flags & flags::HAS_VECTOR != 0
    }

    /// Whether a durable CDC log is flagged.
    pub fn has_cdc(&self) -> (r: bool)
        ensures
            r == (self.flags & flags::HAS_CDC != 0),
    {
        self.flags & flags::HAS_CDC != 0
    }

    /// Whether HLC transaction ids are flagged.
    pub fn has_hlc(&self) -> (r: bool)
        ensures
            r == (self.flags & flags::HAS_HLC != 0),
    {
        self.flags & flags::HAS_HLC != 0
    }
}


/// Field values read back from the checksummed core bytes.
proof fn lemma_core_fields(h: FileHeader)
    ensures
        header_core_image(h).len() == 0x38,
        u32_at(header_core_image(h), 0) == h.magic,
        u16_at(header_core_image(h), 4) == h.version_major,
        u16_at(header_core_image(h), 6) == h.version_minor,
        u32_at(header_core_image(h), 8) == h.page_size,
        u64_at(header_core_image(h), 0x0C) == h.total_file_size,
        u64_at(header_core_image(h), 0x14) == h.primary_root_page,
        u64_at(header_core_image(h), 0x1C) == h.metadata_root_page,
        u64_at(header_core_image(h), 0x24) == h.wal_start_offset,
        u64_at(header_core_image(h), 0x2C) == h.wal_size,
        u32_at(header_core_image(h), 0x34) == h.collection_count,
{
    let s = header_core_image(h);
    assert(s.subrange(0, 4) =~= le_u32(h.magic));
    lemma_u32_at(s, 0, h.magic);
    assert(s.subrange(4, 6) =~= le_u16(h.version_major));
    lemma_u16_at(s, 4, h.version_major);
    assert(s.subrange(6, 8) =~= le_u16(h.version_minor));
    lemma_u16_at(s, 6, h.version_minor);
    assert(s.subrange(8, 12) =~= le_u32(h.page_size));
    lemma_u32_at(s, 8, h.page_size);
    assert(s.subrange(0x0C, 0x14) =~= le_u64(h.total_file_size));
    lemma_u64_at(s, 0x0C, h.total_file_size);
    assert(s.subrange(0x14, 0x1C) =~= le_u64(h.primary_root_page));
    lemma_u64_at(s, 0x14, h.primary_root_page);
    assert(s.subrange(0x1C, 0x24) =~= le_u64(h.metadata_root_page));
    lemma_u64_at(s, 0x1C, h.metadata_root_page);
    assert(s.subrange(0x24, 0x2C) =~= le_u64(h.wal_start_offset));
    lemma_u64_at(s, 0x24, h.wal_start_offset);
    assert(s.subrange(0x2C, 0x34) =~= le_u64(h.wal_size));
    lemma_u64_at(s, 0x2C, h.wal_size);
    assert(s.subrange(0x34, 0x38) =~= le_u32(h.collection_count));
    lemma_u32_at(s, 0x34, h.collection_count);
}

/// Field values read back from the middle bytes.
proof fn lemma_middle_fields(h: FileHeader)
    ensures
        header_middle_image(h).len() == 0x68,
        u64_at(header_middle_image(h), 0) == h.flags,
        u64_at(header_middle_image(h), 8) == h.created_at,
        u64_at(header_middle_image(h), 16) == h.last_checkpoint,
        header_middle_image(h).subrange(24, 40) == h.db_uuid@,
        header_middle_image(h).subrange(40, 104) == h.app_id@,
{
    let s = header_middle_image(h);
    assert(s.subrange(0, 8) =~= le_u64(h.flags));
    lemma_u64_at(s, 0, h.flags);
    assert(s.subrange(8, 16) =~= le_u64(h.created_at));
    lemma_u64_at(s, 8, h.created_at);
    assert(s.subrange(16, 24) =~= le_u64(h.last_checkpoint));
    lemma_u64_at(s, 16, h.last_checkpoint);
    assert(s.subrange(24, 40) =~= h.db_uuid@);
    assert(s.subrange(40, 104) =~= h.app_id@);
}

/// Field values read back from the v2-only bytes.
#[verifier::rlimit(40)]
proof fn lemma_v2_fields(h: FileHeader)
    ensures
        header_v2_image(h).len() == 0x90,
        u64_at(header_v2_image(h), 0) == h.columnar_root_page,
        u64_at(header_v2_image(h), 8) == h.vector_root_page,
        u64_at(header_v2_image(h), 16) == h.cdc_log_root_page,
        u64_at(header_v2_image(h), 24) == h.security_root_page,
        u64_at(header_v2_image(h), 32) == h.embedding_cache_root_page,
        u64_at(header_v2_image(h), 40) == h.zone_map_root_page,
        u64_at(header_v2_image(h), 48) == h.learned_index_root_page,
        u64_at(header_v2_image(h), 56) == h.audit_log_root_page,
        u64_at(header_v2_image(h), 64) == h.bloom_root_page,
        u64_at(header_v2_image(h), 72) == h.hlc_state,
        header_v2_image(h).subrange(80, 96) == h.kms_key_id@,
        header_v2_image(h).subrange(96, 112) == h.key_derivation_salt@,
        header_v2_image(h).subrange(112, 144) == h.header_hmac@,
{
    let s = header_v2_image(h);
    assert(s.subrange(0, 8) =~= le_u64(h.columnar_root_page));
    lemma_u64_at(s, 0, h.columnar_root_page);
    assert(s.subrange(8, 16) =~= le_u64(h.vector_root_page));
    lemma_u64_at(s, 8, h.vector_root_page);
    assert(s.subrange(16, 24) =~= le_u64(h.cdc_log_root_page));
    lemma_u64_at(s, 16, h.cdc_log_root_page);
    assert(s.subrange(24, 32) =~= le_u64(h.security_root_page));
    lemma_u64_at(s, 24, h.security_root_page);
    assert(s.subrange(32, 40) =~= le_u64(h.embedding_cache_root_page));
    lemma_u64_at(s, 32, h.embedding_cache_root_page);
    assert(s.subrange(40, 48) =~= le_u64(h.zone_map_root_page));
    lemma_u64_at(s, 40, h.zone_map_root_page);
    assert(s.subrange(48, 56) =~= le_u64(h.learned_index_root_page));
    lemma_u64_at(s, 48, h.learned_index_root_page);
    assert(s.subrange(56, 64) =~= le_u64(h.audit_log_root_page));
    lemma_u64_at(s, 56, h.audit_log_root_page);
    assert(s.subrange(64, 72) =~= le_u64(h.bloom_root_page));
    lemma_u64_at(s, 64, h.bloom_root_page);
    assert(s.subrange(72, 80) =~= le_u64(h.hlc_state));
    lemma_u64_at(s, 72, h.hlc_state);
    assert(s.subrange(80, 96) =~= h.kms_key_id@);
    assert(s.subrange(96, 112) =~= h.key_derivation_salt@);
    assert(s.subrange(112, 144) =~= h.header_hmac@);
}

/// Reads inside an embedded piece see the piece.
proof fn lemma_embedded(s: Seq<u8>, t: Seq<u8>, a: int)
    requires
        0 <= a,
        a + t.len() <= s.len(),
        s.subrange(a, a + t.len()) == t,
    ensures
        forall|k: int| 0 <= k && k + 2 <= t.len() ==> #[trigger] u16_at(s, a + k) == u16_at(t, k),
        forall|k: int| 0 <= k && k + 4 <= t.len() ==> #[trigger] u32_at(s, a + k) == u32_at(t, k),
        forall|k: int| 0 <= k && k + 8 <= t.len() ==> #[trigger] u64_at(s, a + k) == u64_at(t, k),
        forall|i: int, j: int| 0 <= i <= j <= t.len() ==> #[trigger] s.subrange(a + i, a + j) == t.subrange(i, j),
{
    assert forall|k: int| 0 <= k && k + 8 <= t.len() implies #[trigger] u64_at(s, a + k) == u64_at(t, k) by {
        assert(s[a + k] == t[k] && s[a + k + 1] == t[k + 1] && s[a + k + 2] == t[k + 2] && s[a + k + 3] == t[k + 3]);
        assert(s[a + k + 4] == t[k + 4] && s[a + k + 5] == t[k + 5] && s[a + k + 6] == t[k + 6] && s[a + k + 7] == t[k + 7]);
    }
    assert forall|k: int| 0 <= k && k + 4 <= t.len() implies #[trigger] u32_at(s, a + k) == u32_at(t, k) by {
        assert(s[a + k] == t[k] && s[a + k + 1] == t[k + 1] && s[a + k + 2] == t[k + 2] && s[a + k + 3] == t[k + 3]);
    }
    assert forall|k: int| 0 <= k && k + 2 <= t.len() implies #[trigger] u16_at(s, a + k) == u16_at(t, k) by {
        assert(s[a + k] == t[k] && s[a + k + 1] == t[k + 1]);
    }
    assert forall|i: int, j: int| 0 <= i <= j <= t.len() implies #[trigger] s.subrange(a + i, a + j) == t.subrange(i, j) by {
        assert(s.subrange(a + i, a + j) =~= t.subrange(i, j));
    }
}

/// The two halves of a concatenation.
proof fn lemma_concat_halves(a: Seq<u8>, b: Seq<u8>)
    ensures
        (a + b).subrange(0, a.len() as int) == a,
        (a + b).subrange(a.len() as int, (a + b).len() as int) == b,
{
    assert((a + b).subrange(0, a.len() as int) =~= a);
    assert((a + b).subrange(a.len() as int, (a + b).len() as int) =~= b);
}

/// A subrange of a prefix is a subrange of the whole.
proof fn lemma_prefix_sub(s: Seq<u8>, n: int, i: int, j: int)
    requires
        0 <= i <= j <= n <= s.len(),
    ensures
        s.subrange(0, n).subrange(i, j) == s.subrange(i, j),
{
    assert(s.subrange(0, n).subrange(i, j) =~= s.subrange(i, j));
}

/// The header image is its pieces laid side by side.
#[verifier::rlimit(50)]
proof fn lemma_image_layout(h: FileHeader)
    ensures
        header_image(h).len() == 4096,
        header_image(h).subrange(0, 0x38) == header_core_image(h),
        header_image(h).subrange(0x38, 0x3C) == le_u32(crc32c_of(header_core_image(h))),
        header_image(h).subrange(0x3C, 0xA4) == header_middle_image(h),
        header_image(h).subrange(0xA4, 0x134) == header_v2_image(h),
{
    let core = header_core_image(h);
    let c4 = le_u32(crc32c_of(core));
    let mid = header_middle_image(h);
    let v2 = header_v2_image(h);
    assert(core.len() == 0x38);
    assert(mid.len() == 0x68);
    assert(v2.len() == 0x90);
    let p2 = core + c4;
    let p3 = p2 + mid;
    let p4 = p3 + v2;
    let p5 = p4 + zeros(3772);
    let s = p5 + header_shadow_image(h);
    assert(s == header_image(h));
    lemma_concat_halves(core, c4);
    lemma_concat_halves(p2, mid);
    lemma_concat_halves(p3, v2);
    lemma_concat_halves(p4, zeros(3772));
    lemma_concat_halves(p5, header_shadow_image(h));
    assert(p2.len() == 0x3C);
    assert(p3.len() == 0xA4);
    assert(p4.len() == 0x134);
    assert(p5.len() == 0x0FF0);
    // each piece, seen from the whole image
    lemma_prefix_sub(s, 0x0FF0, 0, 0x134);
    lemma_prefix_sub(p5, 0x134, 0, 0x134);
    assert(s.subrange(0, 0x134) == p4);
    lemma_prefix_sub(s, 0x134, 0xA4, 0x134);
    lemma_prefix_sub(s, 0x134, 0, 0xA4);
    lemma_prefix_sub(p4, 0xA4, 0, 0xA4);
    assert(s.subrange(0xA4, 0x134) == v2);
    assert(s.subrange(0, 0xA4) == p3);
    lemma_prefix_sub(s, 0xA4, 0x3C, 0xA4);
    lemma_prefix_sub(s, 0xA4, 0, 0x3C);
    lemma_prefix_sub(p3, 0x3C, 0, 0x3C);
    assert(s.subrange(0x3C, 0xA4) == mid);
    assert(s.subrange(0, 0x3C) == p2);
    lemma_prefix_sub(s, 0x3C, 0, 0x38);
    lemma_prefix_sub(s, 0x3C, 0x38, 0x3C);
    assert(s.subrange(0, 0x38) == core);
    assert(s.subrange(0x38, 0x3C) == c4);
}

/// A v2 header written by `to_bytes` decodes, by `from_bytes`, to the same
/// header, with the stored checksum being the CRC-32C of the core bytes.
pub proof fn lemma_header_roundtrip(h: FileHeader)
    requires
        h.magic == OVN2_MAGIC,
    ensures
        header_image(h).len() == HEADER_SIZE,
        forall|r: OvnResult<FileHeader>|
            #[trigger] header_parse_outcome(header_image(h), r) ==> (r matches Ok(d)
                && header_fields_match(
                d,
                FileHeader {
                    checksum: crc32c_of(header_core_image(h)),
                    file_version: FileVersion::V2,
                    ..h
                },
            )),
{
    broadcast use vstd::array::group_array_axioms;
    let s = header_image(h);
    let core = header_core_image(h);
    let crc = crc32c_of(core);
    let mid = header_middle_image(h);
    let v2 = header_v2_image(h);
    lemma_image_layout(h);
    lemma_core_fields(h);
    lemma_middle_fields(h);
    lemma_v2_fields(h);
    lemma_embedded(s, core, 0);
    lemma_embedded(s, le_u32(crc), 0x38);
    lemma_embedded(s, mid, 0x3C);
    lemma_embedded(s, v2, 0xA4);
    assert(le_u32(crc).subrange(0, 4) =~= le_u32(crc));
    lemma_u32_at(le_u32(crc), 0, crc);
    assert(u32_at(s, 0) == u32_at(core, 0));
    assert(u16_at(s, 4) == u16_at(core, 4));
    assert(u16_at(s, 6) == u16_at(core, 6));
    assert(u32_at(s, 8) == u32_at(core, 8));
    assert(u64_at(s, 0x0C) == u64_at(core, 0x0C));
    assert(u64_at(s, 0x14) == u64_at(core, 0x14));
    assert(u64_at(s, 0x1C) == u64_at(core, 0x1C));
    assert(u64_at(s, 0x24) == u64_at(core, 0x24));
    assert(u64_at(s, 0x2C) == u64_at(core, 0x2C));
    assert(u32_at(s, 0x34) == u32_at(core, 0x34));
    assert(u32_at(s, 0x38 + 0int) == u32_at(le_u32(crc), 0));
    assert(u64_at(s, 0x3C + 0int) == u64_at(mid, 0));
    assert(u64_at(s, 0x3C + 8int) == u64_at(mid, 8));
    assert(u64_at(s, 0x3C + 16int) == u64_at(mid, 16));
    assert(s.subrange(0x3C + 24int, 0x3C + 40int) == mid.subrange(24, 40));
    assert(s.subrange(0x3C + 40int, 0x3C + 104int) == mid.subrange(40, 104));
    assert(u64_at(s, 0xA4 + 0int) == u64_at(v2, 0));
    assert(u64_at(s, 0xA4 + 8int) == u64_at(v2, 8));
    assert(u64_at(s, 0xA4 + 16int) == u64_at(v2, 16));
    assert(u64_at(s, 0xA4 + 24int) == u64_at(v2, 24));
    assert(u64_at(s, 0xA4 + 32int) == u64_at(v2, 32));
    assert(u64_at(s, 0xA4 + 40int) == u64_at(v2, 40));
    assert(u64_at(s, 0xA4 + 48int) == u64_at(v2, 48));
    assert(u64_at(s, 0xA4 + 56int) == u64_at(v2, 56));
    assert(u64_at(s, 0xA4 + 64int) == u64_at(v2, 64));
    assert(u64_at(s, 0xA4 + 72int) == u64_at(v2, 72));
    assert(s.subrange(0xA4 + 80int, 0xA4 + 96int) == v2.subrange(80, 96));
    assert(s.subrange(0xA4 + 96int, 0xA4 + 112int) == v2.subrange(96, 112));
    assert(s.subrange(0xA4 + 112int, 0xA4 + 144int) == v2.subrange(112, 144));
    assert(s.subrange(0, 0x38) == core);
    let d = parsed_header(s);
    assert(d.db_uuid@ == h.db_uuid@);
    assert(d.app_id@ == h.app_id@);
    assert(d.kms_key_id@ == h.kms_key_id@);
    assert(d.key_derivation_salt@ == h.key_derivation_salt@);
    assert(d.header_hmac@ == h.header_hmac@);
}

/// A header written by `to_bytes` carries the shadow copy of its magic,
/// versions, page size and low 32 flag bits at 0x0FF0.
pub proof fn lemma_header_shadow(h: FileHeader)
    ensures
        u32_at(header_image(h), 0x0FF0) == h.magic,
        u16_at(header_image(h), 0x0FF4) == h.version_major,
        u16_at(header_image(h), 0x0FF6) == h.version_minor,
        u32_at(header_image(h), 0x0FF8) == h.page_size,
        u32_at(header_image(h), 0x0FFC) == h.flags as u32,
{
    let s = header_image(h);
    assert(s.len() == 4096);
    assert(s.subrange(0x0FF0, 0x0FF4) =~= le_u32(h.magic));
    lemma_u32_at(s, 0x0FF0, h.magic);
    assert(s.subrange(0x0FF4, 0x0FF6) =~= le_u16(h.version_major));
    lemma_u16_at(s, 0x0FF4, h.version_major);
    assert(s.subrange(0x0FF6, 0x0FF8) =~= le_u16(h.version_minor));
    lemma_u16_at(s, 0x0FF6, h.version_minor);
    assert(s.subrange(0x0FF8, 0x0FFC) =~= le_u32(h.page_size));
    lemma_u32_at(s, 0x0FF8, h.page_size);
    assert(s.subrange(0x0FFC, 0x1000) =~= le_u32(h.flags as u32));
    lemma_u32_at(s, 0x0FFC, h.flags as u32);
}

} // verus!
