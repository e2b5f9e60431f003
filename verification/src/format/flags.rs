//! File header flags (64-bit in v2). Bits 0 to 7 keep their v1 positions.

use vstd::prelude::*;

verus! {

/// Bit 0: WAL is active (crash marker; set on open, cleared on clean close).
pub const WAL_ACTIVE: u64 = 0x1;
/// Bit 1: per-collection encryption active.
pub const ENCRYPTED: u64 = 0x2;
/// Bit 2: page-level compression active.
pub const COMPRESSED: u64 = 0x4;
/// Bit 3: blob segment present.
pub const HAS_BLOB: u64 = 0x8;
/// Bit 4: change stream log present.
pub const HAS_CHANGE_STREAM: u64 = 0x10;
/// Bit 5: relational metadata present.
pub const HAS_RELATIONS: u64 = 0x20;
/// Bit 6: view definitions present.
pub const HAS_VIEWS: u64 = 0x40;
/// Bit 7: trigger definitions present.
pub const HAS_TRIGGERS: u64 = 0x80;
/// Bit 8: columnar mirror segments present.
pub const HAS_COLUMNAR: u64 = 0x100;
/// Bit 9: vector index segments present.
pub const HAS_VECTOR: u64 = 0x200;
/// Bit 10: durable CDC log present.
pub const HAS_CDC: u64 = 0x400;
/// Bit 11: queryable-encryption metadata present.
pub const HAS_QE: u64 = 0x800;
/// Bit 12: row-level-security policies present.
pub const HAS_RLS: u64 = 0x1000;
/// Bit 13: embedding cache present.
pub const HAS_EMBEDDING_CACHE: u64 = 0x2000;
/// Bit 14: learned-index segments present.
pub const HAS_LEARNED_INDEX: u64 = 0x4000;
/// Bit 15: hybrid logical clock used for transaction ids.
pub const HAS_HLC: u64 = 0x8000;
/// Bit 16: written in multi-writer mode.
pub const CONCURRENT_WRITES: u64 = 0x10000;
/// Bit 17: header HMAC present and valid.
pub const SIGNED_RELEASE: u64 = 0x20000;
/// Bit 18: shared zstd dictionary in the metadata segment.
pub const ZSTD_DICT: u64 = 0x40000;
/// Bit 19: file opened with direct I/O.
pub const DIRECT_IO: u64 = 0x80000;
/// Bit 20: file lives in browser OPFS.
pub const WASM_OPFS: u64 = 0x100000;
/// Bit 21: file is cold-tiered to object storage.
pub const REMOTE_BACKED: u64 = 0x200000;
/// Bit 22: last checkpoint on persistent memory.
pub const PMEM_CHECKPOINT: u64 = 0x400000;

/// Upgrade v1 (32-bit) flags to the v2 representation: only bits 0 to 2
/// (WAL_ACTIVE, ENCRYPTED, COMPRESSED) carry over, in the same positions.
pub fn upgrade_v1_flags(v1_flags: u32) -> (r: u64)
    ensures
        r == (v1_flags & 7u32) as u64,
        r < 8,
        r == (v1_flags % 8) as u64,
{
    let r = (v1_flags & 7u32) as u64;
    assert((v1_flags & 7u32) == v1_flags % 8) by (bit_vector);
    r
}

} // verus!
