//! Oblivinx3x core storage engine: the verified kernel.
//!
//! This crate holds the binary file formats of an `.ovn2` database (file
//! header, page headers, segment directory, OBE document encoding), the MVCC
//! clock and visibility rules, savepoints, the Raft role machine, the chained
//! WAL authentication, compression dispatch and the recovery bookkeeping,
//! the grammars of the MongoDB-style query language (filters, updates,
//! aggregation stages) and of the SQL subset, the in-memory indexes, and the
//! decisions the engine makes when it opens a file, answers a find or an
//! explain, and restores a backup.
//! Every executable function carries a contract proved by Verus.

pub mod background;
pub mod chars;
pub mod clock;
pub mod codec;
pub mod compression;
pub mod distributed;
pub mod engine;
pub mod error;
pub mod format;
pub mod index;
pub mod io;
pub mod mvcc;
pub mod query;
pub mod recovery;
pub mod security;
pub mod text;

use vstd::prelude::*;

verus! {

/// v2.0 magic number: 'OVN2' in ASCII.
pub const OVN2_MAGIC: u32 = 0x4F56_4E32;

/// v1.x legacy magic: 'OVNX' in ASCII (read-only compatibility mode).
pub const OVN_MAGIC_V1: u32 = 0x4F56_4E58;

/// Default magic (always the current major version).
pub const OVN_MAGIC: u32 = 0x4F56_4E32;

/// File format major version for v2.0.
pub const FORMAT_VERSION_MAJOR: u16 = 2;

/// File format minor version for v2.0.
pub const FORMAT_VERSION_MINOR: u16 = 0;

/// File format major version of v1 files (compatibility detection only).
pub const FORMAT_VERSION_MAJOR_V1: u16 = 1;

/// Default page size in bytes (4 KiB). Valid range: 512 to 65536.
pub const DEFAULT_PAGE_SIZE: u32 = 4096;

/// Maximum encoded document size (16 MiB).
pub const MAX_DOCUMENT_SIZE: usize = 16 * 1024 * 1024;

/// Default MemTable threshold before flush (64 MiB).
pub const DEFAULT_MEMTABLE_THRESHOLD: usize = 64 * 1024 * 1024;

/// Default buffer pool size (256 MiB).
pub const DEFAULT_BUFFER_POOL_SIZE: usize = 256 * 1024 * 1024;

/// Default ART (Tier-0) maximum size per collection (32 MiB).
pub const DEFAULT_ART_MAX_SIZE: usize = 32 * 1024 * 1024;

/// Default WAL group commit batch size (1 MiB).
pub const DEFAULT_GROUP_COMMIT_BYTES: usize = 1024 * 1024;

/// Default WAL group commit timeout in microseconds.
pub const DEFAULT_GROUP_COMMIT_US: u64 = 200;

/// Default maximum retries on a write conflict.
pub const DEFAULT_MAX_RETRIES: u32 = 8;

/// HLC physical time occupies the top 48 bits of a packed timestamp.
pub const HLC_PHYSICAL_BITS: u32 = 48;

/// HLC logical counter occupies the bottom 16 bits of a packed timestamp.
pub const HLC_LOGICAL_BITS: u32 = 16;

/// Mask of the HLC logical counter.
pub const HLC_LOGICAL_MASK: u64 = 0xFFFF;

} // verus!
