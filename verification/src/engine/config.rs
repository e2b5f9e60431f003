//! Database configuration.

use vstd::prelude::*;

use crate::compression::CompressionType;
use crate::{
    DEFAULT_BUFFER_POOL_SIZE, DEFAULT_GROUP_COMMIT_BYTES, DEFAULT_GROUP_COMMIT_US,
    DEFAULT_MAX_RETRIES, DEFAULT_MEMTABLE_THRESHOLD, DEFAULT_PAGE_SIZE,
};

verus! {

/// WAL durability guarantee level.
///
/// | Level      | Behavior                                      | Risk on crash |
/// |------------|-----------------------------------------------|---------------|
/// | `D0`       | No fsync. OS crash may lose committed data.   | Data loss     |
/// | `D1`       | Group commit: fsync batched (default, 200µs). | Up to 200µs   |
/// | `D1Strict` | fsync after every commit group.               | Zero          |
/// | `D2`       | fdatasync+fsync on every single commit.       | Zero          |
#[derive(Debug, Clone, Copy, PartialEq, Eq)]
pub enum DurabilityLevel {
    /// No fsync: maximum throughput, risk of data loss on OS crash.
    D0,
    /// Group commit (default): batch multiple commits into one fsync call.
    D1,
    /// Group commit with strict per-group fsync.
    D1Strict,
    /// Per-commit fdatasync: maximum durability, minimum throughput.
    D2,
}

impl Default for DurabilityLevel {
    fn default() -> (d: Self)
        ensures
            d == DurabilityLevel::D1,
    {
        DurabilityLevel::D1
    }
}

/// I/O backend preference; the actual selection is platform-dependent.
#[derive(Debug, Clone, Copy, PartialEq, Eq)]
pub enum IoEngineHint {
    /// The platform default (io_uring on Linux, IOCP on Windows).
    Auto,
    /// Synchronous I/O through the standard library; portable.
    Sync,
}

impl Default for IoEngineHint {
    fn default() -> (h: Self)
        ensures
            h == IoEngineHint::Auto,
    {
        IoEngineHint::Auto
    }
}

/// Configuration for opening a database.
#[derive(Debug, Clone)]
pub struct OvnConfig {
    /// Page size in bytes (512 to 65536, a power of 2). Default: 4096.
    pub page_size: u32,
    /// Buffer pool size in bytes. Default: 256 MiB.
    pub buffer_pool_size: usize,
    /// MemTable flush threshold. Default: 64 MiB.
    pub memtable_threshold: usize,
    /// Read-only mode (set for v1 files).
    pub read_only: bool,
    /// Enable WAL mode. Default: true.
    pub wal_mode: bool,
    /// WAL durability level. Default: D1.
    pub durability: DurabilityLevel,
    /// Max bytes per group commit batch. Default: 1 MiB.
    pub group_commit_bytes: usize,
    /// Max microseconds before flushing a group commit. Default: 200.
    pub group_commit_us: u64,
    /// Enable concurrent multi-writer MVCC. Default: false.
    pub concurrent_writes: bool,
    /// Max retry attempts on a write conflict. Default: 8.
    pub max_retries: u32,
    /// Use the hybrid logical clock for transaction ids. Default: true.
    pub hlc_enabled: bool,
    /// I/O engine preference. Default: Auto.
    pub io_engine: IoEngineHint,
    /// Bypass the OS page cache. Default: false.
    pub direct_io: bool,
    /// Page compression algorithm. Default: none.
    pub compression: CompressionType,
    /// Deprecated: use `durability`.
    pub group_commit: bool,
    /// Deprecated: use `max_retries`.
    pub max_retry: u32,
}

/// The default configuration.
pub open spec fn default_config() -> OvnConfig {
    OvnConfig {
        page_size: DEFAULT_PAGE_SIZE,
        buffer_pool_size: DEFAULT_BUFFER_POOL_SIZE,
        memtable_threshold: DEFAULT_MEMTABLE_THRESHOLD,
        read_only: false,
        wal_mode: true,
        durability: DurabilityLevel::D1,
        group_commit_bytes: DEFAULT_GROUP_COMMIT_BYTES,
        group_commit_us: DEFAULT_GROUP_COMMIT_US,
        concurrent_writes: false,
        max_retries: DEFAULT_MAX_RETRIES,
        hlc_enabled: true,
        io_engine: IoEngineHint::Auto,
        direct_io: false,
        compression: CompressionType::Uncompressed,
        group_commit: true,
        max_retry: DEFAULT_MAX_RETRIES,
    }
}

impl Default for OvnConfig {
    fn default() -> (c: Self)
        ensures
            c == default_config(),
    {
        OvnConfig {
            page_size: DEFAULT_PAGE_SIZE,
            buffer_pool_size: DEFAULT_BUFFER_POOL_SIZE,
            memtable_threshold: DEFAULT_MEMTABLE_THRESHOLD,
            read_only: false,
            wal_mode: true,
            durability: DurabilityLevel::D1,
            group_commit_bytes: DEFAULT_GROUP_COMMIT_BYTES,
            group_commit_us: DEFAULT_GROUP_COMMIT_US,
            concurrent_writes: false,
            max_retries: DEFAULT_MAX_RETRIES,
            hlc_enabled: true,
            io_engine: IoEngineHint::Auto,
            direct_io: false,
            compression: CompressionType::Uncompressed,
            group_commit: true,
            max_retry: DEFAULT_MAX_RETRIES,
        }
    }
}

impl OvnConfig {
    /// A small configuration for tests: 4 KiB pages, 1 MiB buffer pool,
    /// 64 KiB MemTable, no fsync, no HLC; the rest as the default.
    pub fn test() -> (c: Self)
        ensures
            c == (OvnConfig {
                page_size: 4096,
                buffer_pool_size: 1048576usize,
                memtable_threshold: 65536usize,
                durability: DurabilityLevel::D0,
                hlc_enabled: false,
                ..default_config()
            }),
    {
        OvnConfig {
            page_size: 4096,
            buffer_pool_size: 1024 * 1024,
            memtable_threshold: 64 * 1024,
            durability: DurabilityLevel::D0,
            hlc_enabled: false,
            ..OvnConfig::default()
        }
    }

    /// Whether group commit is active (`D1` or `D1Strict`).
    pub fn is_group_commit(&self) -> (b: bool)
        ensures
            b == (self.durability == DurabilityLevel::D1 || self.durability == DurabilityLevel::D1Strict),
    {
        match self.durability {
            DurabilityLevel::D1 | DurabilityLevel::D1Strict => true,
            _ => false,
        }
    }

    /// Whether fsync is required on every commit or commit group
    /// (`D1Strict` or `D2`).
    pub fn needs_fsync_on_commit(&self) -> (b: bool)
        ensures
            b == (self.durability == DurabilityLevel::D1Strict || self.durability == DurabilityLevel::D2),
    {
        match self.durability {
            DurabilityLevel::D1Strict | DurabilityLevel::D2 => true,
            _ => false,
        }
    }
}

} // verus!
