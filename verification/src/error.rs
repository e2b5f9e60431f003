//! Error type shared by every fallible operation of the library.

use vstd::prelude::*;

verus! {

/// Failure modes of the storage kernel.
///
/// Each variant carries plain values only, so that contracts can say exactly
/// which error an input produces.
#[derive(Debug, Clone, PartialEq, Eq)]
pub enum OvnError {
    /// A file or buffer carried an unknown magic number.
    InvalidMagic(u32),
    /// A stored checksum did not match the recomputed one.
    ChecksumMismatch { location: String, expected: u32, actual: u32 },
    /// A page failed structural validation.
    PageCorrupted { page_number: u64, reason: String },
    /// The format version is not supported.
    UnsupportedVersion { major: u16, minor: u16 },
    /// An encoding or decoding step failed.
    EncodingError(String),
    /// An unknown OBE type tag was met while decoding.
    UnknownTypeTag(u8),
    /// An encoded document exceeded the maximum size.
    DocumentTooLarge { size: usize, max: usize },
    /// A varint did not fit in 64 bits.
    VarintOverflow,
    /// The buffer pool has no free frame.
    BufferPoolExhausted { capacity: usize },
    /// A WAL record failed validation.
    WalCorrupted { offset: u64, reason: String },
    /// A B-tree operation failed.
    BTreeError(String),
    /// An SSTable operation failed.
    SSTableError(String),
    /// The MemTable is full.
    MemTableFull { size: usize },
    /// A transaction was aborted.
    TransactionAborted { txid: u64, reason: String },
    /// A transaction handle was invalid.
    InvalidTransaction { detail: String },
    /// A snapshot is older than the garbage-collection horizon.
    SnapshotExpired { snapshot_txid: u64 },
    /// A write-write conflict was detected at commit.
    WriteConflict { doc_id: String, winner_txid: u64, loser_txid: u64 },
    /// A savepoint operation failed.
    SavepointError { name: String, reason: String },
    /// Too many nested savepoints.
    SavepointDepthError { max_depth: usize },
    /// A transaction-level operation failed.
    TransactionError { txid: u64, reason: String },
    /// No collection has the name.
    CollectionNotFound { name: String },
    /// A collection with the name exists already.
    CollectionAlreadyExists { name: String },
    /// A query could not be parsed.
    QuerySyntaxError { position: usize, message: String },
    /// A query used an unknown operator.
    UnknownOperator(String),
    /// A query could not be planned.
    QueryPlanError(String),
    /// A query failed (rate limit and the like).
    QueryError(String),
    /// Encryption or decryption failed.
    EncryptionError(String),
    /// No index has the name in the collection.
    IndexNotFound { name: String, collection: String },
    /// An index with the name exists already in the collection.
    IndexAlreadyExists { name: String, collection: String },
    /// A document or key failed validation.
    ValidationError(String),
    /// Invalid configuration value.
    InvalidConfig(String),
    /// Compression or decompression failed.
    CompressionError(String),
    /// Storage is read-only.
    ReadOnly,
    /// The database has been closed.
    DatabaseClosed,
    /// A read or write went past the end of a buffer or store.
    IoError(String),
    /// A read went past the end of the backing store.
    UnexpectedEof(String),
    /// Both copies of the file header are unusable.
    HeaderCorrupt,
    /// Crash recovery could not complete.
    RecoveryFailed { reason: String },
    /// An SSTable file is incomplete.
    SstableIncomplete { path: String },
    /// A background worker panicked.
    WorkerPanicked { worker: String, reason: String },
    /// Another process holds the database lock.
    DatabaseLocked { path: String },
    /// A rate limit was exceeded.
    RateLimitExceeded(String),
    /// An input failed validation.
    InputValidation(String),
}

/// Result type of the library.
pub type OvnResult<T> = Result<T, OvnError>;

} // verus!
