//! Backup manifests, options and results.

use vstd::prelude::*;

use crate::codec::{copy_range, read_u32, u32_at};
use crate::compression::{lz4_block_of, lz4_decompress_raw};
use crate::error::{OvnError, OvnResult};

verus! {

/// Backup manifest stored in a backup file's header.
#[derive(Debug, Clone)]
pub struct BackupManifest {
    /// Backup id (a UUID).
    pub id: String,
    /// Time of the backup (Unix seconds).
    pub timestamp: i64,
    /// Source database path.
    pub source_path: String,
    /// `full`, `incremental` or `logical`.
    pub backup_type: String,
    /// Collections included.
    pub collections: Vec<String>,
    /// Total size in bytes.
    pub total_size: u64,
    /// `none` or `lz4`.
    pub compression: String,
    /// `none` or `aes-256-gcm`.
    pub encryption: String,
    /// Checksum of the backup data.
    pub checksum: u32,
}

/// Backup options.
#[derive(Clone)]
pub struct BackupOptions {
    pub compress: bool,
    pub encrypt: bool,
    pub password: Option<String>,
    pub collections: Option<Vec<String>>,
}

impl Default for BackupOptions {
    /// No compression, no encryption, no password, every collection.
    fn default() -> (o: Self)
        ensures
            !o.compress,
            !o.encrypt,
            o.password is None,
            o.collections is None,
    {
        BackupOptions { compress: false, encrypt: false, password: None, collections: None }
    }
}

/// Restore options.
#[derive(Debug, Clone)]
pub struct RestoreOptions {
    pub decrypt: bool,
    pub password: Option<String>,
}

impl Default for RestoreOptions {
    /// No decryption, no password.
    fn default() -> (o: Self)
        ensures
            !o.decrypt,
            o.password is None,
    {
        RestoreOptions { decrypt: false, password: None }
    }
}

/// Result of a logical export.
#[derive(Debug, Clone)]
pub struct ExportResult {
    pub path: String,
    pub documents_exported: u64,
    pub total_size: u64,
}

/// Result of verifying a backup.
#[derive(Debug, Clone)]
pub struct VerifyResult {
    pub valid: bool,
    pub backup_type: String,
    pub timestamp: i64,
    pub collections: Vec<String>,
    pub total_size: u64,
    pub checksum_valid: bool,
}


/// The parts of a backup file, in the layout `backup` writes: a `u32`
/// manifest length, the manifest's JSON text, the backup data and a
/// trailing `u32` checksum. Returns the manifest text bytes and the data;
/// a file under 8 bytes is a `ValidationError`.
pub fn decode_backup(bytes: &[u8]) -> (r: OvnResult<(Vec<u8>, Vec<u8>)>)
    requires
        bytes@.len() >= 8 ==> 4 + u32_at(bytes@, 0) + 4 <= bytes@.len(),
    ensures
        bytes@.len() < 8 ==> (r matches Err(OvnError::ValidationError(m)) && m@ == "Backup file too small"@),
        bytes@.len() >= 8 ==> (r matches Ok((manifest, data)) && manifest@ == bytes@.subrange(
            4,
            4 + u32_at(bytes@, 0),
        ) && data@ == bytes@.subrange(4 + u32_at(bytes@, 0), bytes@.len() - 4)),
{
    if bytes.len() < 8 {
        return Err(OvnError::ValidationError("Backup file too small".to_string()));
    }
    let n = read_u32(bytes, 0) as usize;
    let manifest = copy_range(bytes, 4, 4 + n);
    let data = copy_range(bytes, 4 + n, bytes.len() - 4);
    Ok((manifest, data))
}

/// The database bytes a backup's data restores to: LZ4 data (manifest
/// compression `lz4`) is decompressed, failing with a `CompressionError`
/// that carries the decoder's message; any other data is the database
/// itself.
pub fn restore_payload(compression: &str, data: &[u8]) -> (r: OvnResult<Vec<u8>>)
    ensures
        compression@ == "lz4"@ ==> (forall|x: Seq<u8>| x.len() <= u32::MAX && data@ == lz4_block_of(x) ==> (r matches Ok(v) && v@ == x)),
        compression@ == "lz4"@ && r is Err ==> r matches Err(OvnError::CompressionError(_)),
        compression@ != "lz4"@ ==> (r matches Ok(v) && v@ == data@),
{
    if crate::codec::str_eq(compression, "lz4") {
        match lz4_decompress_raw(data) {
            Ok(v) => Ok(v),
            Err(msg) => Err(OvnError::CompressionError(msg)),
        }
    } else {
        let v = copy_range(data, 0, data.len());
        assert(data@.subrange(0, data@.len() as int) =~= data@);
        Ok(v)
    }
}

} // verus!
