//! Encryption-at-rest configuration and key providers.

use vstd::prelude::*;
use vstd::utf8::encode_utf8;

use crate::codec::{concat_str, slice_to_array};
use crate::error::OvnResult;

verus! {

/// Encryption configuration of a collection.
#[derive(Debug, Clone)]
pub struct CollectionEncryptionConfig {
    /// Whether encryption is enabled.
    pub enabled: bool,
    /// Collection key (32 bytes for AES-256).
    pub collection_key: [u8; 32],
    /// Where the key came from.
    pub key_source: String,
}

/// A source of encryption keys.
pub trait KeyProvider {
    /// The master key.
    fn get_master_key(&self) -> OvnResult<[u8; 32]>;

    /// A key for one collection, derived from the master key.
    fn derive_collection_key(&self, collection_name: &str) -> OvnResult<[u8; 32]>;
}

/// A 32-byte key holding the first 32 bytes of `b`, zero-padded.
pub open spec fn key_from_bytes(b: Seq<u8>) -> Seq<u8> {
    Seq::new(32, |i: int| if i < b.len() { b[i] } else { 0u8 })
}

/// The first 32 bytes of `b`, zero-padded, as a key.
fn key_from(b: &[u8]) -> (k: [u8; 32])
    ensures
        k@ == key_from_bytes(b@),
{
    let mut v: Vec<u8> = Vec::new();
    let mut i: usize = 0;
    while i < 32
        invariant
            i <= 32,
            v@.len() == i,
            forall|j: int| 0 <= j < i ==> #[trigger] v@[j] == key_from_bytes(b@)[j],
        decreases 32 - i,
    {
        if i < b.len() {
            v.push(b[i]);
        } else {
            v.push(0u8);
        }
        i = i + 1;
    }
    assert(v@ =~= key_from_bytes(b@));
    slice_to_array(v.as_slice())
}

/// File-based key provider (key stored in an external file).
pub struct FileKeyProvider {
    key_path: String,
}

impl FileKeyProvider {
    /// The key file's path.
    pub closed spec fn spec_key_path(&self) -> Seq<char> {
        self.key_path@
    }

    /// A provider reading its key from `key_path`.
    pub fn new(key_path: &str) -> (p: Self)
        ensures
            p.spec_key_path() == key_path@,
    {
        FileKeyProvider { key_path: key_path.to_string() }
    }
}

impl KeyProvider for FileKeyProvider {
    /// The master key: the first 32 bytes of the key path, zero-padded.
    fn get_master_key(&self) -> (r: OvnResult<[u8; 32]>)
        ensures
            r matches Ok(k) && k@ == key_from_bytes(encode_utf8(self.spec_key_path())),
    {
        let b = self.key_path.as_str().as_bytes();
        Ok(key_from(b))
    }

    /// The collection key: the first 32 bytes of
    /// `oblivinx3x-col-enc:<collection_name>`, zero-padded.
    fn derive_collection_key(&self, collection_name: &str) -> (r: OvnResult<[u8; 32]>)
        ensures
            r matches Ok(k) && k@ == key_from_bytes(encode_utf8("oblivinx3x-col-enc:"@ + collection_name@)),
    {
        let input = concat_str("oblivinx3x-col-enc:".to_string(), collection_name);
        let b = input.as_str().as_bytes();
        Ok(key_from(b))
    }
}

} // verus!
