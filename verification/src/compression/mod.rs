//! Compression of pages (LZ4, fast to decompress) and documents
//! (Zstandard, higher ratio), and the choice between them.

use vstd::prelude::*;

use crate::codec::{concat_str, copy_range};
use crate::error::{OvnError, OvnResult};
use crate::format::obe::value::key_bytes;

verus! {

/// Compression algorithm selection.
#[derive(Debug, Clone, Copy, PartialEq, Eq)]
pub enum CompressionType {
    /// No compression (configured as `none`).
    Uncompressed,
    /// LZ4: optimized for decompression speed.
    Lz4,
    /// Zstandard: optimized for compression ratio.
    Zstd,
}

/// An ASCII letter in lower case; other bytes unchanged.
pub open spec fn ascii_lower(b: u8) -> u8 {
    if 0x41 <= b <= 0x5A {
        (b + 0x20) as u8
    } else {
        b
    }
}

/// `b` spells `word` (lower-case ASCII) ignoring ASCII case.
pub open spec fn spells(b: Seq<u8>, word: Seq<u8>) -> bool {
    b.len() == word.len() && forall|i: int| 0 <= i < b.len() ==> ascii_lower(#[trigger] b[i]) == word[i]
}

/// `none`.
pub open spec fn word_none() -> Seq<u8> {
    seq![0x6E, 0x6F, 0x6E, 0x65]
}

/// `lz4`.
pub open spec fn word_lz4() -> Seq<u8> {
    seq![0x6C, 0x7A, 0x34]
}

/// `zstd`.
pub open spec fn word_zstd() -> Seq<u8> {
    seq![0x7A, 0x73, 0x74, 0x64]
}

/// `zstandard`.
pub open spec fn word_zstandard() -> Seq<u8> {
    seq![0x7A, 0x73, 0x74, 0x61, 0x6E, 0x64, 0x61, 0x72, 0x64]
}

/// Whether `b` spells `word` ignoring ASCII case.
fn spells_word(b: &[u8], word: &[u8]) -> (r: bool)
    ensures
        r == spells(b@, word@),
{
    if b.len() != word.len() {
        return false;
    }
    let mut i: usize = 0;
    while i < b.len()
        invariant
            b@.len() == word@.len(),
            i <= b@.len(),
            forall|j: int| 0 <= j < i ==> ascii_lower(#[trigger] b@[j]) == word@[j],
        decreases b@.len() - i,
    {
        let c = b[i];
        let l = if 0x41 <= c && c <= 0x5A {
            c + 0x20
        } else {
            c
        };
        if l != word[i] {
            return false;
        }
        i = i + 1;
    }
    true
}

impl CompressionType {
    /// Parse a configuration value, ignoring case: `none`, `lz4`, and
    /// `zstd` or `zstandard`. Anything else is an `InvalidConfig` error.
    ///
    /// Lower-casing the text first (as `str::to_lowercase` does) and comparing
    /// gives the same answer: no character outside ASCII lower-cases to one of
    /// these words' letters or digit, and a non-ASCII character's UTF-8 bytes
    /// never equal an ASCII byte.
    pub fn from_str_config(s: &str) -> (r: OvnResult<CompressionType>)
        ensures
            ({
                let b = key_bytes(s@);
                if spells(b, word_none()) {
                    r == Ok::<CompressionType, OvnError>(CompressionType::Uncompressed)
                } else if spells(b, word_lz4()) {
                    r == Ok::<CompressionType, OvnError>(CompressionType::Lz4)
                } else if spells(b, word_zstd()) || spells(b, word_zstandard()) {
                    r == Ok::<CompressionType, OvnError>(CompressionType::Zstd)
                } else {
                    r matches Err(OvnError::InvalidConfig(_))
                }
            }),
    {
        let b = s.as_bytes();
        assert(b@ == key_bytes(s@));
        let none: [u8; 4] = [0x6E, 0x6F, 0x6E, 0x65];
        let lz4: [u8; 3] = [0x6C, 0x7A, 0x34];
        let zstd: [u8; 4] = [0x7A, 0x73, 0x74, 0x64];
        let zstandard: [u8; 9] = [0x7A, 0x73, 0x74, 0x61, 0x6E, 0x64, 0x61, 0x72, 0x64];
        assert(none@ =~= word_none());
        assert(lz4@ =~= word_lz4());
        assert(zstd@ =~= word_zstd());
        assert(zstandard@ =~= word_zstandard());
        if spells_word(b, none.as_slice()) {
            Ok(CompressionType::Uncompressed)
        } else if spells_word(b, lz4.as_slice()) {
            Ok(CompressionType::Lz4)
        } else if spells_word(b, zstd.as_slice()) || spells_word(b, zstandard.as_slice()) {
            Ok(CompressionType::Zstd)
        } else {
            let msg = concat_str("Unknown compression type: '".to_string(), s);
            let msg = concat_str(msg, "'. Valid options: none, lz4, zstd");
            Err(OvnError::InvalidConfig(msg))
        }
    }
}

/// The LZ4 block, prefixed with the input length, that
/// `lz4_flex::compress_prepend_size` makes of `data`. Named: it is a
/// function of the bytes alone.
pub uninterp spec fn lz4_block_of(data: Seq<u8>) -> Seq<u8>;

/// The Zstandard frame `zstd::encode_all` makes of `data` at `level`.
/// Named: it is a function of the bytes and the level alone.
pub uninterp spec fn zstd_frame_of(data: Seq<u8>, level: i32) -> Seq<u8>;

/// `lz4_flex::compress_prepend_size`: never fails.
#[verifier::external_body]
fn lz4_compress_raw(data: &[u8]) -> (out: Vec<u8>)
    ensures
        out@ == lz4_block_of(data@),
{
    ::lz4_flex::compress_prepend_size(data)
}

/// `lz4_flex::decompress_size_prepended`: gives back the input of any
/// `compress_prepend_size` output whose input is at most `u32::MAX` bytes
/// (the prepended size is a `u32`, so a longer input does not come back);
/// fails (with the error's message) on other input it cannot decode.
#[verifier::external_body]
pub(crate) fn lz4_decompress_raw(data: &[u8]) -> (r: Result<Vec<u8>, String>)
    ensures
        (exists|x: Seq<u8>| x.len() <= u32::MAX && data@ == lz4_block_of(x)) ==> r is Ok,
        r matches Ok(v) ==> forall|x: Seq<u8>| x.len() <= u32::MAX && data@ == lz4_block_of(x) ==> v@ == x,
{
    match ::lz4_flex::decompress_size_prepended(data) {
        Ok(v) => Ok(v),
        Err(e) => Err(e.to_string()),
    }
}

/// `zstd::encode_all(Cursor::new(data), level)`: the frame of `data` at
/// `level`. Reading an in-memory cursor does not fail and the compressor
/// clamps an out-of-range level, so the call succeeds; the error arm only
/// converts the type.
#[verifier::external_body]
fn zstd_compress_raw(data: &[u8], level: i32) -> (r: Result<Vec<u8>, String>)
    ensures
        r is Ok,
        r matches Ok(v) ==> v@ == zstd_frame_of(data@, level),
{
    match ::zstd::encode_all(std::io::Cursor::new(data), level) {
        Ok(v) => Ok(v),
        Err(e) => Err(e.to_string()),
    }
}

/// `zstd::decode_all(Cursor::new(data))`: gives back the input of any frame
/// `encode_all` made; fails (with the error's message) on other input it
/// cannot decode.
#[verifier::external_body]
fn zstd_decompress_raw(data: &[u8]) -> (r: Result<Vec<u8>, String>)
    ensures
        (exists|x: Seq<u8>, l: i32| data@ == zstd_frame_of(x, l)) ==> r is Ok,
        r matches Ok(v) ==> forall|x: Seq<u8>, l: i32| data@ == zstd_frame_of(x, l) ==> v@ == x,
{
    match ::zstd::decode_all(std::io::Cursor::new(data)) {
        Ok(v) => Ok(v),
        Err(e) => Err(e.to_string()),
    }
}

/// Compress data with LZ4.
pub fn lz4_compress(data: &[u8]) -> (r: OvnResult<Vec<u8>>)
    ensures
        r matches Ok(v) && v@ == lz4_block_of(data@),
{
    Ok(lz4_compress_raw(data))
}

/// Decompress LZ4 data; the output of `lz4_compress` on at most
/// `u32::MAX` bytes decompresses to its input, other undecodable input is
/// a `CompressionError`.
pub fn lz4_decompress(data: &[u8]) -> (r: OvnResult<Vec<u8>>)
    ensures
        forall|x: Seq<u8>| x.len() <= u32::MAX && data@ == lz4_block_of(x) ==> (r matches Ok(v) && v@ == x),
        r is Err ==> r matches Err(OvnError::CompressionError(_)),
{
    match lz4_decompress_raw(data) {
        Ok(v) => Ok(v),
        Err(msg) => Err(OvnError::CompressionError(concat_str("LZ4 decompression failed: ".to_string(), msg.as_str()))),
    }
}

/// Compress data with Zstandard at `level`.
pub fn zstd_compress(data: &[u8], level: i32) -> (r: OvnResult<Vec<u8>>)
    ensures
        r matches Ok(v) && v@ == zstd_frame_of(data@, level),
{
    match zstd_compress_raw(data, level) {
        Ok(v) => Ok(v),
        Err(msg) => Err(OvnError::CompressionError(concat_str("Zstd compression failed: ".to_string(), msg.as_str()))),
    }
}

/// Decompress Zstandard data; a frame `zstd_compress` made decompresses to
/// its input, other undecodable input is a `CompressionError`.
pub fn zstd_decompress(data: &[u8]) -> (r: OvnResult<Vec<u8>>)
    ensures
        forall|x: Seq<u8>, l: i32| data@ == zstd_frame_of(x, l) ==> (r matches Ok(v) && v@ == x),
        r is Err ==> r matches Err(OvnError::CompressionError(_)),
{
    match zstd_decompress_raw(data) {
        Ok(v) => Ok(v),
        Err(msg) => Err(OvnError::CompressionError(concat_str("Zstd decompression failed: ".to_string(), msg.as_str()))),
    }
}

/// Zstandard level used by `compress`.
pub const DEFAULT_ZSTD_LEVEL: i32 = 3;

/// What `compress` makes of `data` with each algorithm.
pub open spec fn compressed_form(data: Seq<u8>, t: CompressionType) -> Seq<u8> {
    match t {
        CompressionType::Uncompressed => data,
        CompressionType::Lz4 => lz4_block_of(data),
        CompressionType::Zstd => zstd_frame_of(data, DEFAULT_ZSTD_LEVEL),
    }
}

/// Compress `data` with the chosen algorithm (`None` copies it).
pub fn compress(data: &[u8], compression: CompressionType) -> (r: OvnResult<Vec<u8>>)
    ensures
        r matches Ok(v) && v@ == compressed_form(data@, compression),
{
    match compression {
        CompressionType::Uncompressed => Ok(copy_range(data, 0, data.len())),
        CompressionType::Lz4 => lz4_compress(data),
        CompressionType::Zstd => zstd_compress(data, DEFAULT_ZSTD_LEVEL),
    }
}

/// Decompress `data` with the chosen algorithm: whatever `compress` made
/// with the same algorithm decompresses to the original bytes.
pub fn decompress(data: &[u8], compression: CompressionType) -> (r: OvnResult<Vec<u8>>)
    ensures
        forall|x: Seq<u8>|
            (compression == CompressionType::Lz4 ==> x.len() <= u32::MAX) && data@ == compressed_form(x, compression)
                ==> (r matches Ok(v) && v@ == x),
        compression == CompressionType::Uncompressed ==> (r matches Ok(v) && v@ == data@),
        r is Err ==> r matches Err(OvnError::CompressionError(_)),
{
    match compression {
        CompressionType::Uncompressed => {
            let v = copy_range(data, 0, data.len());
            assert(v@ =~= data@);
            Ok(v)
        },
        CompressionType::Lz4 => lz4_decompress(data),
        CompressionType::Zstd => zstd_decompress(data),
    }
}

} // verus!
