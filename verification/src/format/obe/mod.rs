//! OVN Binary Encoding (OBE): the document serialization format.
//!
//! ```text
//! document: [4] total length  [16] document id  [8] txid  [1] tombstone
//!           [varint] field count  fields...
//! field:    [varint] name length  [name bytes, UTF-8]  [1] type tag  value
//! ```
//!
//! Integers in varints use unsigned LEB128.

pub mod access;
pub mod codec;
pub mod document;
pub mod value;

pub use document::ObeDocument;
pub use value::{FieldMap, ObeField, ObeValue};

use vstd::prelude::*;

use crate::error::{OvnError, OvnResult};

verus! {

/// OBE type tags.
#[derive(Debug, Clone, Copy, PartialEq, Eq, Hash)]
pub enum TypeTag {
    Null,
    BoolTrue,
    BoolFalse,
    Int32,
    Int64,
    Float64,
    String,
    Binary,
    Document,
    Array,
    Timestamp,
    ObjectId,
    Decimal128,
    Varint,
}

/// The byte of a type tag.
pub open spec fn tag_code(t: TypeTag) -> u8 {
    match t {
        TypeTag::Null => 0x01,
        TypeTag::BoolTrue => 0x02,
        TypeTag::BoolFalse => 0x03,
        TypeTag::Int32 => 0x04,
        TypeTag::Int64 => 0x05,
        TypeTag::Float64 => 0x06,
        TypeTag::String => 0x07,
        TypeTag::Binary => 0x08,
        TypeTag::Document => 0x09,
        TypeTag::Array => 0x0A,
        TypeTag::Timestamp => 0x0B,
        TypeTag::ObjectId => 0x0C,
        TypeTag::Decimal128 => 0x0D,
        TypeTag::Varint => 0x0E,
    }
}

/// The type tag of a byte, if known.
pub open spec fn tag_from_code(b: u8) -> Option<TypeTag> {
    if b == 0x01 { Some(TypeTag::Null) }
    else if b == 0x02 { Some(TypeTag::BoolTrue) }
    else if b == 0x03 { Some(TypeTag::BoolFalse) }
    else if b == 0x04 { Some(TypeTag::Int32) }
    else if b == 0x05 { Some(TypeTag::Int64) }
    else if b == 0x06 { Some(TypeTag::Float64) }
    else if b == 0x07 { Some(TypeTag::String) }
    else if b == 0x08 { Some(TypeTag::Binary) }
    else if b == 0x09 { Some(TypeTag::Document) }
    else if b == 0x0A { Some(TypeTag::Array) }
    else if b == 0x0B { Some(TypeTag::Timestamp) }
    else if b == 0x0C { Some(TypeTag::ObjectId) }
    else if b == 0x0D { Some(TypeTag::Decimal128) }
    else if b == 0x0E { Some(TypeTag::Varint) }
    else { None }
}

impl TypeTag {
    /// The byte of this tag.
    pub fn code(&self) -> (b: u8)
        ensures
            b == tag_code(*self),
    {
        match self {
            TypeTag::Null => 0x01,
            TypeTag::BoolTrue => 0x02,
            TypeTag::BoolFalse => 0x03,
            TypeTag::Int32 => 0x04,
            TypeTag::Int64 => 0x05,
            TypeTag::Float64 => 0x06,
            TypeTag::String => 0x07,
            TypeTag::Binary => 0x08,
            TypeTag::Document => 0x09,
            TypeTag::Array => 0x0A,
            TypeTag::Timestamp => 0x0B,
            TypeTag::ObjectId => 0x0C,
            TypeTag::Decimal128 => 0x0D,
            TypeTag::Varint => 0x0E,
        }
    }

    /// Decode a tag byte; unknown bytes are an `UnknownTypeTag` error.
    pub fn from_byte(b: u8) -> (r: OvnResult<TypeTag>)
        ensures
            match tag_from_code(b) {
                Some(t) => r == Ok::<TypeTag, OvnError>(t),
                None => r == Err::<TypeTag, OvnError>(OvnError::UnknownTypeTag(b)),
            },
    {
        match b {
            0x01 => Ok(TypeTag::Null),
            0x02 => Ok(TypeTag::BoolTrue),
            0x03 => Ok(TypeTag::BoolFalse),
            0x04 => Ok(TypeTag::Int32),
            0x05 => Ok(TypeTag::Int64),
            0x06 => Ok(TypeTag::Float64),
            0x07 => Ok(TypeTag::String),
            0x08 => Ok(TypeTag::Binary),
            0x09 => Ok(TypeTag::Document),
            0x0A => Ok(TypeTag::Array),
            0x0B => Ok(TypeTag::Timestamp),
            0x0C => Ok(TypeTag::ObjectId),
            0x0D => Ok(TypeTag::Decimal128),
            0x0E => Ok(TypeTag::Varint),
            _ => Err(OvnError::UnknownTypeTag(b)),
        }
    }
}

/// Decoding a tag's byte gives the tag back.
pub proof fn lemma_tag_roundtrip(t: TypeTag)
    ensures
        tag_from_code(tag_code(t)) == Some(t),
{
}

// ── Varint (unsigned LEB128) ──────────────────────────────────────────────

/// LEB128 bytes of `x >> s`, continuing the encoding of `x` from bit `s`.
pub open spec fn varint_from(x: u64, s: u64) -> Seq<u8>
    recommends
        s < 64,
    decreases 64 - s,
{
    if s >= 64 || x >> s < 128 {
        seq![(x >> s) as u8]
    } else {
        proof {
            assert(x >> s >= 128 ==> s < 57) by (bit_vector);
        }
        seq![(((x >> s) & 0x7f) | 0x80) as u8] + varint_from(x, (s + 7) as u64)
    }
}

/// Unsigned LEB128 encoding of `x`: 7 bits per byte, low group first, high
/// bit set on every byte but the last.
pub open spec fn varint_bytes(x: u64) -> Seq<u8> {
    varint_from(x, 0)
}

/// The outcome of decoding a LEB128 varint at the start of `s`, having
/// consumed `i` bytes into the accumulator `acc`.
pub open spec fn varint_scan(s: Seq<u8>, i: nat, acc: u64) -> VarintOutcome
    decreases s.len() - i,
{
    if i >= s.len() {
        VarintOutcome::Truncated
    } else if 7 * i >= 64 {
        VarintOutcome::Overflow
    } else {
        let acc2 = acc | (((s[i as int] & 0x7f) as u64) << ((7 * i) as u64));
        if s[i as int] & 0x80 == 0 {
            VarintOutcome::Value(acc2, i + 1)
        } else {
            varint_scan(s, i + 1, acc2)
        }
    }
}

/// Result of scanning a varint.
pub enum VarintOutcome {
    /// The value and the number of bytes consumed.
    Value(u64, nat),
    /// More than 64 bits of payload (ten or more continuation bytes).
    Overflow,
    /// The input ended inside the varint.
    Truncated,
}

/// A scanned varint spans at least one byte past the start and no more
/// than the input.
pub proof fn lemma_varint_scan_bounds(s: Seq<u8>, i: nat, acc: u64)
    ensures
        varint_scan(s, i, acc) matches VarintOutcome::Value(v, n) ==> i < n <= s.len(),
    decreases s.len() - i,
{
    if i < s.len() && 7 * i < 64 {
        let acc2 = acc | (((s[i as int] & 0x7f) as u64) << ((7 * i) as u64));
        if s[i as int] & 0x80 != 0 {
            lemma_varint_scan_bounds(s, i + 1, acc2);
        }
    }
}

/// How `decode_varint` answers `s`.
pub open spec fn varint_decoded(s: Seq<u8>, r: OvnResult<(u64, usize)>) -> bool {
    match varint_scan(s, 0, 0) {
        VarintOutcome::Value(v, n) => r matches Ok((x, m)) && x == v && m == n,
        VarintOutcome::Overflow => r == Err::<(u64, usize), OvnError>(OvnError::VarintOverflow),
        VarintOutcome::Truncated => r matches Err(OvnError::EncodingError(_)),
    }
}

/// Encode `value` as LEB128 onto the end of `buf`, returning the number of
/// bytes written.
pub fn encode_varint(value: u64, buf: &mut Vec<u8>) -> (n: usize)
    ensures
        final(buf)@ == old(buf)@ + varint_bytes(value),
        n == varint_bytes(value).len(),
        1 <= n <= 10,
{
    let ghost x = value;
    let mut out: Vec<u8> = Vec::new();
    let mut v = value;
    let mut s: u64 = 0;
    let mut count: usize = 0;
    proof {
        assert(x >> 0u64 == x) by (bit_vector);
    }
    loop
        invariant_except_break
            s < 64,
            s == 7 * count,
            count <= 9,
            v == x >> s,
            out@ + varint_from(x, s) == varint_bytes(x),
            out@.len() == count,
        ensures
            out@ == varint_bytes(x),
            1 <= out@.len() <= 10,
        decreases 64 - s,
    {
        let byte_low = (v & 0x7F) as u8;
        let next = v >> 7u64;
        proof {
            assert(v >> 7u64 == x >> ((s + 7) as u64)) by (bit_vector)
                requires
                    v == x >> s,
                    s < 64,
            ;
            assert((next == 0) == (v < 128)) by (bit_vector)
                requires
                    next == v >> 7u64,
            ;
        }
        if next == 0 {
            out.push(byte_low);
            proof {
                assert(((v & 0x7F) as u8) == (v as u8)) by (bit_vector)
                    requires
                        v < 128,
                ;
                assert(varint_from(x, s) == seq![(x >> s) as u8]);
                assert(out@ =~= varint_bytes(x));
            }
            break;
        }
        proof {
            assert(s < 57) by (bit_vector)
                requires
                    v == x >> s,
                    v >= 128,
                    s < 64,
            ;
            assert((byte_low | 0x80u8) == (((v & 0x7f) | 0x80) as u8)) by (bit_vector)
                requires
                    byte_low == (v & 0x7F) as u8,
            ;
        }
        out.push(byte_low | 0x80u8);
        proof {
            let rest = varint_from(x, (s + 7) as u64);
            assert(varint_from(x, s) == seq![(((x >> s) & 0x7f) | 0x80) as u8] + rest);
            assert(out@ + rest =~= varint_bytes(x));
        }
        v = next;
        s = s + 7;
        count = count + 1;
    }
    crate::codec::push_slice(buf, out.as_slice());
    out.len()
}

/// Decode a LEB128 varint from the start of `buf`, returning the value and
/// the number of bytes consumed. Ten or more continuation bytes are a
/// `VarintOverflow`; input ending inside the varint is an encoding error.
pub fn decode_varint(buf: &[u8]) -> (r: OvnResult<(u64, usize)>)
    ensures
        varint_decoded(buf@, r),
        r matches Ok((v, n)) ==> 1 <= n <= 10 && n <= buf@.len(),
{
    let mut result: u64 = 0;
    let mut shift: u64 = 0;
    let mut i: usize = 0;
    while i < buf.len()
        invariant
            i <= buf@.len(),
            shift == 7 * i,
            i <= 10,
            varint_scan(buf@, 0, 0) == varint_scan(buf@, i as nat, result),
        decreases buf@.len() - i,
    {
        if shift >= 64 {
            return Err(OvnError::VarintOverflow);
        }
        let byte = buf[i];
        result = result | (((byte & 0x7F) as u64) << shift);
        if byte & 0x80 == 0 {
            return Ok((result, i + 1));
        }
        shift = shift + 7;
        i = i + 1;
    }
    Err(OvnError::EncodingError("Unexpected end of varint".to_string()))
}


/// Scanning the rest of an encoding from byte `k`, with the low `7k` bits
/// already accumulated, yields the encoded value.
proof fn lemma_varint_scan(x: u64, k: nat, acc: u64, pre: Seq<u8>, rest: Seq<u8>)
    requires
        pre.len() == k,
        7 * k < 64,
        acc == x & (((1u64 << ((7 * k) as u64)) - 1) as u64),
    ensures
        varint_scan(pre + varint_from(x, (7 * k) as u64) + rest, k, acc) == VarintOutcome::Value(
            x,
            k + varint_from(x, (7 * k) as u64).len(),
        ),
    decreases 64 - 7 * k,
{
    let s = (7 * k) as u64;
    let t = pre + varint_from(x, s) + rest;
    let v = x >> s;
    if v < 128 {
        let b = v as u8;
        assert(varint_from(x, s) == seq![b]);
        assert(t[k as int] == b);
        assert(b & 0x80 == 0 && (acc | (((b & 0x7f) as u64) << s)) == x) by (bit_vector)
            requires
                v == x >> s,
                v < 128,
                b == v as u8,
                s < 64,
                acc == x & (((1u64 << s) - 1) as u64),
        ;
    } else {
        let b = (((x >> s) & 0x7f) | 0x80) as u8;
        assert(s < 57) by (bit_vector)
            requires
                v == x >> s,
                v >= 128,
                s < 64,
        ;
        let r = varint_from(x, (s + 7) as u64);
        assert(varint_from(x, s) == seq![b] + r);
        assert(t[k as int] == b);
        let acc2 = acc | (((b & 0x7f) as u64) << s);
        assert(b & 0x80 != 0 && acc2 == x & (((1u64 << ((s + 7) as u64)) - 1) as u64)) by (bit_vector)
            requires
                b == (((x >> s) & 0x7f) | 0x80) as u8,
                s < 57,
                acc == x & (((1u64 << s) - 1) as u64),
                acc2 == acc | (((b & 0x7f) as u64) << s),
        ;
        assert(7 * (k + 1) == s + 7);
        lemma_varint_scan(x, k + 1, acc2, pre.push(b), rest);
        assert(pre.push(b) + r + rest =~= t);
    }
}

/// Decoding the LEB128 encoding of `x`, followed by anything, gives `x`
/// and the length of the encoding.
pub proof fn lemma_varint_roundtrip(x: u64, rest: Seq<u8>)
    ensures
        varint_scan(varint_bytes(x) + rest, 0, 0) == VarintOutcome::Value(x, varint_bytes(x).len()),
        1 <= varint_bytes(x).len() <= 10,
{
    assert(x & (((1u64 << 0u64) - 1) as u64) == 0) by (bit_vector);
    lemma_varint_scan(x, 0, 0, Seq::empty(), rest);
    assert(Seq::<u8>::empty() + varint_bytes(x) + rest =~= varint_bytes(x) + rest);
    lemma_varint_len(x, 0);
}

/// Encodings are one to ten bytes long.
proof fn lemma_varint_len(x: u64, k: nat)
    requires
        7 * k < 64,
    ensures
        1 <= varint_from(x, (7 * k) as u64).len() <= 10 - k,
    decreases 64 - 7 * k,
{
    let s = (7 * k) as u64;
    if x >> s >= 128 {
        assert(s < 57) by (bit_vector)
            requires
                x >> s >= 128,
                s < 64,
        ;
        assert(7 * (k + 1) == s + 7);
        lemma_varint_len(x, k + 1);
    }
}

} // verus!
