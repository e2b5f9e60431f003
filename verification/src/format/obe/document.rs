//! OBE documents: identity, version stamp, tombstone and an ordered field
//! map, with their byte encoding.
//!
//! ```text
//! [4]  total length, LE      [16] document id     [8] txid, LE
//! [1]  tombstone (0xFF deleted, 0x00 live)        [varint] field count
//! fields...
//! ```

use vstd::prelude::*;

use crate::clock::random_uuid_bytes;
use crate::codec::{
    concat_str, le_u32, le_u64, lemma_u32_at, lemma_u64_at, push_slice, push_u64, push_zeros,
    read_u32, read_u64, slice_to_array, u32_at, u64_at, zeros,
};
use crate::error::{OvnError, OvnResult};
use crate::format::obe::codec::{
    decode_map, encode_fields, fail_is, fields_bytes, fields_wf, lemma_value_roundtrip, occurs_at,
    parse_map, parse_value, value_bytes, DecodeFail, Parsed,
};
use crate::format::obe::value::{
    fields_model, find_key, key_bytes, lemma_fields_model, map_insert, FieldMap, ObeValue, ValueModel,
};
use crate::format::obe::{varint_bytes, TypeTag};
use crate::MAX_DOCUMENT_SIZE;

verus! {

broadcast use vstd::array::group_array_axioms;

/// A complete OBE document.
#[derive(Debug, PartialEq)]
pub struct ObeDocument {
    /// Document ID (128-bit UUID).
    pub id: [u8; 16],
    /// Transaction ID (version stamp).
    pub txid: u64,
    /// Whether this document is deleted.
    pub tombstone: bool,
    /// Document fields, in key order.
    pub fields: FieldMap<ObeValue>,
}

/// What a document denotes.
pub struct DocModel {
    pub id: Seq<u8>,
    pub txid: u64,
    pub tombstone: bool,
    pub fields: Seq<(Seq<char>, ValueModel)>,
}

/// The model of a document.
pub open spec fn doc_model(d: ObeDocument) -> DocModel {
    DocModel {
        id: d.id@,
        txid: d.txid,
        tombstone: d.tombstone,
        fields: fields_model(d.fields.entries@),
    }
}

/// The tombstone byte.
pub open spec fn tombstone_byte(t: bool) -> u8 {
    if t {
        0xFF
    } else {
        0x00
    }
}

/// Everything after the length word.
pub open spec fn document_body(d: DocModel) -> Seq<u8> {
    d.id + le_u64(d.txid) + seq![tombstone_byte(d.tombstone)] + varint_bytes(d.fields.len() as u64)
        + fields_bytes(d.fields)
}

/// The bytes of a document: its total length (truncated to 32 bits), then
/// the body.
pub open spec fn document_bytes(d: DocModel) -> Seq<u8> {
    le_u32((document_body(d).len() + 4) as u32) + document_body(d)
}

/// The document a buffer holds: it needs the 29 header bytes and at least
/// as many bytes as its length word declares; the fields follow the header.
pub open spec fn parse_document(s: Seq<u8>) -> Parsed<DocModel> {
    if s.len() < 29 {
        Parsed::Fail(DecodeFail::Malformed)
    } else if s.len() < u32_at(s, 0) {
        Parsed::Fail(DecodeFail::Malformed)
    } else {
        match parse_map(s, 29) {
            Parsed::Done(fs, c) => Parsed::Done(
                DocModel {
                    id: s.subrange(4, 20),
                    txid: u64_at(s, 20),
                    tombstone: s[28] == 0xFF,
                    fields: fs,
                },
                29 + c,
            ),
            Parsed::Fail(f) => Parsed::Fail(f),
        }
    }
}

/// A lowercase hexadecimal digit.
pub open spec fn hex_digit(n: u8) -> char {
    if n < 10 {
        (0x30 + n) as char
    } else {
        (0x57 + n) as char
    }
}

/// The hyphenated lowercase text of a 16-byte UUID: 32 hex digits, two per
/// byte, high nibble first, in groups of 8-4-4-4-12 joined by `-`.
pub open spec fn uuid_text(b: Seq<u8>) -> Seq<char> {
    Seq::new(
        36,
        |i: int|
            if i == 8 || i == 13 || i == 18 || i == 23 {
                '-'
            } else {
                let j = if i < 8 {
                    i
                } else if i < 13 {
                    i - 1
                } else if i < 18 {
                    i - 2
                } else if i < 23 {
                    i - 3
                } else {
                    i - 4
                };
                let byte = b[j / 2];
                hex_digit(
                    if j % 2 == 0 {
                        byte >> 4u8
                    } else {
                        byte & 0x0f
                    },
                )
            },
    )
}

/// `uuid::Uuid::from_bytes(id).to_string()`, which formats the UUID
/// hyphenated in lowercase (`Display` delegates to `LowerHex` of the
/// hyphenated form).
#[verifier::external_body]
fn uuid_string(id: [u8; 16]) -> (s: String)
    ensures
        s@ == uuid_text(id@),
{
    ::uuid::Uuid::from_bytes(id).to_string()
}

impl ObeDocument {
    /// The document id as a hyphenated lowercase UUID string.
    pub fn id_string(&self) -> (s: String)
        ensures
            s@ == uuid_text(self.id@),
    {
        uuid_string(self.id)
    }

    /// A new empty, live document with a fresh random id: a version-4
    /// UUID (version nibble 4, variant bits `10`).
    pub fn new() -> (d: Self)
        ensures
            d.id@[6] & 0xF0 == 0x40,
            d.id@[8] & 0xC0 == 0x80,
            d.txid == 0,
            !d.tombstone,
            d.fields.entries@.len() == 0,
    {
        ObeDocument { id: random_uuid_bytes(), txid: 0, tombstone: false, fields: FieldMap::new() }
    }

    /// A new empty, live document with the given id.
    pub fn with_id(id: [u8; 16]) -> (d: Self)
        ensures
            d.id == id,
            d.txid == 0,
            !d.tombstone,
            d.fields.entries@.len() == 0,
    {
        ObeDocument { id, txid: 0, tombstone: false, fields: FieldMap::new() }
    }

    /// A live document holding `fields`, with a fresh random id.
    pub fn from_fields(fields: FieldMap<ObeValue>) -> (d: Self)
        ensures
            d.txid == 0,
            !d.tombstone,
            d.fields == fields,
    {
        ObeDocument { id: random_uuid_bytes(), txid: 0, tombstone: false, fields }
    }

    /// The value of field `key`.
    pub fn get(&self, key: &str) -> (r: Option<&ObeValue>)
        ensures
            match find_key(self.fields.entries@, key_bytes(key@), 0) {
                Some(i) => r == Some(&self.fields.entries@[i as int].1),
                None => r is None,
            },
    {
        self.fields.get(key)
    }

    /// Set field `key` to `value`, replacing any previous value.
    pub fn set(&mut self, key: String, value: ObeValue)
        ensures
            final(self).fields.entries@ == map_insert(old(self).fields.entries@, key, value),
            final(self).id == old(self).id,
            final(self).txid == old(self).txid,
            final(self).tombstone == old(self).tombstone,
    {
        self.fields.insert(key, value);
    }

    /// Remove field `key`, returning its value.
    pub fn remove(&mut self, key: &str) -> (r: Option<ObeValue>)
        ensures
            match find_key(old(self).fields.entries@, key_bytes(key@), 0) {
                Some(i) => r == Some(old(self).fields.entries@[i as int].1)
                    && final(self).fields.entries@ == old(self).fields.entries@.remove(i as int),
                None => r is None && final(self).fields.entries@ == old(self).fields.entries@,
            },
            final(self).id == old(self).id,
            final(self).txid == old(self).txid,
            final(self).tombstone == old(self).tombstone,
    {
        self.fields.remove(key)
    }

    /// Serialize the document. Encodings longer than `MAX_DOCUMENT_SIZE` are
    /// refused with `DocumentTooLarge`.
    pub fn encode(&self) -> (r: OvnResult<Vec<u8>>)
        ensures
            ({
                let b = document_bytes(doc_model(*self));
                if b.len() <= MAX_DOCUMENT_SIZE {
                    r matches Ok(v) && v@ == b
                } else {
                    r == Err::<Vec<u8>, OvnError>(
                        OvnError::DocumentTooLarge { size: b.len() as usize, max: MAX_DOCUMENT_SIZE },
                    )
                }
            }),
    {
        let mut buf: Vec<u8> = Vec::new();
        push_zeros(&mut buf, 4);
        let ghost b0 = buf@;
        assert(b0 =~= zeros(4));
        let ids = self.id.as_slice();
        assert(ids@ == self.id@);
        push_slice(&mut buf, ids);
        let ghost b1 = buf@;
        push_u64(&mut buf, self.txid);
        let ghost b2 = buf@;
        let tb: u8 = if self.tombstone {
            0xFF
        } else {
            0x00
        };
        buf.push(tb);
        let ghost b3 = buf@;
        assert(b3 == zeros(4) + self.id@ + le_u64(self.txid) + seq![tombstone_byte(self.tombstone)]);
        encode_fields(&self.fields, &mut buf);
        proof {
            lemma_fields_model(self.fields.entries@);
        }
        let ghost body = document_body(doc_model(*self));
        assert(buf@ =~= zeros(4) + body);
        let total = buf.len();
        let t = total as u32;
        buf[0] = (t & 0xff) as u8;
        buf[1] = ((t >> 8u32) & 0xff) as u8;
        buf[2] = ((t >> 16u32) & 0xff) as u8;
        buf[3] = ((t >> 24u32) & 0xff) as u8;
        assert(buf@ =~= document_bytes(doc_model(*self)));
        if total > MAX_DOCUMENT_SIZE {
            return Err(OvnError::DocumentTooLarge { size: total, max: MAX_DOCUMENT_SIZE });
        }
        Ok(buf)
    }

    /// Deserialize a document: the buffer must hold the 29 header bytes and
    /// at least as many bytes as the length word declares (encoding errors
    /// otherwise); the fields are then decoded as `decode_map` does.
    pub fn decode(buf: &[u8]) -> (r: OvnResult<ObeDocument>)
        ensures
            match parse_document(buf@) {
                Parsed::Done(d, c) => r matches Ok(doc) && doc_model(doc) == d,
                Parsed::Fail(f) => r matches Err(e) && fail_is(f, e),
            },
    {
        if buf.len() < 29 {
            return Err(OvnError::EncodingError("OBE document buffer too small".to_string()));
        }
        let total_len = read_u32(buf, 0) as usize;
        if buf.len() < total_len {
            let msg = concat_str("OBE document truncated: declared ".to_string(), total_len.to_string().as_str());
            let msg = concat_str(msg, " bytes but only ");
            let msg = concat_str(msg, buf.len().to_string().as_str());
            let msg = concat_str(msg, " available");
            return Err(OvnError::EncodingError(msg));
        }
        let id: [u8; 16] = slice_to_array(vstd::slice::slice_subrange(buf, 4, 20));
        let txid = read_u64(buf, 20);
        let tombstone = buf[28] == 0xFF;
        match decode_map(buf, 29) {
            Ok((fields, _)) => Ok(ObeDocument { id, txid, tombstone, fields }),
            Err(e) => Err(e),
        }
    }
}

impl Default for ObeDocument {
    /// A new empty, live document with a fresh random id.
    fn default() -> (d: Self)
        ensures
            d.txid == 0,
            !d.tombstone,
            d.fields.entries@.len() == 0,
    {
        ObeDocument::new()
    }
}

/// Decoding the encoding of a document with a 16-byte id and well-formed
/// fields gives the document back.
pub proof fn lemma_document_roundtrip(d: DocModel)
    requires
        d.id.len() == 16,
        fields_wf(d.fields),
    ensures
        parse_document(document_bytes(d)) == Parsed::Done(d, document_bytes(d).len()),
{
    let body = document_body(d);
    let s = document_bytes(d);
    let n = (body.len() + 4) as u32;
    let fb = varint_bytes(d.fields.len() as u64) + fields_bytes(d.fields);
    assert(s.subrange(0, 4) =~= le_u32(n));
    lemma_u32_at(s, 0, n);
    assert(s.len() == body.len() + 4);
    assert(n <= s.len()) by {
        if body.len() + 4 <= u32::MAX {
            assert(n == body.len() + 4);
        }
    }
    assert(s.subrange(4, 20) =~= d.id);
    assert(s.subrange(20, 28) =~= le_u64(d.txid));
    lemma_u64_at(s, 20, d.txid);
    assert(s[28] == tombstone_byte(d.tombstone));
    assert(s.subrange(29, s.len() as int) =~= fb);
    assert(occurs_at(s, 29, value_bytes(ValueModel::Document(d.fields))));
    lemma_value_roundtrip(ValueModel::Document(d.fields), s, 29);
    assert(parse_value(TypeTag::Document, s, 29) == Parsed::Done(ValueModel::Document(d.fields), fb.len()));
}

} // verus!
