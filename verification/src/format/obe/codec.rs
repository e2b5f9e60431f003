//! Byte encoding of OBE values and fields, the grammar their decoder
//! follows, and the proof that decoding an encoding gives the value back.
//!
//! ```text
//! field:  [varint] name length  [name, UTF-8]  [1] type tag  value
//! value:  Null, Bool: nothing (the tag says which)
//!         Int32: 4 bytes LE   Int64, Float64, Timestamp: 8 bytes LE
//!         String, Binary: [varint] length, bytes
//!         Document: [varint] field count, fields
//!         Array: [varint] item count, then per item [1] tag and value
//!         ObjectId: 12 bytes   Decimal128: 16 bytes   Varint (read only): LEB128
//! ```

use vstd::prelude::*;
use vstd::utf8::{decode_utf8, valid_utf8};

use crate::codec::{
    concat_str, copy_range, le_u32, le_u64, lemma_u32_at, lemma_u64_at, push_slice, push_u32,
    push_u64, read_u32, read_u64, slice_to_array, u32_at, u64_at,
};
use crate::error::{OvnError, OvnResult};
use crate::format::obe::value::{
    bytes_lt, fields_model, items_model, key_bytes, lemma_fields_model, lemma_insert_model,
    lemma_items_model, model_insert, model_keys_sorted, model_lower_bound, value_model, FieldMap,
    ObeValue, ValueModel,
};
use crate::format::obe::{
    decode_varint, encode_varint, lemma_tag_roundtrip, lemma_varint_roundtrip,
    lemma_varint_scan_bounds, tag_code, tag_from_code, varint_bytes, varint_scan, TypeTag,
    VarintOutcome,
};

verus! {

broadcast use vstd::array::group_array_axioms;

/// The type tag written before a value of this model.
pub open spec fn model_tag(m: ValueModel) -> TypeTag {
    match m {
        ValueModel::Null => TypeTag::Null,
        ValueModel::Bool(b) => if b {
            TypeTag::BoolTrue
        } else {
            TypeTag::BoolFalse
        },
        ValueModel::Int32(_) => TypeTag::Int32,
        ValueModel::Int64(_) => TypeTag::Int64,
        ValueModel::Float64(_) => TypeTag::Float64,
        ValueModel::Str(_) => TypeTag::String,
        ValueModel::Binary(_) => TypeTag::Binary,
        ValueModel::Document(_) => TypeTag::Document,
        ValueModel::Array(_) => TypeTag::Array,
        ValueModel::Timestamp(_) => TypeTag::Timestamp,
        ValueModel::ObjectId(_) => TypeTag::ObjectId,
        ValueModel::Decimal128(_) => TypeTag::Decimal128,
    }
}

/// A length-prefixed byte string: LEB128 length, then the bytes.
pub open spec fn prefixed(b: Seq<u8>) -> Seq<u8> {
    varint_bytes(b.len() as u64) + b
}

/// The bytes of a value, after its tag.
pub open spec fn value_bytes(m: ValueModel) -> Seq<u8>
    decreases m,
{
    match m {
        ValueModel::Null => Seq::empty(),
        ValueModel::Bool(_) => Seq::empty(),
        ValueModel::Int32(x) => le_u32(x as u32),
        ValueModel::Int64(x) => le_u64(x as u64),
        ValueModel::Float64(x) => le_u64(x),
        ValueModel::Str(cs) => prefixed(key_bytes(cs)),
        ValueModel::Binary(b) => prefixed(b),
        ValueModel::Document(fs) => varint_bytes(fs.len() as u64) + fields_bytes(fs),
        ValueModel::Array(a) => varint_bytes(a.len() as u64) + items_bytes(a),
        ValueModel::Timestamp(t) => le_u64(t),
        ValueModel::ObjectId(o) => o,
        ValueModel::Decimal128(d) => d,
    }
}

/// The bytes of a sequence of fields, each as name, tag and value.
pub open spec fn fields_bytes(fs: Seq<(Seq<char>, ValueModel)>) -> Seq<u8>
    decreases fs,
{
    if fs.len() == 0 {
        Seq::empty()
    } else {
        prefixed(key_bytes(fs[0].0)) + seq![tag_code(model_tag(fs[0].1))] + value_bytes(fs[0].1)
            + fields_bytes(fs.drop_first())
    }
}

/// The bytes of a sequence of array items, each as tag and value.
pub open spec fn items_bytes(a: Seq<ValueModel>) -> Seq<u8>
    decreases a,
{
    if a.len() == 0 {
        Seq::empty()
    } else {
        seq![tag_code(model_tag(a[0]))] + value_bytes(a[0]) + items_bytes(a.drop_first())
    }
}

/// The bytes of one field.
pub open spec fn field_bytes(k: Seq<char>, m: ValueModel) -> Seq<u8> {
    prefixed(key_bytes(k)) + seq![tag_code(model_tag(m))] + value_bytes(m)
}

/// Appending a field appends its bytes.
pub proof fn lemma_fields_bytes_push(fs: Seq<(Seq<char>, ValueModel)>, f: (Seq<char>, ValueModel))
    ensures
        fields_bytes(fs.push(f)) == fields_bytes(fs) + field_bytes(f.0, f.1),
    decreases fs.len(),
{
    if fs.len() == 0 {
        let g = fs.push(f);
        assert(g.drop_first() =~= Seq::<(Seq<char>, ValueModel)>::empty());
        assert(g[0] == f);
        assert(fields_bytes(g.drop_first()) == Seq::<u8>::empty());
        assert(fields_bytes(g) =~= fields_bytes(fs) + field_bytes(f.0, f.1));
    } else {
        let g = fs.push(f);
        assert(g.drop_first() =~= fs.drop_first().push(f));
        assert(g[0] == fs[0]);
        lemma_fields_bytes_push(fs.drop_first(), f);
        let h = field_bytes(fs[0].0, fs[0].1);
        assert(fields_bytes(g) == h + fields_bytes(g.drop_first()));
        assert(fields_bytes(fs) == h + fields_bytes(fs.drop_first()));
        assert(fields_bytes(g) =~= fields_bytes(fs) + field_bytes(f.0, f.1));
    }
}

/// Appending an item appends its bytes.
pub proof fn lemma_items_bytes_push(a: Seq<ValueModel>, m: ValueModel)
    ensures
        items_bytes(a.push(m)) == items_bytes(a) + seq![tag_code(model_tag(m))] + value_bytes(m),
    decreases a.len(),
{
    if a.len() == 0 {
        let g = a.push(m);
        assert(g.drop_first() =~= Seq::<ValueModel>::empty());
        assert(g[0] == m);
        assert(items_bytes(g.drop_first()) == Seq::<u8>::empty());
        assert(items_bytes(g) =~= items_bytes(a) + seq![tag_code(model_tag(m))] + value_bytes(m));
    } else {
        let g = a.push(m);
        assert(g.drop_first() =~= a.drop_first().push(m));
        assert(g[0] == a[0]);
        lemma_items_bytes_push(a.drop_first(), m);
        let h = seq![tag_code(model_tag(a[0]))] + value_bytes(a[0]);
        assert(items_bytes(g) == h + items_bytes(g.drop_first()));
        assert(items_bytes(a) == h + items_bytes(a.drop_first()));
        assert(items_bytes(g) =~= items_bytes(a) + seq![tag_code(model_tag(m))] + value_bytes(m));
    }
}

// ── Encoding ──────────────────────────────────────────────────────────────

/// The type tag of a value.
pub fn value_tag(v: &ObeValue) -> (t: TypeTag)
    ensures
        t == model_tag(value_model(*v)),
{
    match v {
        ObeValue::Null => TypeTag::Null,
        ObeValue::Bool(b) => if *b {
            TypeTag::BoolTrue
        } else {
            TypeTag::BoolFalse
        },
        ObeValue::Int32(_) => TypeTag::Int32,
        ObeValue::Int64(_) => TypeTag::Int64,
        ObeValue::Float64(_) => TypeTag::Float64,
        ObeValue::String(_) => TypeTag::String,
        ObeValue::Binary(_) => TypeTag::Binary,
        ObeValue::Document(_) => TypeTag::Document,
        ObeValue::Array(_) => TypeTag::Array,
        ObeValue::Timestamp(_) => TypeTag::Timestamp,
        ObeValue::ObjectId(_) => TypeTag::ObjectId,
        ObeValue::Decimal128(_) => TypeTag::Decimal128,
    }
}

/// Append a length-prefixed byte string.
fn push_prefixed(buf: &mut Vec<u8>, b: &[u8])
    ensures
        final(buf)@ == old(buf)@ + prefixed(b@),
{
    encode_varint(b.len() as u64, buf);
    push_slice(buf, b);
    assert(buf@ =~= old(buf)@ + prefixed(b@));
}

/// Append a field's name and the tag of its value; the value follows.
fn encode_field_head(name: &str, tag: TypeTag, buf: &mut Vec<u8>)
    ensures
        final(buf)@ == old(buf)@ + prefixed(key_bytes(name@)) + seq![tag_code(tag)],
{
    push_prefixed(buf, name.as_bytes());
    buf.push(tag.code());
}

/// Append the bytes of a value (after its tag).
pub fn encode_value(value: &ObeValue, buf: &mut Vec<u8>)
    ensures
        final(buf)@ == old(buf)@ + value_bytes(value_model(*value)),
    decreases value,
{
    match value {
        ObeValue::Null => {
            assert(buf@ =~= old(buf)@ + value_bytes(value_model(*value)));
        },
        ObeValue::Bool(_) => {
            assert(buf@ =~= old(buf)@ + value_bytes(value_model(*value)));
        },
        ObeValue::Int32(x) => push_u32(buf, *x as u32),
        ObeValue::Int64(x) => push_u64(buf, *x as u64),
        ObeValue::Float64(x) => push_u64(buf, *x),
        ObeValue::String(s) => {
            let b = s.as_str().as_bytes();
            assert(b@ == key_bytes(s@));
            push_prefixed(buf, b);
        },
        ObeValue::Binary(b) => push_prefixed(buf, b.as_slice()),
        ObeValue::Document(m) => {
            proof {
                assert(decreases_to!(*value => value->Document_0));
                lemma_fields_model(m.entries@);
            }
            encode_fields(m, buf);
        },
        ObeValue::Array(a) => {
            encode_varint(a.len() as u64, buf);
            let ghost start = buf@;
            let mut i: usize = 0;
            proof {
                lemma_items_model(a@);
            }
            while i < a.len()
                invariant
                    i <= a@.len(),
                    *value is Array,
                    value->Array_0 == *a,
                    items_model(a@).len() == a@.len(),
                    forall|j: int| 0 <= j < a@.len() ==> #[trigger] items_model(a@)[j] == value_model(a@[j]),
                    buf@ == start + items_bytes(items_model(a@).take(i as int)),
                decreases a@.len() - i,
            {
                proof {
                    assert(decreases_to!(*value => value->Array_0));
                    assert(decreases_to!(value->Array_0 => a@[i as int]));
                    lemma_items_bytes_push(items_model(a@).take(i as int), items_model(a@)[i as int]);
                    assert(items_model(a@).take(i + 1) =~= items_model(a@).take(i as int).push(
                        items_model(a@)[i as int],
                    ));
                }
                buf.push(value_tag(&a[i]).code());
                encode_value(&a[i], buf);
                i = i + 1;
            }
            assert(items_model(a@).take(i as int) =~= items_model(a@));
            assert(buf@ =~= old(buf)@ + value_bytes(value_model(*value)));
        },
        ObeValue::Timestamp(t) => push_u64(buf, *t),
        ObeValue::ObjectId(o) => push_slice(buf, o.as_slice()),
        ObeValue::Decimal128(d) => push_slice(buf, d.as_slice()),
    }
}

/// Append a field count and the fields of a map, in key order.
pub fn encode_fields(m: &FieldMap<ObeValue>, buf: &mut Vec<u8>)
    ensures
        final(buf)@ == old(buf)@ + varint_bytes(m.entries@.len() as u64) + fields_bytes(
            fields_model(m.entries@),
        ),
    decreases m,
{
    encode_varint(m.entries.len() as u64, buf);
    let ghost start = buf@;
    let ghost fm = fields_model(m.entries@);
    proof {
        lemma_fields_model(m.entries@);
    }
    let mut i: usize = 0;
    while i < m.entries.len()
        invariant
            i <= m.entries@.len(),
            fm == fields_model(m.entries@),
            fm.len() == m.entries@.len(),
            forall|j: int|
                0 <= j < m.entries@.len() ==> #[trigger] fm[j] == (m.entries@[j].0@, value_model(
                    m.entries@[j].1,
                )),
            buf@ == start + fields_bytes(fm.take(i as int)),
        decreases m.entries@.len() - i,
    {
        proof {
            assert(decreases_to!(*m => m.entries));
            assert(decreases_to!(m.entries => m.entries@));
            assert(decreases_to!(m.entries@ => m.entries@[i as int]));
            assert(decreases_to!(m.entries@[i as int] => m.entries@[i as int].1));
            lemma_fields_bytes_push(fm.take(i as int), fm[i as int]);
            assert(fm.take(i + 1) =~= fm.take(i as int).push(fm[i as int]));
        }
        let entry = &m.entries[i];
        encode_field_head(entry.0.as_str(), value_tag(&entry.1), buf);
        encode_value(&entry.1, buf);
        i = i + 1;
    }
    assert(fm.take(i as int) =~= fm);
    assert(buf@ =~= old(buf)@ + varint_bytes(m.entries@.len() as u64) + fields_bytes(fm));
}

// ── Decoding grammar ──────────────────────────────────────────────────────

/// Why a decode fails.
pub enum DecodeFail {
    /// Truncated input, a length past the end, or text that is not UTF-8.
    Malformed,
    /// A type tag byte that names no type.
    UnknownTag(u8),
    /// A varint with more than 64 bits of payload.
    Overflow,
}

/// Outcome of a grammar rule: what it read and how many bytes it spans, or
/// why it failed.
pub enum Parsed<T> {
    Done(T, nat),
    Fail(DecodeFail),
}

/// The same outcome, with `d` more bytes consumed.
pub open spec fn shift<T>(r: Parsed<T>, d: nat) -> Parsed<T> {
    match r {
        Parsed::Done(x, c) => Parsed::Done(x, c + d),
        Parsed::Fail(f) => Parsed::Fail(f),
    }
}

/// Shifting twice is shifting by the sum.
pub proof fn lemma_shift_shift<T>(r: Parsed<T>, a: nat, b: nat)
    ensures
        shift(shift(r, a), b) == shift(r, a + b),
{
}

/// The bytes of `s` from position `p` on.
pub open spec fn tail(s: Seq<u8>, p: nat) -> Seq<u8> {
    if p <= s.len() {
        s.subrange(p as int, s.len() as int)
    } else {
        Seq::empty()
    }
}

/// How many bytes of `s` lie at or after `p`.
pub open spec fn left(s: Seq<u8>, p: nat) -> nat {
    if p <= s.len() {
        (s.len() - p) as nat
    } else {
        0
    }
}

/// A length-prefixed byte string at `p`: the bytes, and the span of prefix
/// and bytes together.
pub open spec fn parse_prefixed(s: Seq<u8>, p: nat) -> Parsed<Seq<u8>> {
    match varint_scan(tail(s, p), 0, 0) {
        VarintOutcome::Overflow => Parsed::Fail(DecodeFail::Overflow),
        VarintOutcome::Truncated => Parsed::Fail(DecodeFail::Malformed),
        VarintOutcome::Value(n, vl) => if left(s, p) < vl + n {
            Parsed::Fail(DecodeFail::Malformed)
        } else {
            Parsed::Done(s.subrange((p + vl) as int, (p + vl + n) as int), (vl + n) as nat)
        },
    }
}

/// UTF-8 text at `p`, as a length-prefixed byte string.
pub open spec fn parse_text(s: Seq<u8>, p: nat) -> Parsed<Seq<char>> {
    match parse_prefixed(s, p) {
        Parsed::Done(b, c) => if valid_utf8(b) {
            Parsed::Done(decode_utf8(b), c)
        } else {
            Parsed::Fail(DecodeFail::Malformed)
        },
        Parsed::Fail(f) => Parsed::Fail(f),
    }
}

/// A fixed-width field of `w` bytes at `p`.
pub open spec fn parse_fixed(s: Seq<u8>, p: nat, w: nat) -> Parsed<Seq<u8>> {
    if left(s, p) < w {
        Parsed::Fail(DecodeFail::Malformed)
    } else {
        Parsed::Done(s.subrange(p as int, (p + w) as int), w)
    }
}

/// The value of type `t` whose bytes start at `p`.
pub open spec fn parse_value(t: TypeTag, s: Seq<u8>, p: nat) -> Parsed<ValueModel>
    decreases left(s, p), 2nat,
{
    match t {
        TypeTag::Null => Parsed::Done(ValueModel::Null, 0),
        TypeTag::BoolTrue => Parsed::Done(ValueModel::Bool(true), 0),
        TypeTag::BoolFalse => Parsed::Done(ValueModel::Bool(false), 0),
        TypeTag::Int32 => if left(s, p) < 4 {
            Parsed::Fail(DecodeFail::Malformed)
        } else {
            Parsed::Done(ValueModel::Int32(u32_at(s, p as int) as i32), 4)
        },
        TypeTag::Int64 => if left(s, p) < 8 {
            Parsed::Fail(DecodeFail::Malformed)
        } else {
            Parsed::Done(ValueModel::Int64(u64_at(s, p as int) as i64), 8)
        },
        TypeTag::Float64 => if left(s, p) < 8 {
            Parsed::Fail(DecodeFail::Malformed)
        } else {
            Parsed::Done(ValueModel::Float64(u64_at(s, p as int)), 8)
        },
        TypeTag::Timestamp => if left(s, p) < 8 {
            Parsed::Fail(DecodeFail::Malformed)
        } else {
            Parsed::Done(ValueModel::Timestamp(u64_at(s, p as int)), 8)
        },
        TypeTag::String => match parse_text(s, p) {
            Parsed::Done(cs, c) => Parsed::Done(ValueModel::Str(cs), c),
            Parsed::Fail(f) => Parsed::Fail(f),
        },
        TypeTag::Binary => match parse_prefixed(s, p) {
            Parsed::Done(b, c) => Parsed::Done(ValueModel::Binary(b), c),
            Parsed::Fail(f) => Parsed::Fail(f),
        },
        TypeTag::ObjectId => match parse_fixed(s, p, 12) {
            Parsed::Done(b, c) => Parsed::Done(ValueModel::ObjectId(b), c),
            Parsed::Fail(f) => Parsed::Fail(f),
        },
        TypeTag::Decimal128 => match parse_fixed(s, p, 16) {
            Parsed::Done(b, c) => Parsed::Done(ValueModel::Decimal128(b), c),
            Parsed::Fail(f) => Parsed::Fail(f),
        },
        TypeTag::Varint => match varint_scan(tail(s, p), 0, 0) {
            VarintOutcome::Value(v, n) => Parsed::Done(ValueModel::Int64(v as i64), n),
            VarintOutcome::Overflow => Parsed::Fail(DecodeFail::Overflow),
            VarintOutcome::Truncated => Parsed::Fail(DecodeFail::Malformed),
        },
        TypeTag::Document => match parse_map(s, p) {
            Parsed::Done(fs, c) => Parsed::Done(ValueModel::Document(fs), c),
            Parsed::Fail(f) => Parsed::Fail(f),
        },
        TypeTag::Array => match varint_scan(tail(s, p), 0, 0) {
            VarintOutcome::Overflow => Parsed::Fail(DecodeFail::Overflow),
            VarintOutcome::Truncated => Parsed::Fail(DecodeFail::Malformed),
            VarintOutcome::Value(n, vl) => {
                proof {
                    lemma_varint_scan_bounds(tail(s, p), 0, 0);
                }
                match parse_items(s, p + vl, n as nat, Seq::empty()) {
                    Parsed::Done(a, c) => Parsed::Done(ValueModel::Array(a), vl + c),
                    Parsed::Fail(f) => Parsed::Fail(f),
                }
            },
        },
    }
}

/// A field count at `p` followed by that many fields, gathered into an
/// ordered map (a later field replaces an earlier one of the same name).
pub open spec fn parse_map(s: Seq<u8>, p: nat) -> Parsed<Seq<(Seq<char>, ValueModel)>>
    decreases left(s, p), 1nat,
{
    match varint_scan(tail(s, p), 0, 0) {
        VarintOutcome::Overflow => Parsed::Fail(DecodeFail::Overflow),
        VarintOutcome::Truncated => Parsed::Fail(DecodeFail::Malformed),
        VarintOutcome::Value(n, vl) => {
            proof {
                lemma_varint_scan_bounds(tail(s, p), 0, 0);
            }
            shift(parse_fields(s, p + vl, n as nat, Seq::empty()), vl)
        },
    }
}

/// `k` fields from `p` on, inserted one by one into `acc`.
pub open spec fn parse_fields(
    s: Seq<u8>,
    p: nat,
    k: nat,
    acc: Seq<(Seq<char>, ValueModel)>,
) -> Parsed<Seq<(Seq<char>, ValueModel)>>
    decreases left(s, p), k,
{
    if k == 0 {
        Parsed::Done(acc, 0)
    } else {
        match parse_field(s, p) {
            Parsed::Done(f, c) => shift(
                parse_fields(s, p + c, (k - 1) as nat, model_insert(acc, f.0, f.1)),
                c,
            ),
            Parsed::Fail(e) => Parsed::Fail(e),
        }
    }
}

/// One field at `p`: its name, then its tag, then its value.
pub open spec fn parse_field(s: Seq<u8>, p: nat) -> Parsed<(Seq<char>, ValueModel)>
    decreases left(s, p), 0nat,
{
    match parse_text(s, p) {
        Parsed::Fail(f) => Parsed::Fail(f),
        Parsed::Done(name, c) => {
            let q = p + c;
            if q >= s.len() {
                Parsed::Fail(DecodeFail::Malformed)
            } else {
                match tag_from_code(s[q as int]) {
                    None => Parsed::Fail(DecodeFail::UnknownTag(s[q as int])),
                    Some(t) => match parse_value(t, s, q + 1) {
                        Parsed::Done(v, c2) => Parsed::Done((name, v), c + 1 + c2),
                        Parsed::Fail(f) => Parsed::Fail(f),
                    },
                }
            }
        },
    }
}

/// `k` array items from `p` on, each a tag and a value, appended to `acc`.
pub open spec fn parse_items(s: Seq<u8>, p: nat, k: nat, acc: Seq<ValueModel>) -> Parsed<
    Seq<ValueModel>,
>
    decreases left(s, p), k,
{
    if k == 0 {
        Parsed::Done(acc, 0)
    } else if p >= s.len() {
        Parsed::Fail(DecodeFail::Malformed)
    } else {
        match tag_from_code(s[p as int]) {
            None => Parsed::Fail(DecodeFail::UnknownTag(s[p as int])),
            Some(t) => match parse_value(t, s, p + 1) {
                Parsed::Done(v, c) => shift(
                    parse_items(s, p + 1 + c, (k - 1) as nat, acc.push(v)),
                    1 + c,
                ),
                Parsed::Fail(f) => Parsed::Fail(f),
            },
        }
    }
}

// ── Decoding ──────────────────────────────────────────────────────────────

/// The error a failure is reported as.
pub open spec fn fail_is(f: DecodeFail, e: OvnError) -> bool {
    match f {
        DecodeFail::Malformed => e is EncodingError,
        DecodeFail::UnknownTag(b) => e == OvnError::UnknownTypeTag(b),
        DecodeFail::Overflow => e == OvnError::VarintOverflow,
    }
}

/// `r` answers the grammar outcome `g` for a value.
pub open spec fn value_decoded(g: Parsed<ValueModel>, r: OvnResult<(ObeValue, usize)>) -> bool {
    match g {
        Parsed::Done(m, c) => r matches Ok((v, n)) && value_model(v) == m && n == c,
        Parsed::Fail(f) => r matches Err(e) && fail_is(f, e),
    }
}

/// `r` answers the grammar outcome `g` for a map.
pub open spec fn map_decoded(
    g: Parsed<Seq<(Seq<char>, ValueModel)>>,
    r: OvnResult<(FieldMap<ObeValue>, usize)>,
) -> bool {
    match g {
        Parsed::Done(fs, c) => r matches Ok((m, n)) && fields_model(m.entries@) == fs && n == c,
        Parsed::Fail(f) => r matches Err(e) && fail_is(f, e),
    }
}

/// `r` answers the grammar outcome `g` for a field.
pub open spec fn field_decoded(
    g: Parsed<(Seq<char>, ValueModel)>,
    r: OvnResult<(String, ObeValue, usize)>,
) -> bool {
    match g {
        Parsed::Done(f, c) => r matches Ok((k, v, n)) && k@ == f.0 && value_model(v) == f.1 && n
            == c,
        Parsed::Fail(e) => r matches Err(x) && fail_is(e, x),
    }
}

/// `String::from_utf8`: the bytes as a `String` when they are valid UTF-8
/// (then its characters are their decoding), else the error's message.
#[verifier::external_body]
fn string_from_utf8(bytes: Vec<u8>) -> (r: Result<String, String>)
    ensures
        r is Ok <==> valid_utf8(bytes@),
        r matches Ok(s) ==> s@ == decode_utf8(bytes@),
{
    match String::from_utf8(bytes) {
        Ok(s) => Ok(s),
        Err(e) => Err(e.to_string()),
    }
}

/// An encoding error with the given message.
fn malformed(msg: &str) -> (e: OvnError)
    ensures
        e is EncodingError,
{
    OvnError::EncodingError(msg.to_string())
}

/// Read a length-prefixed byte string at `pos`.
fn decode_prefixed(buf: &[u8], pos: usize, what: &str) -> (r: OvnResult<(Vec<u8>, usize)>)
    requires
        pos <= buf@.len(),
    ensures
        match parse_prefixed(buf@, pos as nat) {
            Parsed::Done(b, c) => r matches Ok((v, n)) && v@ == b && n == c,
            Parsed::Fail(f) => r matches Err(e) && fail_is(f, e),
        },
        r matches Ok((v, n)) ==> pos + n <= buf@.len(),
{
    let rest = vstd::slice::slice_subrange(buf, pos, buf.len());
    assert(rest@ == tail(buf@, pos as nat));
    let (n, vl) = match decode_varint(rest) {
        Ok(x) => x,
        Err(e) => return Err(e),
    };
    let avail = buf.len() - pos;
    if ((avail - vl) as u64) < n {
        return Err(malformed(what));
    }
    let start = pos + vl;
    let end = start + n as usize;
    let out = copy_range(buf, start, end);
    assert(out@ == buf@.subrange((pos + vl) as int, (pos + vl + n) as int));
    Ok((out, vl + n as usize))
}

/// Decode the value of type `tag` whose bytes start at `pos`, returning it
/// and the number of bytes it spans.
pub fn decode_value(tag: TypeTag, buf: &[u8], pos: usize) -> (r: OvnResult<(ObeValue, usize)>)
    requires
        pos <= buf@.len(),
    ensures
        value_decoded(parse_value(tag, buf@, pos as nat), r),
        r matches Ok((v, n)) ==> pos + n <= buf@.len(),
    decreases buf@.len() - pos, 3nat,
{
    let avail = buf.len() - pos;
    match tag {
        TypeTag::Null => Ok((ObeValue::Null, 0)),
        TypeTag::BoolTrue => Ok((ObeValue::Bool(true), 0)),
        TypeTag::BoolFalse => Ok((ObeValue::Bool(false), 0)),
        TypeTag::Int32 => {
            if avail < 4 {
                return Err(malformed("Int32 truncated"));
            }
            Ok((ObeValue::Int32(read_u32(buf, pos) as i32), 4))
        },
        TypeTag::Int64 => {
            if avail < 8 {
                return Err(malformed("Int64 truncated"));
            }
            Ok((ObeValue::Int64(read_u64(buf, pos) as i64), 8))
        },
        TypeTag::Float64 => {
            if avail < 8 {
                return Err(malformed("Float64 truncated"));
            }
            Ok((ObeValue::Float64(read_u64(buf, pos)), 8))
        },
        TypeTag::Timestamp => {
            if avail < 8 {
                return Err(malformed("Timestamp truncated"));
            }
            Ok((ObeValue::Timestamp(read_u64(buf, pos)), 8))
        },
        TypeTag::String => {
            let (bytes, c) = match decode_prefixed(buf, pos, "String truncated") {
                Ok(x) => x,
                Err(e) => return Err(e),
            };
            match string_from_utf8(bytes) {
                Ok(s) => Ok((ObeValue::String(s), c)),
                Err(msg) => Err(OvnError::EncodingError(concat_str("Invalid UTF-8: ".to_string(), msg.as_str()))),
            }
        },
        TypeTag::Binary => {
            let (bytes, c) = match decode_prefixed(buf, pos, "Binary truncated") {
                Ok(x) => x,
                Err(e) => return Err(e),
            };
            Ok((ObeValue::Binary(bytes), c))
        },
        TypeTag::ObjectId => {
            if avail < 12 {
                return Err(malformed("ObjectId truncated"));
            }
            let oid: [u8; 12] = slice_to_array(vstd::slice::slice_subrange(buf, pos, pos + 12));
            Ok((ObeValue::ObjectId(oid), 12))
        },
        TypeTag::Decimal128 => {
            if avail < 16 {
                return Err(malformed("Decimal128 truncated"));
            }
            let d: [u8; 16] = slice_to_array(vstd::slice::slice_subrange(buf, pos, pos + 16));
            Ok((ObeValue::Decimal128(d), 16))
        },
        TypeTag::Varint => {
            let rest = vstd::slice::slice_subrange(buf, pos, buf.len());
            assert(rest@ == tail(buf@, pos as nat));
            match decode_varint(rest) {
                Ok((v, n)) => Ok((ObeValue::Int64(v as i64), n)),
                Err(e) => Err(e),
            }
        },
        TypeTag::Document => {
            match decode_map(buf, pos) {
                Ok((m, c)) => Ok((ObeValue::Document(m), c)),
                Err(e) => Err(e),
            }
        },
        TypeTag::Array => {
            let rest = vstd::slice::slice_subrange(buf, pos, buf.len());
            assert(rest@ == tail(buf@, pos as nat));
            let (count, vl) = match decode_varint(rest) {
                Ok(x) => x,
                Err(e) => return Err(e),
            };
            match decode_items(buf, pos + vl, count) {
                Ok((items, c)) => {
                    proof {
                        lemma_items_model(items@);
                    }
                    Ok((ObeValue::Array(items), vl + c))
                },
                Err(e) => Err(e),
            }
        },
    }
}

/// `r` answers the grammar outcome `g` for a run of array items.
pub open spec fn items_decoded(g: Parsed<Seq<ValueModel>>, r: OvnResult<(Vec<ObeValue>, usize)>) -> bool {
    match g {
        Parsed::Done(a, c) => r matches Ok((v, n)) && items_model(v@) == a && n == c,
        Parsed::Fail(f) => r matches Err(e) && fail_is(f, e),
    }
}

/// `r` answers the grammar outcome `g` for a run of fields.
pub open spec fn fields_decoded(
    g: Parsed<Seq<(Seq<char>, ValueModel)>>,
    r: OvnResult<(FieldMap<ObeValue>, usize)>,
) -> bool {
    map_decoded(g, r)
}

/// One step of `parse_items`.
proof fn lemma_items_step(s: Seq<u8>, p: nat, k: nat, acc: Seq<ValueModel>)
    requires
        k >= 1,
    ensures
        parse_items(s, p, k, acc) == if p >= s.len() {
            Parsed::<Seq<ValueModel>>::Fail(DecodeFail::Malformed)
        } else {
            match tag_from_code(s[p as int]) {
                None => Parsed::Fail(DecodeFail::UnknownTag(s[p as int])),
                Some(t) => match parse_value(t, s, p + 1) {
                    Parsed::Done(v, c) => shift(
                        parse_items(s, p + 1 + c, (k - 1) as nat, acc.push(v)),
                        1 + c,
                    ),
                    Parsed::Fail(f) => Parsed::Fail(f),
                },
            }
        },
{
}

/// One step of `parse_fields`.
proof fn lemma_fields_step(s: Seq<u8>, p: nat, k: nat, acc: Seq<(Seq<char>, ValueModel)>)
    requires
        k >= 1,
    ensures
        parse_fields(s, p, k, acc) == match parse_field(s, p) {
            Parsed::Done(f, c) => shift(
                parse_fields(s, p + c, (k - 1) as nat, model_insert(acc, f.0, f.1)),
                c,
            ),
            Parsed::Fail(e) => Parsed::<Seq<(Seq<char>, ValueModel)>>::Fail(e),
        },
{
}

/// Decode `count` array items (each a tag and a value) starting at `pos`,
/// returning them and the number of bytes read.
pub fn decode_items(buf: &[u8], pos: usize, count: u64) -> (r: OvnResult<(Vec<ObeValue>, usize)>)
    requires
        pos <= buf@.len(),
    ensures
        items_decoded(parse_items(buf@, pos as nat, count as nat, Seq::empty()), r),
        r matches Ok((v, n)) ==> pos + n <= buf@.len(),
    decreases buf@.len() - pos, 1nat,
{
    let len = buf.len();
    let ghost s = buf@;
    let mut arr: Vec<ObeValue> = Vec::new();
    let mut q: usize = pos;
    let mut i: u64 = 0;
    proof {
        lemma_items_model(arr@);
        assert(items_model(arr@) =~= Seq::<ValueModel>::empty());
    }
    while i < count
        invariant
            pos <= q <= s.len(),
            s == buf@,
            len == s.len(),
            i <= count,
            parse_items(s, pos as nat, count as nat, Seq::empty()) == shift(
                parse_items(s, q as nat, (count - i) as nat, items_model(arr@)),
                (q - pos) as nat,
            ),
        decreases count - i,
    {
        proof {
            lemma_items_step(s, q as nat, (count - i) as nat, items_model(arr@));
        }
        if q >= len {
            return Err(malformed("Array truncated"));
        }
        let t = match TypeTag::from_byte(buf[q]) {
            Ok(t) => t,
            Err(e) => return Err(e),
        };
        let (v, c) = match decode_value(t, buf, q + 1) {
            Ok(x) => x,
            Err(e) => return Err(e),
        };
        proof {
            lemma_items_model(arr@.push(v));
            lemma_items_model(arr@);
            assert(items_model(arr@.push(v)) =~= items_model(arr@).push(value_model(v)));
            lemma_shift_shift(
                parse_items(s, (q + 1 + c) as nat, (count - i - 1) as nat, items_model(arr@.push(v))),
                (1 + c) as nat,
                (q - pos) as nat,
            );
        }
        arr.push(v);
        q = q + 1 + c;
        i = i + 1;
    }
    Ok((arr, q - pos))
}

/// Decode a field count at `pos` and that many fields into an ordered map,
/// returning it and the number of bytes read.
pub fn decode_map(buf: &[u8], pos: usize) -> (r: OvnResult<(FieldMap<ObeValue>, usize)>)
    requires
        pos <= buf@.len(),
    ensures
        map_decoded(parse_map(buf@, pos as nat), r),
        r matches Ok((m, n)) ==> pos + n <= buf@.len(),
    decreases buf@.len() - pos, 2nat,
{
    let rest = vstd::slice::slice_subrange(buf, pos, buf.len());
    assert(rest@ == tail(buf@, pos as nat));
    let (count, vl) = match decode_varint(rest) {
        Ok(x) => x,
        Err(e) => return Err(e),
    };
    match decode_fields(buf, pos + vl, count) {
        Ok((m, c)) => Ok((m, vl + c)),
        Err(e) => Err(e),
    }
}

/// Decode `count` fields starting at `pos` into an ordered map (a later
/// field replaces an earlier one of the same name), returning it and the
/// number of bytes read.
pub fn decode_fields(buf: &[u8], pos: usize, count: u64) -> (r: OvnResult<(FieldMap<ObeValue>, usize)>)
    requires
        pos <= buf@.len(),
    ensures
        fields_decoded(parse_fields(buf@, pos as nat, count as nat, Seq::empty()), r),
        r matches Ok((m, n)) ==> pos + n <= buf@.len(),
    decreases buf@.len() - pos, 1nat,
{
    let len = buf.len();
    let ghost s = buf@;
    let mut map: FieldMap<ObeValue> = FieldMap::new();
    let mut q: usize = pos;
    let mut i: u64 = 0;
    proof {
        lemma_fields_model(map.entries@);
        assert(fields_model(map.entries@) =~= Seq::<(Seq<char>, ValueModel)>::empty());
    }
    while i < count
        invariant
            pos <= q <= s.len(),
            s == buf@,
            len == s.len(),
            i <= count,
            parse_fields(s, pos as nat, count as nat, Seq::empty()) == shift(
                parse_fields(s, q as nat, (count - i) as nat, fields_model(map.entries@)),
                (q - pos) as nat,
            ),
        decreases count - i,
    {
        proof {
            lemma_fields_step(s, q as nat, (count - i) as nat, fields_model(map.entries@));
        }
        let (name, v, c) = match decode_field(buf, q) {
            Ok(x) => x,
            Err(e) => return Err(e),
        };
        proof {
            lemma_insert_model(map.entries@, name, v);
            lemma_shift_shift(
                parse_fields(
                    s,
                    (q + c) as nat,
                    (count - i - 1) as nat,
                    model_insert(fields_model(map.entries@), name@, value_model(v)),
                ),
                c as nat,
                (q - pos) as nat,
            );
        }
        map.insert(name, v);
        q = q + c;
        i = i + 1;
    }
    Ok((map, q - pos))
}

/// Decode one field at `pos`: its name, its value, and the bytes it spans.
pub fn decode_field(buf: &[u8], pos: usize) -> (r: OvnResult<(String, ObeValue, usize)>)
    requires
        pos <= buf@.len(),
    ensures
        field_decoded(parse_field(buf@, pos as nat), r),
        r matches Ok((k, v, n)) ==> pos + n <= buf@.len(),
    decreases buf@.len() - pos, 0nat,
{
    let len = buf.len();
    let (bytes, c) = match decode_prefixed(buf, pos, "Field name truncated") {
        Ok(x) => x,
        Err(e) => return Err(e),
    };
    let name = match string_from_utf8(bytes) {
        Ok(s) => s,
        Err(msg) => return Err(
            OvnError::EncodingError(concat_str("Invalid UTF-8 field name: ".to_string(), msg.as_str())),
        ),
    };
    let q = pos + c;
    if q >= len {
        return Err(malformed("Missing type tag"));
    }
    let tag = match TypeTag::from_byte(buf[q]) {
        Ok(t) => t,
        Err(e) => return Err(e),
    };
    match decode_value(tag, buf, q + 1) {
        Ok((v, c2)) => Ok((name, v, c + 1 + c2)),
        Err(e) => Err(e),
    }
}

// ── Decoding an encoding ──────────────────────────────────────────────────

/// A model every encoding of which decodes back to it: lengths fit the
/// 64-bit varints, fixed-width byte strings have their width, and every
/// document's keys ascend strictly (as an ordered map keeps them).
pub open spec fn value_wf(m: ValueModel) -> bool
    decreases m,
{
    match m {
        ValueModel::Str(cs) => key_bytes(cs).len() <= u64::MAX,
        ValueModel::Binary(b) => b.len() <= u64::MAX,
        ValueModel::Document(fs) => fields_wf(fs),
        ValueModel::Array(a) => a.len() <= u64::MAX && items_wf(a),
        ValueModel::ObjectId(o) => o.len() == 12,
        ValueModel::Decimal128(d) => d.len() == 16,
        _ => true,
    }
}

/// Well-formed fields: at most `u64::MAX` of them, keys strictly ascending
/// and no longer than `u64::MAX` bytes, values well-formed.
pub open spec fn fields_wf(fs: Seq<(Seq<char>, ValueModel)>) -> bool
    decreases fs,
{
    &&& fs.len() <= u64::MAX
    &&& model_keys_sorted(fs)
    &&& forall|i: int| 0 <= i < fs.len() ==> key_bytes(#[trigger] fs[i].0).len() <= u64::MAX
    &&& forall|i: int| 0 <= i < fs.len() ==> value_wf(#[trigger] fs[i].1)
}

/// Well-formed array items.
pub open spec fn items_wf(a: Seq<ValueModel>) -> bool
    decreases a,
{
    forall|i: int| 0 <= i < a.len() ==> value_wf(#[trigger] a[i])
}

/// `x` occurs in `s` at position `p`.
pub open spec fn occurs_at(s: Seq<u8>, p: nat, x: Seq<u8>) -> bool {
    p + x.len() <= s.len() && s.subrange(p as int, (p + x.len()) as int) == x
}

/// Where `x + y` occurs, `x` occurs and `y` follows it.
proof fn lemma_occurs_split(s: Seq<u8>, p: nat, x: Seq<u8>, y: Seq<u8>)
    requires
        occurs_at(s, p, x + y),
    ensures
        occurs_at(s, p, x),
        occurs_at(s, p + x.len(), y),
{
    let w = s.subrange(p as int, (p + (x + y).len()) as int);
    assert(w == x + y);
    assert(s.subrange(p as int, (p + x.len()) as int) =~= w.subrange(0, x.len() as int));
    assert(w.subrange(0, x.len() as int) =~= x);
    assert(s.subrange((p + x.len()) as int, (p + x.len() + y.len()) as int) =~= w.subrange(
        x.len() as int,
        w.len() as int,
    ));
    assert(w.subrange(x.len() as int, w.len() as int) =~= y);
}

/// A length-prefixed byte string decodes to its bytes.
proof fn lemma_prefixed_roundtrip(b: Seq<u8>, s: Seq<u8>, p: nat)
    requires
        b.len() <= u64::MAX,
        occurs_at(s, p, prefixed(b)),
    ensures
        parse_prefixed(s, p) == Parsed::Done(b, prefixed(b).len()),
{
    let n = b.len() as u64;
    let vb = varint_bytes(n);
    lemma_occurs_split(s, p, vb, b);
    let after = s.subrange((p + vb.len()) as int, s.len() as int);
    assert(tail(s, p) =~= vb + after);
    lemma_varint_roundtrip(n, after);
}

/// UTF-8 text decodes to its characters.
proof fn lemma_text_roundtrip(cs: Seq<char>, s: Seq<u8>, p: nat)
    requires
        key_bytes(cs).len() <= u64::MAX,
        occurs_at(s, p, prefixed(key_bytes(cs))),
    ensures
        parse_text(s, p) == Parsed::Done(cs, prefixed(key_bytes(cs)).len()),
{
    broadcast use vstd::utf8::encode_utf8_valid_utf8, vstd::utf8::encode_utf8_decode_utf8;

    lemma_prefixed_roundtrip(key_bytes(cs), s, p);
}

/// An insertion of a key above all present keys appends.
proof fn lemma_model_insert_last(
    acc: Seq<(Seq<char>, ValueModel)>,
    k: Seq<char>,
    v: ValueModel,
    i: nat,
)
    requires
        i <= acc.len(),
        forall|j: int| 0 <= j < acc.len() ==> bytes_lt(key_bytes(#[trigger] acc[j].0), key_bytes(k)),
    ensures
        model_lower_bound(acc, key_bytes(k), i) == acc.len(),
        i == 0 ==> model_insert(acc, k, v) == acc.push((k, v)),
    decreases acc.len() - i,
{
    if i < acc.len() {
        lemma_model_insert_last(acc, k, v, i + 1);
    }
    if i == 0 {
        assert(acc.insert(acc.len() as int, (k, v)) =~= acc.push((k, v)));
    }
}

/// Decoding the encoding of a well-formed value, wherever it occurs, gives
/// the value and the length of its encoding.
pub proof fn lemma_value_roundtrip(m: ValueModel, s: Seq<u8>, p: nat)
    requires
        value_wf(m),
        occurs_at(s, p, value_bytes(m)),
    ensures
        parse_value(model_tag(m), s, p) == Parsed::Done(m, value_bytes(m).len()),
    decreases m,
{
    let vb = value_bytes(m);
    match m {
        ValueModel::Null => {},
        ValueModel::Bool(b) => {},
        ValueModel::Int32(x) => {
            lemma_u32_at(s, p as int, x as u32);
            assert((x as u32) as i32 == x) by (bit_vector);
        },
        ValueModel::Int64(x) => {
            lemma_u64_at(s, p as int, x as u64);
            assert((x as u64) as i64 == x) by (bit_vector);
        },
        ValueModel::Float64(x) => {
            lemma_u64_at(s, p as int, x);
        },
        ValueModel::Timestamp(x) => {
            lemma_u64_at(s, p as int, x);
        },
        ValueModel::Str(cs) => {
            lemma_text_roundtrip(cs, s, p);
        },
        ValueModel::Binary(b) => {
            lemma_prefixed_roundtrip(b, s, p);
        },
        ValueModel::ObjectId(o) => {},
        ValueModel::Decimal128(d) => {},
        ValueModel::Document(fs) => {
            let n = fs.len() as u64;
            let cb = varint_bytes(n);
            lemma_occurs_split(s, p, cb, fields_bytes(fs));
            let after = s.subrange((p + cb.len()) as int, s.len() as int);
            assert(tail(s, p) =~= cb + after);
            lemma_varint_roundtrip(n, after);
            lemma_fields_roundtrip(fs, s, p + cb.len(), Seq::empty());
            assert(Seq::<(Seq<char>, ValueModel)>::empty() + fs =~= fs);
        },
        ValueModel::Array(a) => {
            let n = a.len() as u64;
            let cb = varint_bytes(n);
            lemma_occurs_split(s, p, cb, items_bytes(a));
            let after = s.subrange((p + cb.len()) as int, s.len() as int);
            assert(tail(s, p) =~= cb + after);
            lemma_varint_roundtrip(n, after);
            lemma_varint_scan_bounds(tail(s, p), 0, 0);
            lemma_items_roundtrip(a, s, p + cb.len(), Seq::empty());
            assert(Seq::<ValueModel>::empty() + a =~= a);
        },
    }
}

/// Decoding the encoding of well-formed fields, all keyed above the keys
/// already gathered, appends them in order.
pub proof fn lemma_fields_roundtrip(
    fs: Seq<(Seq<char>, ValueModel)>,
    s: Seq<u8>,
    p: nat,
    acc: Seq<(Seq<char>, ValueModel)>,
)
    requires
        fields_wf(fs),
        forall|i: int, j: int|
            0 <= i < acc.len() && 0 <= j < fs.len() ==> bytes_lt(
                key_bytes(#[trigger] acc[i].0),
                key_bytes(#[trigger] fs[j].0),
            ),
        occurs_at(s, p, fields_bytes(fs)),
    ensures
        parse_fields(s, p, fs.len(), acc) == Parsed::Done(acc + fs, fields_bytes(fs).len()),
    decreases fs,
{
    if fs.len() == 0 {
        assert(acc + fs =~= acc);
    } else {
        let k0 = fs[0].0;
        let v0 = fs[0].1;
        let t = model_tag(v0);
        let nb = prefixed(key_bytes(k0));
        let rest = fs.drop_first();
        lemma_occurs_split(s, p, nb + seq![tag_code(t)] + value_bytes(v0), fields_bytes(rest));
        lemma_occurs_split(s, p, nb + seq![tag_code(t)], value_bytes(v0));
        lemma_occurs_split(s, p, nb, seq![tag_code(t)]);
        lemma_text_roundtrip(k0, s, p);
        let q = p + nb.len();
        assert(s[q as int] == s.subrange(q as int, (q + 1) as int)[0]);
        lemma_tag_roundtrip(t);
        lemma_value_roundtrip(v0, s, q + 1);
        let c = nb.len() + 1 + value_bytes(v0).len();
        assert(parse_field(s, p) == Parsed::Done((k0, v0), c));
        assert forall|j: int| 0 <= j < acc.len() implies bytes_lt(
            key_bytes(#[trigger] acc[j].0),
            key_bytes(k0),
        ) by {
            assert(bytes_lt(key_bytes(acc[j].0), key_bytes(fs[0].0)));
        }
        lemma_model_insert_last(acc, k0, v0, 0);
        let acc2 = acc.push((k0, v0));
        assert forall|i: int, j: int| 0 <= i < acc2.len() && 0 <= j < rest.len() implies bytes_lt(
            key_bytes(#[trigger] acc2[i].0),
            key_bytes(#[trigger] rest[j].0),
        ) by {
            assert(rest[j] == fs[j + 1]);
            if i < acc.len() {
                assert(acc2[i] == acc[i]);
            } else {
                assert(bytes_lt(key_bytes(fs[0].0), key_bytes(fs[j + 1].0)));
            }
        }
        assert(fields_wf(rest)) by {
            assert forall|i: int, j: int| 0 <= i < j < rest.len() implies bytes_lt(
                key_bytes(#[trigger] rest[i].0),
                key_bytes(#[trigger] rest[j].0),
            ) by {
                assert(rest[i] == fs[i + 1] && rest[j] == fs[j + 1]);
            }
            assert forall|i: int| 0 <= i < rest.len() implies key_bytes(#[trigger] rest[i].0).len()
                <= u64::MAX && value_wf(rest[i].1) by {
                assert(rest[i] == fs[i + 1]);
            }
        }
        lemma_fields_roundtrip(rest, s, p + c, acc2);
        assert(acc2 + rest =~= acc + fs);
    }
}

/// Decoding the encoding of well-formed array items appends them in order.
pub proof fn lemma_items_roundtrip(a: Seq<ValueModel>, s: Seq<u8>, p: nat, acc: Seq<ValueModel>)
    requires
        items_wf(a),
        occurs_at(s, p, items_bytes(a)),
    ensures
        parse_items(s, p, a.len(), acc) == Parsed::Done(acc + a, items_bytes(a).len()),
    decreases a,
{
    if a.len() == 0 {
        assert(acc + a =~= acc);
    } else {
        let v0 = a[0];
        let t = model_tag(v0);
        let rest = a.drop_first();
        lemma_occurs_split(s, p, seq![tag_code(t)] + value_bytes(v0), items_bytes(rest));
        lemma_occurs_split(s, p, seq![tag_code(t)], value_bytes(v0));
        assert(s[p as int] == s.subrange(p as int, (p + 1) as int)[0]);
        lemma_tag_roundtrip(t);
        lemma_value_roundtrip(v0, s, p + 1);
        let c = 1 + value_bytes(v0).len();
        assert(items_wf(rest)) by {
            assert forall|i: int| 0 <= i < rest.len() implies value_wf(#[trigger] rest[i]) by {
                assert(rest[i] == a[i + 1]);
            }
        }
        lemma_items_roundtrip(rest, s, p + c, acc.push(v0));
        assert(acc.push(v0) + rest =~= acc + a);
    }
}

} // verus!
