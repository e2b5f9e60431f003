//! Secondary-index specifications and the order-preserving byte encoding of
//! indexed values.

use vstd::prelude::*;

use crate::codec::{concat_str, push_slice};
use crate::text::{decimal_i32, decimal_int};
use crate::format::obe::value::{bytes_lt, key_bytes, ObeValue};

verus! {

/// Which fields an index covers and how.
#[derive(Debug, Clone)]
pub struct IndexSpec {
    /// Index name.
    pub name: String,
    /// Collection the index belongs to.
    pub collection: String,
    /// Fields and their sort order (1 ascending, -1 descending).
    pub fields: Vec<(String, i32)>,
    /// Whether the index is unique.
    pub unique: bool,
    /// Whether it is a text index.
    pub text: bool,
    /// Whether it is hidden from the query planner.
    pub hidden: bool,
}

// ── Index names ───────────────────────────────────────────────────────────

/// `field_direction` for one indexed field.
pub open spec fn field_label(f: (String, i32)) -> Seq<char> {
    f.0@ + "_"@ + decimal_int(f.1 as int)
}

/// The labels of `s` joined with `_`.
pub open spec fn joined_labels(s: Seq<(String, i32)>) -> Seq<char>
    decreases s.len(),
{
    if s.len() == 0 {
        Seq::empty()
    } else if s.len() == 1 {
        field_label(s[0])
    } else {
        joined_labels(s.drop_last()) + "_"@ + field_label(s.last())
    }
}

impl IndexSpec {
    /// The default index name: each field as `<field>_<direction>`, joined
    /// with `_` (`age_1`, `a_1_b_-1`).
    pub fn default_name(fields: &[(String, i32)]) -> (s: String)
        ensures
            s@ == joined_labels(fields@),
    {
        let mut s = String::new();
        let mut i: usize = 0;
        while i < fields.len()
            invariant
                i <= fields@.len(),
                s@ == joined_labels(fields@.take(i as int)),
            decreases fields@.len() - i,
        {
            let label = concat_str(fields[i].0.clone(), "_");
            let label = concat_str(label, decimal_i32(fields[i].1).as_str());
            if i > 0 {
                s = concat_str(s, "_");
            }
            s = concat_str(s, label.as_str());
            proof {
                let t = fields@.take(i + 1);
                assert(t.drop_last() =~= fields@.take(i as int));
                assert(t.last() == fields@[i as int]);
                if i == 0 {
                    assert(s@ =~= field_label(fields@[0]));
                } else {
                    assert(s@ =~= joined_labels(fields@.take(i as int)) + "_"@ + field_label(fields@[i as int]));
                }
            }
            i = i + 1;
        }
        assert(fields@.take(i as int) =~= fields@);
        s
    }

    /// Whether the index covers more than one field.
    pub fn is_compound(&self) -> (b: bool)
        ensures
            b == (self.fields@.len() > 1),
    {
        self.fields.len() > 1
    }
}

// ── Order-preserving value keys ───────────────────────────────────────────

/// `256^n`.
pub open spec fn pow256(n: nat) -> nat
    decreases n,
{
    if n == 0 {
        1
    } else {
        256 * pow256((n - 1) as nat)
    }
}

/// The `n` low bytes of `x`, most significant first (big-endian).
pub open spec fn be_bytes(x: nat, n: nat) -> Seq<u8>
    decreases n,
{
    if n == 0 {
        Seq::empty()
    } else {
        be_bytes(x / 256, (n - 1) as nat).push((x % 256) as u8)
    }
}

/// An `i32` shifted into the unsigned range: the sign bit flipped.
pub open spec fn int32_key(a: i32) -> nat {
    (a + 0x8000_0000) as nat
}

/// An `i64` shifted into the unsigned range: the sign bit flipped.
pub open spec fn int64_key(a: i64) -> nat {
    (a + 0x8000_0000_0000_0000) as nat
}

/// The bits of a float made to sort as the float does: negative values
/// (sign bit set) have all bits flipped, the others only the sign bit.
pub open spec fn float_key(bits: u64) -> nat {
    if bits >= 0x8000_0000_0000_0000 {
        (0xFFFF_FFFF_FFFF_FFFF - bits) as nat
    } else {
        (bits + 0x8000_0000_0000_0000) as nat
    }
}

/// The index key of a value: a type byte, then a body that sorts as the
/// value does for integers, timestamps and floats; strings by their UTF-8
/// bytes, object ids by their bytes. Documents, arrays, binaries and
/// decimals are keyed by `0xFF` and the value's JSON text `json`.
pub open spec fn value_key(v: ObeValue, json: Seq<char>) -> Seq<u8> {
    match v {
        ObeValue::Null => seq![0x00u8],
        ObeValue::Bool(b) => seq![0x01u8, if b { 1u8 } else { 0u8 }],
        ObeValue::Int32(a) => seq![0x02u8] + be_bytes(int32_key(a), 4),
        ObeValue::Int64(a) => seq![0x03u8] + be_bytes(int64_key(a), 8),
        ObeValue::Float64(bits) => seq![0x04u8] + be_bytes(float_key(bits), 8),
        ObeValue::String(s) => seq![0x05u8] + key_bytes(s@),
        ObeValue::Timestamp(t) => seq![0x06u8] + be_bytes(t as nat, 8),
        ObeValue::ObjectId(o) => seq![0x07u8] + o@,
        _ => seq![0xFFu8] + key_bytes(json),
    }
}

/// Append the `n` low bytes of `x`, most significant first.
fn push_be(buf: &mut Vec<u8>, x: u64, n: usize)
    ensures
        final(buf)@ == old(buf)@ + be_bytes(x as nat, n as nat),
    decreases n,
{
    if n > 0 {
        push_be(buf, x / 256, n - 1);
        buf.push((x % 256) as u8);
        assert(buf@ =~= old(buf)@ + be_bytes(x as nat, n as nat));
    } else {
        assert(buf@ =~= old(buf)@ + be_bytes(x as nat, n as nat));
    }
}

/// The sortable index key of a value (see `value_key`). `json_text` is the
/// value's JSON text; it is read only for documents, arrays, binaries and
/// decimals.
pub fn value_to_bytes(value: &ObeValue, json_text: &str) -> (r: Vec<u8>)
    ensures
        r@ == value_key(*value, json_text@),
{
    let mut buf: Vec<u8> = Vec::new();
    match value {
        ObeValue::Null => {
            buf.push(0x00);
        },
        ObeValue::Bool(b) => {
            buf.push(0x01);
            buf.push(if *b { 1u8 } else { 0u8 });
        },
        ObeValue::Int32(a) => {
            buf.push(0x02);
            let x: u64 = (*a as i64 + 0x8000_0000) as u64;
            push_be(&mut buf, x, 4);
        },
        ObeValue::Int64(a) => {
            buf.push(0x03);
            let x: u64 = (*a as i128 + 0x8000_0000_0000_0000) as u64;
            push_be(&mut buf, x, 8);
        },
        ObeValue::Float64(bits) => {
            buf.push(0x04);
            let x: u64 = if *bits >= 0x8000_0000_0000_0000 {
                0xFFFF_FFFF_FFFF_FFFF - *bits
            } else {
                *bits + 0x8000_0000_0000_0000
            };
            push_be(&mut buf, x, 8);
        },
        ObeValue::String(s) => {
            buf.push(0x05);
            let b = s.as_str().as_bytes();
            assert(b@ == key_bytes(s@));
            push_slice(&mut buf, b);
        },
        ObeValue::Timestamp(t) => {
            buf.push(0x06);
            push_be(&mut buf, *t, 8);
        },
        ObeValue::ObjectId(o) => {
            buf.push(0x07);
            push_slice(&mut buf, o.as_slice());
        },
        _ => {
            buf.push(0xFF);
            let b = json_text.as_bytes();
            assert(b@ == key_bytes(json_text@));
            push_slice(&mut buf, b);
        },
    }
    assert(buf@ =~= value_key(*value, json_text@));
    buf
}

// ── Order laws ────────────────────────────────────────────────────────────

/// A big-endian encoding has `n` bytes.
pub proof fn lemma_be_len(x: nat, n: nat)
    ensures
        be_bytes(x, n).len() == n,
    decreases n,
{
    if n > 0 {
        lemma_be_len(x / 256, (n - 1) as nat);
    }
}

/// Appending a byte to each of two ordered strings of one length keeps
/// their order.
proof fn lemma_lt_push(a: Seq<u8>, b: Seq<u8>, c: u8, d: u8)
    requires
        a.len() == b.len(),
        bytes_lt(a, b),
    ensures
        bytes_lt(a.push(c), b.push(d)),
    decreases a.len(),
{
    if a.len() > 0 && a[0] == b[0] {
        assert(a.push(c).drop_first() =~= a.drop_first().push(c));
        assert(b.push(d).drop_first() =~= b.drop_first().push(d));
        lemma_lt_push(a.drop_first(), b.drop_first(), c, d);
    }
}

/// Two strings that differ only in a smaller last byte are ordered.
proof fn lemma_push_lt(a: Seq<u8>, c: u8, d: u8)
    requires
        c < d,
    ensures
        bytes_lt(a.push(c), a.push(d)),
    decreases a.len(),
{
    if a.len() > 0 {
        assert(a.push(c).drop_first() =~= a.drop_first().push(c));
        assert(a.push(d).drop_first() =~= a.drop_first().push(d));
        lemma_push_lt(a.drop_first(), c, d);
    }
}

/// Big-endian encodings of one width sort as the numbers do.
pub proof fn lemma_be_order(x: nat, y: nat, n: nat)
    requires
        x < y,
        y < pow256(n),
    ensures
        bytes_lt(be_bytes(x, n), be_bytes(y, n)),
    decreases n,
{
    let m = (n - 1) as nat;
    assert(y / 256 < pow256(m)) by (nonlinear_arith)
        requires
            y < 256 * pow256(m),
    ;
    assert(x / 256 <= y / 256) by (nonlinear_arith)
        requires
            x < y,
    ;
    lemma_be_len(x / 256, m);
    lemma_be_len(y / 256, m);
    if x / 256 < y / 256 {
        lemma_be_order(x / 256, y / 256, m);
        lemma_lt_push(be_bytes(x / 256, m), be_bytes(y / 256, m), (x % 256) as u8, (y % 256) as u8);
    } else {
        assert(x % 256 < y % 256) by (nonlinear_arith)
            requires
                x < y,
                x / 256 == y / 256,
        ;
        lemma_push_lt(be_bytes(x / 256, m), (x % 256) as u8, (y % 256) as u8);
    }
}

/// Keys sharing their first byte sort as their bodies do.
proof fn lemma_tag_prefix(t: u8, s: Seq<u8>, u: Seq<u8>)
    requires
        bytes_lt(s, u),
    ensures
        bytes_lt(seq![t] + s, seq![t] + u),
{
    assert((seq![t] + s).drop_first() =~= s);
    assert((seq![t] + u).drop_first() =~= u);
}

/// Index keys of `Int32`, `Int64` and `Timestamp` values sort as the values
/// do, whatever JSON text accompanies them.
pub proof fn lemma_integer_keys_ordered(a: i64, b: i64, t: u64, u: u64, j1: Seq<char>, j2: Seq<char>)
    ensures
        a < b && i32::MIN <= a && b <= i32::MAX ==> bytes_lt(
            value_key(ObeValue::Int32(a as i32), j1),
            value_key(ObeValue::Int32(b as i32), j2),
        ),
        a < b ==> bytes_lt(value_key(ObeValue::Int64(a), j1), value_key(ObeValue::Int64(b), j2)),
        t < u ==> bytes_lt(value_key(ObeValue::Timestamp(t), j1), value_key(ObeValue::Timestamp(u), j2)),
{
    assert(pow256(4) == 0x1_0000_0000 && pow256(8) == 0x1_0000_0000_0000_0000) by {
        reveal_with_fuel(pow256, 9);
    }
    if a < b && i32::MIN <= a && b <= i32::MAX {
        lemma_be_order(int32_key(a as i32), int32_key(b as i32), 4);
        lemma_tag_prefix(0x02, be_bytes(int32_key(a as i32), 4), be_bytes(int32_key(b as i32), 4));
    }
    if a < b {
        lemma_be_order(int64_key(a), int64_key(b), 8);
        lemma_tag_prefix(0x03, be_bytes(int64_key(a), 8), be_bytes(int64_key(b), 8));
    }
    if t < u {
        lemma_be_order(t as nat, u as nat, 8);
        lemma_tag_prefix(0x06, be_bytes(t as nat, 8), be_bytes(u as nat, 8));
    }
}

/// Keys of values of different kinds sort by kind: null, booleans, 32-bit
/// integers, 64-bit integers, floats, strings, timestamps, object ids, and
/// last the values keyed by their JSON text.
pub proof fn lemma_kind_order(v: ObeValue, w: ObeValue, j1: Seq<char>, j2: Seq<char>)
    requires
        value_key(v, j1)[0] < value_key(w, j2)[0],
    ensures
        bytes_lt(value_key(v, j1), value_key(w, j2)),
{
}

} // verus!
