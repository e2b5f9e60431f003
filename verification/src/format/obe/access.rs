//! Reading OBE values: typed accessors and dot-notation paths
//! (`"address.city"`, `"tags.0"`).

use vstd::prelude::*;

use crate::format::obe::codec::{model_tag, value_tag};
use crate::format::obe::document::ObeDocument;
use crate::format::obe::value::{
    bytes_lt, fields_model, find_key, items_model, key_bytes, keys_sorted, lemma_fields_model,
    lemma_find_key, lemma_items_model, value_model, FieldMap, ObeValue,
};
use crate::format::obe::TypeTag;

verus! {

/// The byte `.`, which separates path segments.
pub const PATH_SEPARATOR: u8 = 0x2E;

/// Index of the first `.` in `b` at or after `i`, if any.
pub open spec fn dot_from(b: Seq<u8>, i: nat) -> Option<nat>
    decreases b.len() - i,
{
    if i >= b.len() {
        None
    } else if b[i as int] == PATH_SEPARATOR {
        Some(i)
    } else {
        dot_from(b, i + 1)
    }
}

/// The segments of `b` between dots, as `str::split('.')` yields them: one
/// more than there are dots, empty ones included.
pub open spec fn split_dots(b: Seq<u8>) -> Seq<Seq<u8>>
    decreases b.len(),
{
    match dot_from(b, 0) {
        None => seq![b],
        Some(i) => {
            proof {
                lemma_dot_from(b, 0);
            }
            seq![b.subrange(0, i as int)] + split_dots(b.subrange((i + 1) as int, b.len() as int))
        },
    }
}

/// `dot_from` finds the first dot.
pub proof fn lemma_dot_from(b: Seq<u8>, i: nat)
    ensures
        match dot_from(b, i) {
            Some(j) => i <= j < b.len() && b[j as int] == PATH_SEPARATOR && forall|m: int|
                i <= m < j ==> b[m] != PATH_SEPARATOR,
            None => forall|m: int| i <= m < b.len() ==> b[m] != PATH_SEPARATOR,
        },
    decreases b.len() - i,
{
    if i < b.len() && b[i as int] != PATH_SEPARATOR {
        lemma_dot_from(b, i + 1);
    }
}

/// Whether a byte is an ASCII decimal digit.
pub open spec fn is_digit(c: u8) -> bool {
    0x30 <= c <= 0x39
}

/// The number a run of decimal digits spells.
pub open spec fn digits_value(d: Seq<u8>) -> nat
    decreases d.len(),
{
    if d.len() == 0 {
        0
    } else {
        digits_value(d.drop_last()) * 10 + (d.last() - 0x30) as nat
    }
}

/// The digits of a path segment: the segment without one leading `+`.
pub open spec fn segment_digits(seg: Seq<u8>) -> Seq<u8> {
    if seg.len() > 0 && seg[0] == 0x2B {
        seg.drop_first()
    } else {
        seg
    }
}

/// Every byte is a decimal digit.
pub open spec fn all_digits(d: Seq<u8>) -> bool {
    forall|i: int| 0 <= i < d.len() ==> is_digit(#[trigger] d[i])
}

/// The `usize` a path segment spells, as `str::parse::<usize>` reads it:
/// an optional `+`, then one or more decimal digits, with a value that fits.
pub open spec fn segment_index(seg: Seq<u8>) -> Option<usize> {
    let d = segment_digits(seg);
    if d.len() == 0 || !all_digits(d) || digits_value(d) > usize::MAX {
        None
    } else {
        Some(digits_value(d) as usize)
    }
}

/// The child of `v` that one path segment names: a field of a document, or
/// an element of an array by index.
pub open spec fn path_step(v: ObeValue, seg: Seq<u8>) -> Option<ObeValue> {
    match v {
        ObeValue::Document(m) => match find_key(m.entries@, seg, 0) {
            Some(i) => Some(m.entries@[i as int].1),
            None => None,
        },
        ObeValue::Array(a) => match segment_index(seg) {
            Some(i) => if i < a@.len() {
                Some(a@[i as int])
            } else {
                None
            },
            None => None,
        },
        _ => None,
    }
}

/// The value reached from `v` by following the segments in turn.
pub open spec fn path_target(v: ObeValue, segs: Seq<Seq<u8>>) -> Option<ObeValue>
    decreases segs.len(),
{
    if segs.len() == 0 {
        Some(v)
    } else {
        match path_step(v, segs[0]) {
            Some(c) => path_target(c, segs.drop_first()),
            None => None,
        }
    }
}

/// Parse a path segment as an index, as `str::parse::<usize>` does.
pub fn parse_segment_index(seg: &[u8]) -> (r: Option<usize>)
    ensures
        r == segment_index(seg@),
{
    let mut i: usize = 0;
    if seg.len() > 0 && seg[0] == 0x2B {
        i = 1;
    }
    let ghost d = segment_digits(seg@);
    let start = i;
    if start == seg.len() {
        return None;
    }
    let mut value: usize = 0;
    while i < seg.len()
        invariant
            start <= i <= seg@.len(),
            start < seg@.len(),
            d == seg@.subrange(start as int, seg@.len() as int),
            d == segment_digits(seg@),
            forall|m: int| start <= m < i ==> is_digit(#[trigger] seg@[m]),
            value == digits_value(seg@.subrange(start as int, i as int)),
        decreases seg@.len() - i,
    {
        let c = seg[i];
        if c < 0x30 || c > 0x39 {
            proof {
                let k = i - start;
                assert(d[k] == seg@[i as int]);
                assert(0 <= k < d.len() && !is_digit(d[k]));
            }
            return None;
        }
        let digit = (c - 0x30) as usize;
        proof {
            assert(seg@.subrange(start as int, i + 1).drop_last() =~= seg@.subrange(start as int, i as int));
        }
        let ghost pre = seg@.subrange(start as int, i + 1);
        proof {
            assert(pre =~= d.subrange(0, (i + 1 - start) as int));
            assert(digits_value(pre) == value * 10 + digit);
        }
        match value.checked_mul(10) {
            None => {
                proof {
                    assert(value * 10 > usize::MAX);
                    assert(digits_value(d.subrange(0, (i + 1 - start) as int)) > usize::MAX);
                    lemma_overflow_none(d, (i + 1 - start) as nat);
                }
                return None;
            },
            Some(v10) => match v10.checked_add(digit) {
                None => {
                    proof {
                        assert(v10 + digit > usize::MAX);
                        assert(digits_value(d.subrange(0, (i + 1 - start) as int)) > usize::MAX);
                        lemma_overflow_none(d, (i + 1 - start) as nat);
                    }
                    return None;
                },
                Some(v) => {
                    value = v;
                },
            },
        }
        i = i + 1;
    }
    assert(seg@.subrange(start as int, i as int) =~= d);
    assert forall|m: int| 0 <= m < d.len() implies is_digit(#[trigger] d[m]) by {
        assert(d[m] == seg@[m + start]);
    }
    assert(all_digits(d));
    Some(value)
}

/// A longer run of digits spells at least as large a number.
proof fn lemma_digits_prefix_le(d: Seq<u8>, n: nat)
    requires
        n <= d.len(),
        forall|m: int| 0 <= m < d.len() ==> is_digit(#[trigger] d[m]),
    ensures
        digits_value(d.subrange(0, n as int)) <= digits_value(d),
    decreases d.len() - n,
{
    if n < d.len() {
        lemma_digits_prefix_le(d, n + 1);
        let t = d.subrange(0, (n + 1) as int);
        assert(t.drop_last() =~= d.subrange(0, n as int));
        assert(is_digit(d[n as int]));
    } else {
        assert(d.subrange(0, n as int) =~= d);
    }
}

/// A prefix that spells too large a number makes the whole segment no index.
proof fn lemma_overflow_none(d: Seq<u8>, n: nat)
    requires
        0 < n <= d.len(),
        digits_value(d.subrange(0, n as int)) > usize::MAX,
    ensures
        !all_digits(d) || digits_value(d) > usize::MAX,
{
    if all_digits(d) {
        lemma_digits_prefix_le(d, n);
    }
}


/// A copy of a value: the same model, built afresh.
pub fn copy_value(v: &ObeValue) -> (r: ObeValue)
    ensures
        value_model(r) == value_model(*v),
    decreases v,
{
    match v {
        ObeValue::Null => ObeValue::Null,
        ObeValue::Bool(b) => ObeValue::Bool(*b),
        ObeValue::Int32(x) => ObeValue::Int32(*x),
        ObeValue::Int64(x) => ObeValue::Int64(*x),
        ObeValue::Float64(x) => ObeValue::Float64(*x),
        ObeValue::String(s) => ObeValue::String(s.clone()),
        ObeValue::Binary(b) => {
            let mut c: Vec<u8> = Vec::new();
            let mut i: usize = 0;
            while i < b.len()
                invariant
                    i <= b@.len(),
                    c@ == b@.take(i as int),
                decreases b@.len() - i,
            {
                c.push(b[i]);
                i = i + 1;
                assert(c@ =~= b@.take(i as int));
            }
            assert(b@.take(i as int) =~= b@);
            ObeValue::Binary(c)
        },
        ObeValue::Document(m) => {
            proof {
                assert(decreases_to!(*v => v->Document_0));
            }
            let c = copy_fields(m);
            ObeValue::Document(c)
        },
        ObeValue::Array(a) => {
            let mut c: Vec<ObeValue> = Vec::new();
            let mut i: usize = 0;
            proof {
                lemma_items_model(a@);
            }
            while i < a.len()
                invariant
                    i <= a@.len(),
                    *v is Array,
                    v->Array_0 == *a,
                    c@.len() == i,
                    forall|j: int| 0 <= j < i ==> value_model(#[trigger] c@[j]) == value_model(a@[j]),
                decreases a@.len() - i,
            {
                proof {
                    assert(decreases_to!(*v => v->Array_0));
                    assert(decreases_to!(v->Array_0 => a@[i as int]));
                }
                let x = copy_value(&a[i]);
                c.push(x);
                i = i + 1;
            }
            proof {
                lemma_items_model(c@);
                assert(items_model(c@) =~= items_model(a@));
            }
            ObeValue::Array(c)
        },
        ObeValue::Timestamp(t) => ObeValue::Timestamp(*t),
        ObeValue::ObjectId(o) => ObeValue::ObjectId(*o),
        ObeValue::Decimal128(d) => ObeValue::Decimal128(*d),
    }
}

/// A copy of a field map: the same keys and value models, in the same order.
pub fn copy_fields(m: &FieldMap<ObeValue>) -> (r: FieldMap<ObeValue>)
    ensures
        r.entries@.len() == m.entries@.len(),
        forall|i: int| 0 <= i < m.entries@.len() ==> (#[trigger] r.entries@[i]).0@ == m.entries@[i].0@,
        fields_model(r.entries@) == fields_model(m.entries@),
        keys_sorted(m.entries@) ==> keys_sorted(r.entries@),
    decreases m,
{
    let mut c: Vec<(String, ObeValue)> = Vec::new();
    let mut i: usize = 0;
    while i < m.entries.len()
        invariant
            i <= m.entries@.len(),
            c@.len() == i,
            forall|j: int| 0 <= j < i ==> (#[trigger] c@[j]).0@ == m.entries@[j].0@,
            forall|j: int| 0 <= j < i ==> value_model((#[trigger] c@[j]).1) == value_model(m.entries@[j].1),
        decreases m.entries@.len() - i,
    {
        proof {
            assert(decreases_to!(*m => m.entries));
            assert(decreases_to!(m.entries => m.entries@));
            assert(decreases_to!(m.entries@ => m.entries@[i as int]));
            assert(decreases_to!(m.entries@[i as int] => m.entries@[i as int].1));
        }
        let k = m.entries[i].0.clone();
        let x = copy_value(&m.entries[i].1);
        c.push((k, x));
        i = i + 1;
    }
    proof {
        lemma_fields_model(c@);
        lemma_fields_model(m.entries@);
        assert(fields_model(c@) =~= fields_model(m.entries@));
        if keys_sorted(m.entries@) {
            assert forall|x: int, y: int| 0 <= x < y < c@.len() implies bytes_lt(
                key_bytes(#[trigger] c@[x].0@),
                key_bytes(#[trigger] c@[y].0@),
            ) by {
                assert(c@[x].0@ == m.entries@[x].0@);
                assert(c@[y].0@ == m.entries@[y].0@);
            }
        }
    }
    FieldMap { entries: c }
}

impl ObeValue {
    /// The type tag of this value.
    pub fn type_tag(&self) -> (t: TypeTag)
        ensures
            t == model_tag(value_model(*self)),
    {
        value_tag(self)
    }

    /// Whether this value is `Null`.
    pub fn is_null(&self) -> (b: bool)
        ensures
            b == (*self is Null),
    {
        match self {
            ObeValue::Null => true,
            _ => false,
        }
    }

    /// The text of a `String` value.
    pub fn as_str(&self) -> (r: Option<&str>)
        ensures
            match *self {
                ObeValue::String(s) => r matches Some(t) && t@ == s@,
                _ => r is None,
            },
    {
        match self {
            ObeValue::String(s) => Some(s.as_str()),
            _ => None,
        }
    }

    /// An integer value, widening `Int32` to `i64`.
    pub fn as_i64(&self) -> (r: Option<i64>)
        ensures
            r == match *self {
                ObeValue::Int32(v) => Some(v as i64),
                ObeValue::Int64(v) => Some(v),
                _ => None::<i64>,
            },
    {
        match self {
            ObeValue::Int32(v) => Some(*v as i64),
            ObeValue::Int64(v) => Some(*v),
            _ => None,
        }
    }

    /// A boolean value.
    pub fn as_bool(&self) -> (r: Option<bool>)
        ensures
            r == match *self {
                ObeValue::Bool(b) => Some(b),
                _ => None::<bool>,
            },
    {
        match self {
            ObeValue::Bool(b) => Some(*b),
            _ => None,
        }
    }

    /// The fields of a `Document` value.
    pub fn as_document(&self) -> (r: Option<&FieldMap<ObeValue>>)
        ensures
            match *self {
                ObeValue::Document(m) => r == Some(&m),
                _ => r is None,
            },
    {
        match self {
            ObeValue::Document(m) => Some(m),
            _ => None,
        }
    }

    /// The elements of an `Array` value.
    pub fn as_array(&self) -> (r: Option<&Vec<ObeValue>>)
        ensures
            match *self {
                ObeValue::Array(a) => r == Some(&a),
                _ => r is None,
            },
    {
        match self {
            ObeValue::Array(a) => Some(a),
            _ => None,
        }
    }

    /// The child that one path segment names.
    fn step<'a>(&'a self, seg: &[u8]) -> (r: Option<&'a ObeValue>)
        ensures
            match path_step(*self, seg@) {
                Some(c) => r matches Some(x) && *x == c,
                None => r is None,
            },
    {
        match self {
            ObeValue::Document(m) => {
                proof {
                    lemma_find_key(m.entries@, seg@, 0);
                }
                match m.position(seg) {
                    Some(i) => Some(&m.entries[i].1),
                    None => None,
                }
            },
            ObeValue::Array(a) => match parse_segment_index(seg) {
                Some(i) => if i < a.len() {
                    Some(&a[i])
                } else {
                    None
                },
                None => None,
            },
            _ => None,
        }
    }

    /// Resolve a dot-notation path such as `"address.city"` or `"tags.0"`:
    /// each segment names a field of a document or an index of an array.
    pub fn get_path(&self, path: &str) -> (r: Option<&ObeValue>)
        ensures
            match path_target(*self, split_dots(key_bytes(path@))) {
                Some(t) => r matches Some(x) && *x == t,
                None => r is None,
            },
    {
        let b = path.as_bytes();
        assert(b@ == key_bytes(path@));
        assert(b@.subrange(0, b@.len() as int) =~= b@);
        walk_path(self, b, 0)
    }
}

/// Follow the segments of `b[start..]` from `cur`.
fn walk_path<'a>(cur: &'a ObeValue, b: &[u8], start: usize) -> (r: Option<&'a ObeValue>)
    requires
        start <= b@.len(),
    ensures
        match path_target(*cur, split_dots(b@.subrange(start as int, b@.len() as int))) {
            Some(t) => r matches Some(x) && *x == t,
            None => r is None,
        },
    decreases b@.len() - start,
{
    let ghost rest = b@.subrange(start as int, b@.len() as int);
    let mut j: usize = start;
    while j < b.len() && b[j] != PATH_SEPARATOR
        invariant
            start <= j <= b@.len(),
            forall|m: int| start <= m < j ==> b@[m] != PATH_SEPARATOR,
        decreases b@.len() - j,
    {
        j = j + 1;
    }
    proof {
        lemma_dot_from(rest, 0);
        if j < b@.len() {
            assert(rest[j - start] == PATH_SEPARATOR);
            assert(dot_from(rest, 0) == Some((j - start) as nat)) by {
                match dot_from(rest, 0) {
                    Some(k) => {
                        if k < j - start {
                            assert(rest[k as int] == b@[start + k]);
                        }
                    },
                    None => {},
                }
            }
            assert(rest.subrange(0, (j - start) as int) =~= b@.subrange(start as int, j as int));
            assert(rest.subrange((j - start + 1) as int, rest.len() as int) =~= b@.subrange(
                j + 1,
                b@.len() as int,
            ));
        } else {
            assert(dot_from(rest, 0) is None) by {
                match dot_from(rest, 0) {
                    Some(k) => {
                        assert(rest[k as int] == b@[start + k]);
                    },
                    None => {},
                }
            }
        }
    }
    let seg = vstd::slice::slice_subrange(b, start, j);
    proof {
        let segs = split_dots(rest);
        if j < b@.len() {
            let after = b@.subrange(j + 1, b@.len() as int);
            assert(segs == seq![seg@] + split_dots(after));
            assert(segs.drop_first() =~= split_dots(after));
        } else {
            assert(seg@ =~= rest);
            assert(segs == seq![rest]);
            assert(segs.drop_first() =~= Seq::<Seq<u8>>::empty());
        }
        assert(segs[0] == seg@);
    }
    let next = match cur.step(seg) {
        Some(c) => c,
        None => return None,
    };
    if j == b.len() {
        Some(next)
    } else {
        walk_path(next, b, j + 1)
    }
}

/// The value a dot-notation path reaches in a document: the first segment
/// names a field, the rest descend as in `path_target`.
pub open spec fn doc_path_value(d: ObeDocument, path: Seq<char>) -> Option<ObeValue> {
    let segs = split_dots(key_bytes(path));
    match find_key(d.fields.entries@, segs[0], 0) {
        Some(i) => path_target(d.fields.entries@[i as int].1, segs.drop_first()),
        None => None,
    }
}

impl ObeDocument {
    /// Resolve a dot-notation path: the first segment names a field of the
    /// document, the rest descend as `ObeValue::get_path` does.
    pub fn get_path(&self, path: &str) -> (r: Option<&ObeValue>)
        ensures
            match doc_path_value(*self, path@) {
                Some(t) => r matches Some(x) && *x == t,
                None => r is None,
            },
    {
        let b = path.as_bytes();
        assert(b@ == key_bytes(path@));
        let mut j: usize = 0;
        while j < b.len() && b[j] != PATH_SEPARATOR
            invariant
                j <= b@.len(),
                forall|m: int| 0 <= m < j ==> b@[m] != PATH_SEPARATOR,
            decreases b@.len() - j,
        {
            j = j + 1;
        }
        let ghost s = b@;
        proof {
            lemma_dot_from(s, 0);
            if j < s.len() {
                assert(dot_from(s, 0) == Some(j as nat)) by {
                    match dot_from(s, 0) {
                        Some(k) => {},
                        None => {},
                    }
                }
            }
        }
        let first = vstd::slice::slice_subrange(b, 0, j);
        proof {
            lemma_find_key(self.fields.entries@, first@, 0);
            let segs = split_dots(s);
            if j < s.len() {
                let after = s.subrange(j + 1, s.len() as int);
                assert(first@ =~= s.subrange(0, j as int));
                assert(segs == seq![first@] + split_dots(after));
                assert(segs.drop_first() =~= split_dots(after));
                assert(after =~= after.subrange(0, after.len() as int));
            } else {
                assert(first@ =~= s);
                assert(segs == seq![s]);
                assert(segs.drop_first() =~= Seq::<Seq<u8>>::empty());
            }
            assert(segs[0] == first@);
        }
        let idx = match self.fields.position(first) {
            Some(x) => x,
            None => return None,
        };
        let v = &self.fields.entries[idx].1;
        if j == b.len() {
            Some(v)
        } else {
            proof {
                let after = s.subrange(j + 1, s.len() as int);
                assert(b@.subrange(j + 1, b@.len() as int) == after);
            }
            walk_path(v, b, j + 1)
        }
    }
}

} // verus!
