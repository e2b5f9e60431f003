//! The document side of MQL update operators: setting and unsetting fields
//! by dotted path, and the array operators.

use vstd::prelude::*;
use vstd::string::StrSliceExecFns;

use crate::codec::{concat_str, str_eq};
use crate::error::{OvnError, OvnResult};
use crate::format::obe::access::copy_value;
use crate::query::filter::{copy_string, field_named, find_field, query_error, syntax_error, QueryErr};

use crate::format::obe::value::{
    fields_model, find_key, items_model, key_bytes, keys_sorted, lemma_fields_model, lemma_find_key,
    lemma_insert_model, lemma_items_model,
    lemma_lookup_after_insert, lemma_lookup_after_remove, lookup, map_insert, model_insert, value_model, FieldMap,
    ObeValue, ValueModel,
};

verus! {

// ── Operator names ────────────────────────────────────────────────────────

/// The update operators. `$push` and `$addToSet` take either one value or
/// a `$each` list; which of the two is decided by the operand.
#[derive(Debug, Clone, Copy, PartialEq, Eq, Structural)]
pub enum UpdateKind {
    SetField,
    Unset,
    Inc,
    Mul,
    Min,
    Max,
    Rename,
    Push,
    Pull,
    PullAll,
    AddToSet,
    Pop,
    CurrentDate,
    SetOnInsert,
}

/// The operator an update operator name denotes.
pub open spec fn update_kind_named(s: Seq<char>) -> Option<UpdateKind> {
    if s == "$set"@ {
        Some(UpdateKind::SetField)
    } else if s == "$unset"@ {
        Some(UpdateKind::Unset)
    } else if s == "$inc"@ {
        Some(UpdateKind::Inc)
    } else if s == "$mul"@ {
        Some(UpdateKind::Mul)
    } else if s == "$min"@ {
        Some(UpdateKind::Min)
    } else if s == "$max"@ {
        Some(UpdateKind::Max)
    } else if s == "$rename"@ {
        Some(UpdateKind::Rename)
    } else if s == "$push"@ {
        Some(UpdateKind::Push)
    } else if s == "$pull"@ {
        Some(UpdateKind::Pull)
    } else if s == "$pullAll"@ {
        Some(UpdateKind::PullAll)
    } else if s == "$addToSet"@ {
        Some(UpdateKind::AddToSet)
    } else if s == "$pop"@ {
        Some(UpdateKind::Pop)
    } else if s == "$currentDate"@ {
        Some(UpdateKind::CurrentDate)
    } else if s == "$setOnInsert"@ {
        Some(UpdateKind::SetOnInsert)
    } else {
        None
    }
}

/// Parse an update operator name such as `$set`; any other text is an
/// `UnknownOperator` error carrying it.
pub fn parse_update_kind(s: &str) -> (r: OvnResult<UpdateKind>)
    ensures
        match update_kind_named(s@) {
            Some(k) => r == Ok::<UpdateKind, OvnError>(k),
            None => r matches Err(OvnError::UnknownOperator(t)) && t@ == s@,
        },
{
    if str_eq(s, "$set") {
        Ok(UpdateKind::SetField)
    } else if str_eq(s, "$unset") {
        Ok(UpdateKind::Unset)
    } else if str_eq(s, "$inc") {
        Ok(UpdateKind::Inc)
    } else if str_eq(s, "$mul") {
        Ok(UpdateKind::Mul)
    } else if str_eq(s, "$min") {
        Ok(UpdateKind::Min)
    } else if str_eq(s, "$max") {
        Ok(UpdateKind::Max)
    } else if str_eq(s, "$rename") {
        Ok(UpdateKind::Rename)
    } else if str_eq(s, "$push") {
        Ok(UpdateKind::Push)
    } else if str_eq(s, "$pull") {
        Ok(UpdateKind::Pull)
    } else if str_eq(s, "$pullAll") {
        Ok(UpdateKind::PullAll)
    } else if str_eq(s, "$addToSet") {
        Ok(UpdateKind::AddToSet)
    } else if str_eq(s, "$pop") {
        Ok(UpdateKind::Pop)
    } else if str_eq(s, "$currentDate") {
        Ok(UpdateKind::CurrentDate)
    } else if str_eq(s, "$setOnInsert") {
        Ok(UpdateKind::SetOnInsert)
    } else {
        Err(OvnError::UnknownOperator(s.to_string()))
    }
}

// ── Paths ─────────────────────────────────────────────────────────────────

/// Index of the first `.` of `p` at or after `i`.
pub open spec fn char_dot(p: Seq<char>, i: nat) -> Option<nat>
    decreases p.len() - i,
{
    if i >= p.len() {
        None
    } else if p[i as int] == '.' {
        Some(i)
    } else {
        char_dot(p, i + 1)
    }
}

/// `char_dot` finds the first dot from `i`.
proof fn lemma_char_dot(p: Seq<char>, i: nat)
    ensures
        match char_dot(p, i) {
            Some(d) => i <= d < p.len() && p[d as int] == '.' && forall|m: int| i <= m < d ==> p[m] != '.',
            None => forall|m: int| i <= m < p.len() ==> p[m] != '.',
        },
    decreases p.len() - i,
{
    if i < p.len() && p[i as int] != '.' {
        lemma_char_dot(p, i + 1);
    }
}

/// Index of the first model entry whose key has the bytes `k`, from `i`.
pub open spec fn model_find(fs: Seq<(Seq<char>, ValueModel)>, k: Seq<u8>, i: nat) -> Option<nat>
    decreases fs.len() - i,
{
    if i >= fs.len() {
        None
    } else if key_bytes(fs[i as int].0) == k {
        Some(i)
    } else {
        model_find(fs, k, i + 1)
    }
}

/// A map and its model find the same entry.
pub proof fn lemma_model_find(s: Seq<(String, ObeValue)>, k: Seq<u8>, i: nat)
    requires
        i <= s.len(),
    ensures
        model_find(fields_model(s), k, i) == find_key(s, k, i),
    decreases s.len() - i,
{
    lemma_fields_model(s);
    if i < s.len() {
        lemma_model_find(s, k, i + 1);
    }
}

/// Entries with the same keys in the same order find the same entry.
proof fn lemma_find_same_keys(s: Seq<(String, ObeValue)>, t: Seq<(String, ObeValue)>, k: Seq<u8>, i: nat)
    requires
        s.len() == t.len(),
        forall|m: int| 0 <= m < s.len() ==> (#[trigger] s[m]).0 == t[m].0,
    ensures
        find_key(s, k, i) == find_key(t, k, i),
    decreases s.len() - i,
{
    if i < s.len() {
        assert(s[i as int].0 == t[i as int].0);
        lemma_find_same_keys(s, t, k, i + 1);
    }
}

/// The model of entries after replacing one.
proof fn lemma_fields_model_update(s: Seq<(String, ObeValue)>, j: int, x: (String, ObeValue))
    requires
        0 <= j < s.len(),
    ensures
        fields_model(s.update(j, x)) == fields_model(s).update(j, (x.0@, value_model(x.1))),
{
    lemma_fields_model(s);
    lemma_fields_model(s.update(j, x));
    assert(fields_model(s.update(j, x)) =~= fields_model(s).update(j, (x.0@, value_model(x.1))));
}

/// The fields after setting `p` to `v`: a path without a dot sets that
/// field; otherwise the first segment names a field that must be a
/// document (one is created when the field is absent) in which the rest of
/// the path is set, and a field that is not a document is left alone.
pub open spec fn model_set_path(fs: Seq<(Seq<char>, ValueModel)>, p: Seq<char>, v: ValueModel) -> Seq<
    (Seq<char>, ValueModel),
>
    decreases p.len(),
{
    match char_dot(p, 0) {
        None => model_insert(fs, p, v),
        Some(d) => if d < p.len() {
            let first = p.take(d as int);
            let rest = p.skip((d + 1) as int);
            match model_find(fs, key_bytes(first), 0) {
                Some(j) => if j < fs.len() {
                    match fs[j as int].1 {
                        ValueModel::Document(sub) => fs.update(
                            j as int,
                            (fs[j as int].0, ValueModel::Document(model_set_path(sub, rest, v))),
                        ),
                        _ => fs,
                    }
                } else {
                    fs
                },
                None => model_insert(fs, first, ValueModel::Document(model_set_path(Seq::empty(), rest, v))),
            }
        } else {
            fs
        },
    }
}

/// The fields after removing `p`: a path without a dot removes that field;
/// otherwise the rest of the path is removed inside the document the first
/// segment names, if it names one.
pub open spec fn model_unset_path(fs: Seq<(Seq<char>, ValueModel)>, p: Seq<char>) -> Seq<(Seq<char>, ValueModel)>
    decreases p.len(),
{
    match char_dot(p, 0) {
        None => match model_find(fs, key_bytes(p), 0) {
            Some(j) => fs.remove(j as int),
            None => fs,
        },
        Some(d) => if d < p.len() {
            let first = p.take(d as int);
            let rest = p.skip((d + 1) as int);
            match model_find(fs, key_bytes(first), 0) {
                Some(j) => if j < fs.len() {
                    match fs[j as int].1 {
                        ValueModel::Document(sub) => fs.update(
                            j as int,
                            (fs[j as int].0, ValueModel::Document(model_unset_path(sub, rest))),
                        ),
                        _ => fs,
                    }
                } else {
                    fs
                },
                None => fs,
            }
        } else {
            fs
        },
    }
}

/// The value a dotted path reaches through nested documents.
pub open spec fn entries_path_get(s: Seq<(String, ObeValue)>, p: Seq<char>) -> Option<ObeValue>
    decreases p.len(),
{
    match char_dot(p, 0) {
        None => lookup(s, key_bytes(p)),
        Some(d) => if d < p.len() {
            match lookup(s, key_bytes(p.take(d as int))) {
                Some(ObeValue::Document(m)) => entries_path_get(m.entries@, p.skip((d + 1) as int)),
                _ => None,
            }
        } else {
            None
        },
    }
}

/// Every map along the path keeps its keys sorted.
pub open spec fn path_sorted(s: Seq<(String, ObeValue)>, p: Seq<char>) -> bool
    decreases p.len(),
{
    &&& keys_sorted(s)
    &&& match char_dot(p, 0) {
        None => true,
        Some(d) => if d < p.len() {
            match lookup(s, key_bytes(p.take(d as int))) {
                Some(ObeValue::Document(m)) => path_sorted(m.entries@, p.skip((d + 1) as int)),
                _ => true,
            }
        } else {
            true
        },
    }
}

/// Every field along the path is a document or absent, so that setting the
/// path reaches its end.
pub open spec fn path_settable(s: Seq<(String, ObeValue)>, p: Seq<char>) -> bool
    decreases p.len(),
{
    match char_dot(p, 0) {
        None => true,
        Some(d) => if d < p.len() {
            match lookup(s, key_bytes(p.take(d as int))) {
                Some(ObeValue::Document(m)) => path_settable(m.entries@, p.skip((d + 1) as int)),
                Some(_) => false,
                None => true,
            }
        } else {
            true
        },
    }
}

/// An empty map can be set along any path.
proof fn lemma_empty_path(p: Seq<char>)
    ensures
        path_settable(Seq::<(String, ObeValue)>::empty(), p),
        path_sorted(Seq::<(String, ObeValue)>::empty(), p),
    decreases p.len(),
{
}

/// The position of the first `.` in `path`, if any.
fn find_dot(path: &str) -> (r: Option<usize>)
    ensures
        match char_dot(path@, 0) {
            Some(d) => r == Some(d as usize) && d < path@.len(),
            None => r is None,
        },
{
    proof {
        lemma_char_dot(path@, 0);
    }
    let n = path.unicode_len();
    let mut i: usize = 0;
    while i < n
        invariant
            n == path@.len(),
            i <= n,
            char_dot(path@, 0) == char_dot(path@, i as nat),
        decreases n - i,
    {
        if path.get_char(i) == '.' {
            return Some(i);
        }
        i = i + 1;
    }
    None
}

/// Set the possibly nested field `path` (segments separated by `.`) to
/// `value`, creating documents for absent segments; a segment naming a
/// field that is not a document stops the update.
pub fn set_nested_field(fields: &mut FieldMap<ObeValue>, path: &str, value: ObeValue)
    ensures
        fields_model(final(fields).entries@) == model_set_path(
            fields_model(old(fields).entries@),
            path@,
            value_model(value),
        ),
        keys_sorted(old(fields).entries@) ==> keys_sorted(final(fields).entries@),
        path_sorted(old(fields).entries@, path@) && path_settable(old(fields).entries@, path@)
            ==> entries_path_get(final(fields).entries@, path@) == Some(value),
    decreases path@.len(),
{
    let ghost s = fields.entries@;
    match find_dot(path) {
        None => {
            let key = path.to_string();
            proof {
                lemma_insert_model(s, key, value);
                if keys_sorted(s) {
                    lemma_lookup_after_insert(s, key, value, key_bytes(path@));
                }
            }
            fields.insert(key, value);
        },
        Some(d) => {
            let n = path.unicode_len();
            let first = path.substring_char(0, d);
            let rest = path.substring_char(d + 1, n);
            assert(first@ =~= path@.take(d as int));
            assert(rest@ =~= path@.skip(d + 1));
            let fb = first.as_bytes();
            assert(fb@ == key_bytes(first@));
            proof {
                lemma_model_find(s, key_bytes(first@), 0);
                lemma_find_key(s, key_bytes(first@), 0);
            }
            match fields.position(fb) {
                Some(j) => {
                    let (k, v) = fields.entries.remove(j);
                    match v {
                        ObeValue::Document(sub) => {
                            let mut sub = sub;
                            let ghost old_sub = sub;
                            set_nested_field(&mut sub, rest, value);
                            let ghost newv = ObeValue::Document(sub);
                            fields.entries.insert(j, (k, ObeValue::Document(sub)));
                            proof {
                                assert(fields.entries@ =~= s.update(j as int, (k, newv)));
                                lemma_fields_model_update(s, j as int, (k, newv));
                                lemma_fields_model(s);
                                assert(fields_model(s)[j as int] == (k@, value_model(ObeValue::Document(old_sub))));
                                lemma_find_same_keys(s, fields.entries@, key_bytes(first@), 0);
                                assert(keys_sorted(s) ==> keys_sorted(fields.entries@)) by {
                                    if keys_sorted(s) {
                                        assert forall|a: int, b: int| 0 <= a < b < fields.entries@.len() implies crate::format::obe::value::bytes_lt(
                                            key_bytes(#[trigger] fields.entries@[a].0@),
                                            key_bytes(#[trigger] fields.entries@[b].0@),
                                        ) by {
                                            assert(fields.entries@[a].0 == s[a].0);
                                            assert(fields.entries@[b].0 == s[b].0);
                                        }
                                    }
                                }
                            }
                        },
                        other => {
                            let ghost ov = other;
                            fields.entries.insert(j, (k, other));
                            proof {
                                assert(fields.entries@ =~= s);
                                lemma_fields_model(s);
                                assert(fields_model(s)[j as int].1 == value_model(ov));
                            }
                        },
                    }
                },
                None => {
                    let mut sub: FieldMap<ObeValue> = FieldMap::new();
                    proof {
                        lemma_empty_path(rest@);
                        assert(fields_model(sub.entries@) =~= Seq::<(Seq<char>, ValueModel)>::empty());
                    }
                    set_nested_field(&mut sub, rest, value);
                    let key = first.to_string();
                    let newv = ObeValue::Document(sub);
                    proof {
                        lemma_insert_model(s, key, newv);
                        if keys_sorted(s) {
                            lemma_lookup_after_insert(s, key, newv, key_bytes(first@));
                        }
                    }
                    fields.insert(key, newv);
                },
            }
        },
    }
}

/// Remove the possibly nested field `path`; nothing happens when a segment
/// is absent or names a field that is not a document.
pub fn unset_nested_field(fields: &mut FieldMap<ObeValue>, path: &str)
    ensures
        fields_model(final(fields).entries@) == model_unset_path(fields_model(old(fields).entries@), path@),
        keys_sorted(old(fields).entries@) ==> keys_sorted(final(fields).entries@),
        path_sorted(old(fields).entries@, path@) ==> entries_path_get(final(fields).entries@, path@) is None,
    decreases path@.len(),
{
    let ghost s = fields.entries@;
    match find_dot(path) {
        None => {
            proof {
                lemma_model_find(s, key_bytes(path@), 0);
                lemma_find_key(s, key_bytes(path@), 0);
                lemma_fields_model(s);
                if find_key(s, key_bytes(path@), 0) is Some {
                    let i = find_key(s, key_bytes(path@), 0)->0 as int;
                    lemma_fields_model(s.remove(i));
                    assert(fields_model(s.remove(i)) =~= fields_model(s).remove(i));
                    if keys_sorted(s) {
                        lemma_lookup_after_remove(s, key_bytes(path@), key_bytes(path@));
                    }
                }
            }
            fields.remove(path);
        },
        Some(d) => {
            let n = path.unicode_len();
            let first = path.substring_char(0, d);
            let rest = path.substring_char(d + 1, n);
            assert(first@ =~= path@.take(d as int));
            assert(rest@ =~= path@.skip(d + 1));
            let fb = first.as_bytes();
            assert(fb@ == key_bytes(first@));
            proof {
                lemma_model_find(s, key_bytes(first@), 0);
                lemma_find_key(s, key_bytes(first@), 0);
            }
            match fields.position(fb) {
                Some(j) => {
                    let (k, v) = fields.entries.remove(j);
                    match v {
                        ObeValue::Document(sub) => {
                            let mut sub = sub;
                            let ghost old_sub = sub;
                            unset_nested_field(&mut sub, rest);
                            let ghost newv = ObeValue::Document(sub);
                            fields.entries.insert(j, (k, ObeValue::Document(sub)));
                            proof {
                                assert(fields.entries@ =~= s.update(j as int, (k, newv)));
                                lemma_fields_model_update(s, j as int, (k, newv));
                                lemma_fields_model(s);
                                assert(fields_model(s)[j as int] == (k@, value_model(ObeValue::Document(old_sub))));
                                lemma_find_same_keys(s, fields.entries@, key_bytes(first@), 0);
                                assert(keys_sorted(s) ==> keys_sorted(fields.entries@)) by {
                                    if keys_sorted(s) {
                                        assert forall|a: int, b: int| 0 <= a < b < fields.entries@.len() implies crate::format::obe::value::bytes_lt(
                                            key_bytes(#[trigger] fields.entries@[a].0@),
                                            key_bytes(#[trigger] fields.entries@[b].0@),
                                        ) by {
                                            assert(fields.entries@[a].0 == s[a].0);
                                            assert(fields.entries@[b].0 == s[b].0);
                                        }
                                    }
                                }
                            }
                        },
                        other => {
                            let ghost ov = other;
                            fields.entries.insert(j, (k, other));
                            proof {
                                assert(fields.entries@ =~= s);
                                lemma_fields_model(s);
                                assert(fields_model(s)[j as int].1 == value_model(ov));
                            }
                        },
                    }
                },
                None => {},
            }
        },
    }
}


// ── Value equality ────────────────────────────────────────────────────────

/// The bits are a NaN: all exponent bits set and a nonzero fraction.
pub open spec fn is_nan_bits(x: u64) -> bool {
    (x / 0x10_0000_0000_0000) % 0x800 == 0x7FF && x % 0x10_0000_0000_0000 != 0
}

/// The bits are a zero of either sign.
pub open spec fn is_zero_bits(x: u64) -> bool {
    x % 0x8000_0000_0000_0000 == 0
}

/// IEEE-754 equality of two doubles given by their bits: no NaN equals
/// anything, the two zeros are equal, other values when their bits are.
pub open spec fn float_eq(a: u64, b: u64) -> bool {
    !is_nan_bits(a) && !is_nan_bits(b) && (a == b || (is_zero_bits(a) && is_zero_bits(b)))
}

/// Equality of values as `==` on them behaves: same kind and equal
/// contents, floats by IEEE equality, documents entry by entry in key order,
/// arrays item by item.
pub open spec fn model_eq(a: ValueModel, b: ValueModel) -> bool
    decreases a,
{
    match a {
        ValueModel::Null => b is Null,
        ValueModel::Bool(x) => b matches ValueModel::Bool(y) && x == y,
        ValueModel::Int32(x) => b matches ValueModel::Int32(y) && x == y,
        ValueModel::Int64(x) => b matches ValueModel::Int64(y) && x == y,
        ValueModel::Float64(x) => b matches ValueModel::Float64(y) && float_eq(x, y),
        ValueModel::Str(x) => b matches ValueModel::Str(y) && x == y,
        ValueModel::Binary(x) => b matches ValueModel::Binary(y) && x == y,
        ValueModel::Document(f) => b matches ValueModel::Document(g) && fields_eq(f, g),
        ValueModel::Array(x) => b matches ValueModel::Array(y) && items_eq(x, y),
        ValueModel::Timestamp(x) => b matches ValueModel::Timestamp(y) && x == y,
        ValueModel::ObjectId(x) => b matches ValueModel::ObjectId(y) && x == y,
        ValueModel::Decimal128(x) => b matches ValueModel::Decimal128(y) && x == y,
    }
}

/// Entry-by-entry equality of two field sequences.
pub open spec fn fields_eq(f: Seq<(Seq<char>, ValueModel)>, g: Seq<(Seq<char>, ValueModel)>) -> bool
    decreases f,
{
    f.len() == g.len() && (f.len() == 0 || (fields_eq(f.drop_last(), g.drop_last()) && f.last().0 == g.last().0
        && model_eq(f.last().1, g.last().1)))
}

/// Item-by-item equality of two item sequences.
pub open spec fn items_eq(x: Seq<ValueModel>, y: Seq<ValueModel>) -> bool
    decreases x,
{
    x.len() == y.len() && (x.len() == 0 || (items_eq(x.drop_last(), y.drop_last()) && model_eq(x.last(), y.last())))
}

/// `fields_eq` compares position by position.
proof fn lemma_fields_eq(f: Seq<(Seq<char>, ValueModel)>, g: Seq<(Seq<char>, ValueModel)>)
    ensures
        fields_eq(f, g) <==> (f.len() == g.len() && forall|i: int|
            0 <= i < f.len() ==> (#[trigger] f[i]).0 == g[i].0 && model_eq(f[i].1, g[i].1)),
    decreases f.len(),
{
    if f.len() > 0 && f.len() == g.len() {
        lemma_fields_eq(f.drop_last(), g.drop_last());
        if forall|i: int| 0 <= i < f.len() ==> (#[trigger] f[i]).0 == g[i].0 && model_eq(f[i].1, g[i].1) {
            assert forall|i: int| 0 <= i < f.drop_last().len() implies (#[trigger] f.drop_last()[i]).0
                == g.drop_last()[i].0 && model_eq(f.drop_last()[i].1, g.drop_last()[i].1) by {
                assert(f.drop_last()[i] == f[i]);
                assert(g.drop_last()[i] == g[i]);
            }
        }
        if fields_eq(f, g) {
            assert forall|i: int| 0 <= i < f.len() implies (#[trigger] f[i]).0 == g[i].0 && model_eq(
                f[i].1,
                g[i].1,
            ) by {
                if i < f.len() - 1 {
                    assert(f.drop_last()[i] == f[i]);
                    assert(g.drop_last()[i] == g[i]);
                }
            }
        }
    }
}

/// `items_eq` compares position by position.
proof fn lemma_items_eq(x: Seq<ValueModel>, y: Seq<ValueModel>)
    ensures
        items_eq(x, y) <==> (x.len() == y.len() && forall|i: int| 0 <= i < x.len() ==> model_eq(#[trigger] x[i], y[i])),
    decreases x.len(),
{
    if x.len() > 0 && x.len() == y.len() {
        lemma_items_eq(x.drop_last(), y.drop_last());
        if forall|i: int| 0 <= i < x.len() ==> model_eq(#[trigger] x[i], y[i]) {
            assert forall|i: int| 0 <= i < x.drop_last().len() implies model_eq(
                #[trigger] x.drop_last()[i],
                y.drop_last()[i],
            ) by {
                assert(x.drop_last()[i] == x[i]);
                assert(y.drop_last()[i] == y[i]);
            }
        }
        if items_eq(x, y) {
            assert forall|i: int| 0 <= i < x.len() implies model_eq(#[trigger] x[i], y[i]) by {
                if i < x.len() - 1 {
                    assert(x.drop_last()[i] == x[i]);
                    assert(y.drop_last()[i] == y[i]);
                }
            }
        }
    }
}

fn float_bits_equal(a: u64, b: u64) -> (r: bool)
    ensures
        r == float_eq(a, b),
{
    let a_nan = (a / 0x10_0000_0000_0000) % 0x800 == 0x7FF && a % 0x10_0000_0000_0000 != 0;
    let b_nan = (b / 0x10_0000_0000_0000) % 0x800 == 0x7FF && b % 0x10_0000_0000_0000 != 0;
    !a_nan && !b_nan && (a == b || (a % 0x8000_0000_0000_0000 == 0 && b % 0x8000_0000_0000_0000 == 0))
}

fn bytes_same(a: &[u8], b: &[u8]) -> (r: bool)
    ensures
        r == (a@ == b@),
{
    crate::format::obe::value::bytes_equal(a, b)
}

/// Whether two values are equal as `==` on values is (see `model_eq`).
pub fn values_equal(a: &ObeValue, b: &ObeValue) -> (r: bool)
    ensures
        r == model_eq(value_model(*a), value_model(*b)),
    decreases a,
{
    match (a, b) {
        (ObeValue::Null, ObeValue::Null) => true,
        (ObeValue::Bool(x), ObeValue::Bool(y)) => *x == *y,
        (ObeValue::Int32(x), ObeValue::Int32(y)) => *x == *y,
        (ObeValue::Int64(x), ObeValue::Int64(y)) => *x == *y,
        (ObeValue::Float64(x), ObeValue::Float64(y)) => float_bits_equal(*x, *y),
        (ObeValue::String(x), ObeValue::String(y)) => crate::codec::str_eq(x.as_str(), y.as_str()),
        (ObeValue::Binary(x), ObeValue::Binary(y)) => bytes_same(x.as_slice(), y.as_slice()),
        (ObeValue::Timestamp(x), ObeValue::Timestamp(y)) => *x == *y,
        (ObeValue::ObjectId(x), ObeValue::ObjectId(y)) => bytes_same(x.as_slice(), y.as_slice()),
        (ObeValue::Decimal128(x), ObeValue::Decimal128(y)) => bytes_same(x.as_slice(), y.as_slice()),
        (ObeValue::Document(f), ObeValue::Document(g)) => {
            proof {
                lemma_fields_model(f.entries@);
                lemma_fields_model(g.entries@);
                lemma_fields_eq(fields_model(f.entries@), fields_model(g.entries@));
            }
            if f.entries.len() != g.entries.len() {
                return false;
            }
            let ghost fm = fields_model(f.entries@);
            let ghost gm = fields_model(g.entries@);
            assert(model_eq(value_model(*a), value_model(*b)) == fields_eq(fm, gm));
            let mut i: usize = 0;
            while i < f.entries.len()
                invariant
                    fm == fields_model(f.entries@),
                    gm == fields_model(g.entries@),
                    model_eq(value_model(*a), value_model(*b)) == (fm.len() == gm.len() && forall|j: int|
                        0 <= j < fm.len() ==> (#[trigger] fm[j]).0 == gm[j].0 && model_eq(fm[j].1, gm[j].1)),
                    *a is Document,
                    a->Document_0 == *f,
                    f.entries@.len() == g.entries@.len(),
                    i <= f.entries@.len(),
                    fields_model(f.entries@).len() == f.entries@.len(),
                    fields_model(g.entries@).len() == g.entries@.len(),
                    forall|j: int| 0 <= j < f.entries@.len() ==> #[trigger] fields_model(f.entries@)[j] == (f.entries@[j].0@, value_model(f.entries@[j].1)),
                    forall|j: int| 0 <= j < g.entries@.len() ==> #[trigger] fields_model(g.entries@)[j] == (g.entries@[j].0@, value_model(g.entries@[j].1)),
                    forall|j: int| 0 <= j < i ==> (#[trigger] f.entries@[j]).0@ == g.entries@[j].0@ && model_eq(value_model(f.entries@[j].1), value_model(g.entries@[j].1)),
                decreases f.entries@.len() - i,
            {
                proof {
                    assert(decreases_to!(*a => a->Document_0));
                    assert(decreases_to!(a->Document_0 => a->Document_0.entries));
                    assert(decreases_to!(a->Document_0.entries => a->Document_0.entries@));
                    assert(decreases_to!(a->Document_0.entries@ => a->Document_0.entries@[i as int]));
                    assert(decreases_to!(a->Document_0.entries@[i as int] => a->Document_0.entries@[i as int].1));
                }
                if !crate::codec::str_eq(f.entries[i].0.as_str(), g.entries[i].0.as_str()) {
                    assert(fm[i as int].0 != gm[i as int].0);
                    return false;
                }
                if !values_equal(&f.entries[i].1, &g.entries[i].1) {
                    assert(!model_eq(fm[i as int].1, gm[i as int].1));
                    return false;
                }
                i = i + 1;
            }
            true
        },
        (ObeValue::Array(x), ObeValue::Array(y)) => {
            proof {
                lemma_items_model(x@);
                lemma_items_model(y@);
                lemma_items_eq(items_model(x@), items_model(y@));
            }
            if x.len() != y.len() {
                return false;
            }
            let ghost xm = items_model(x@);
            let ghost ym = items_model(y@);
            assert(model_eq(value_model(*a), value_model(*b)) == items_eq(xm, ym));
            let mut i: usize = 0;
            while i < x.len()
                invariant
                    xm == items_model(x@),
                    ym == items_model(y@),
                    model_eq(value_model(*a), value_model(*b)) == (xm.len() == ym.len() && forall|j: int|
                        0 <= j < xm.len() ==> model_eq(#[trigger] xm[j], ym[j])),
                    *a is Array,
                    a->Array_0 == *x,
                    x@.len() == y@.len(),
                    i <= x@.len(),
                    items_model(x@).len() == x@.len(),
                    items_model(y@).len() == y@.len(),
                    forall|j: int| 0 <= j < x@.len() ==> #[trigger] items_model(x@)[j] == value_model(x@[j]),
                    forall|j: int| 0 <= j < y@.len() ==> #[trigger] items_model(y@)[j] == value_model(y@[j]),
                    forall|j: int| 0 <= j < i ==> model_eq(value_model(#[trigger] x@[j]), value_model(y@[j])),
                decreases x@.len() - i,
            {
                proof {
                    assert(decreases_to!(*a => a->Array_0));
                    assert(decreases_to!(a->Array_0 => a->Array_0@));
                    assert(decreases_to!(a->Array_0@ => a->Array_0@[i as int]));
                }
                if !values_equal(&x[i], &y[i]) {
                    assert(!model_eq(xm[i as int], ym[i as int]));
                    return false;
                }
                i = i + 1;
            }
            true
        },
        _ => false,
    }
}


// ── Array operators ───────────────────────────────────────────────────────

/// Some item of `items` equals `v` (`items[i] == v`).
pub open spec fn holds_equal(items: Seq<ValueModel>, v: ValueModel) -> bool {
    exists|i: int| 0 <= i < items.len() && model_eq(#[trigger] items[i], v)
}

/// `items` after adding each of `vals` in turn unless an equal item is
/// already there (`$addToSet`).
pub open spec fn added_to_set(items: Seq<ValueModel>, vals: Seq<ValueModel>) -> Seq<ValueModel>
    decreases vals.len(),
{
    if vals.len() == 0 {
        items
    } else {
        added_to_set(
            if holds_equal(items, vals[0]) {
                items
            } else {
                items.push(vals[0])
            },
            vals.drop_first(),
        )
    }
}

/// `items` without those equal to `v` (`item == v`), in order (`$pull`).
pub open spec fn pulled(items: Seq<ValueModel>, v: ValueModel) -> Seq<ValueModel>
    decreases items.len(),
{
    if items.len() == 0 {
        items
    } else {
        (if model_eq(items[0], v) {
            Seq::empty()
        } else {
            seq![items[0]]
        }) + pulled(items.drop_first(), v)
    }
}

/// `items` without those that some value of `vals` equals, in order
/// (`$pullAll`).
pub open spec fn pulled_all(items: Seq<ValueModel>, vals: Seq<ValueModel>) -> Seq<ValueModel>
    decreases items.len(),
{
    if items.len() == 0 {
        items
    } else {
        (if holds_equal(vals, items[0]) {
            Seq::empty()
        } else {
            seq![items[0]]
        }) + pulled_all(items.drop_first(), vals)
    }
}

/// `items` without the last item (`direction >= 0`) or the first, when
/// there is one (`$pop`).
pub open spec fn popped(items: Seq<ValueModel>, direction: i32) -> Seq<ValueModel> {
    if items.len() == 0 {
        items
    } else if direction >= 0 {
        items.drop_last()
    } else {
        items.drop_first()
    }
}

/// Replacing the value of an entry keeps the keys, hence their order.
proof fn lemma_update_value(s: Seq<(String, ObeValue)>, j: int, x: (String, ObeValue))
    requires
        0 <= j < s.len(),
        x.0 == s[j].0,
    ensures
        keys_sorted(s) ==> keys_sorted(s.update(j, x)),
        fields_model(s.update(j, x)) == fields_model(s).update(j, (fields_model(s)[j].0, value_model(x.1))),
{
    lemma_fields_model(s);
    lemma_fields_model_update(s, j, x);
    if keys_sorted(s) {
        let t = s.update(j, x);
        assert forall|a: int, b: int| 0 <= a < b < t.len() implies crate::format::obe::value::bytes_lt(
            key_bytes(#[trigger] t[a].0@),
            key_bytes(#[trigger] t[b].0@),
        ) by {
            assert(t[a].0 == s[a].0);
            assert(t[b].0 == s[b].0);
        }
    }
}

/// Whether some item equals `v` (`items[i] == v`).
fn holds_equal_exec(items: &Vec<ObeValue>, v: &ObeValue) -> (r: bool)
    ensures
        r == holds_equal(items_model(items@), value_model(*v)),
{
    proof {
        lemma_items_model(items@);
    }
    let mut i: usize = 0;
    while i < items.len()
        invariant
            i <= items@.len(),
            items_model(items@).len() == items@.len(),
            forall|j: int| 0 <= j < items@.len() ==> #[trigger] items_model(items@)[j] == value_model(items@[j]),
            forall|j: int| 0 <= j < i ==> !model_eq(value_model(#[trigger] items@[j]), value_model(*v)),
        decreases items@.len() - i,
    {
        if values_equal(&items[i], v) {
            assert(model_eq(items_model(items@)[i as int], value_model(*v)));
            return true;
        }
        i = i + 1;
    }
    proof {
        if holds_equal(items_model(items@), value_model(*v)) {
            let k = choose|k: int| 0 <= k < items_model(items@).len() && model_eq(#[trigger] items_model(items@)[k], value_model(*v));
            assert(!model_eq(value_model(items@[k]), value_model(*v)));
        }
    }
    false
}

/// Move `items` into a new list keeping those `keep` admits; the models
/// of the kept ones, in order, are `pulled` or `pulled_all` as chosen.
fn pull_items(items: Vec<ObeValue>, one: &ObeValue, all: &Vec<ObeValue>, use_all: bool) -> (r: Vec<ObeValue>)
    ensures
        use_all ==> items_model(r@) == pulled_all(items_model(items@), items_model(all@)),
        !use_all ==> items_model(r@) == pulled(items_model(items@), value_model(*one)),
{
    let ghost orig = items_model(items@);
    let mut rest = items;
    let mut out: Vec<ObeValue> = Vec::new();
    proof {
        lemma_items_model(rest@);
        assert(items_model(out@) =~= Seq::<ValueModel>::empty());
    }
    while rest.len() > 0
        invariant
            use_all ==> items_model(out@) + pulled_all(items_model(rest@), items_model(all@)) == pulled_all(
                orig,
                items_model(all@),
            ),
            !use_all ==> items_model(out@) + pulled(items_model(rest@), value_model(*one)) == pulled(
                orig,
                value_model(*one),
            ),
        decreases rest@.len(),
    {
        let ghost before = rest@;
        let x = rest.remove(0);
        proof {
            lemma_items_model(before);
            lemma_items_model(rest@);
            assert(items_model(before) =~= seq![value_model(x)] + items_model(rest@));
            assert(items_model(before).drop_first() =~= items_model(rest@));
        }
        let drop = if use_all {
            let mut found = false;
            let mut k: usize = 0;
            proof {
                lemma_items_model(all@);
            }
            while k < all.len()
                invariant
                    k <= all@.len(),
                    items_model(all@).len() == all@.len(),
                    forall|j: int| 0 <= j < all@.len() ==> #[trigger] items_model(all@)[j] == value_model(all@[j]),
                    found == exists|j: int| 0 <= j < k && model_eq(value_model(#[trigger] all@[j]), value_model(x)),
                decreases all@.len() - k,
            {
                if values_equal(&all[k], &x) {
                    found = true;
                }
                k = k + 1;
            }
            proof {
                if found {
                    let j = choose|j: int| 0 <= j < k && model_eq(value_model(#[trigger] all@[j]), value_model(x));
                    assert(model_eq(items_model(all@)[j], value_model(x)));
                }
                if holds_equal(items_model(all@), value_model(x)) {
                    let j = choose|j: int| 0 <= j < items_model(all@).len() && model_eq(#[trigger] items_model(all@)[j], value_model(x));
                    assert(model_eq(value_model(all@[j]), value_model(x)));
                }
            }
            found
        } else {
            values_equal(&x, one)
        };
        let ghost old_out = items_model(out@);
        let ghost old_seq = out@;
        if !drop {
            out.push(x);
            proof {
                assert(out@.drop_last() =~= old_seq);
                assert(items_model(out@) =~= old_out.push(value_model(x)));
            }
        }
        proof {
            if use_all {
                assert(old_out + pulled_all(items_model(before), items_model(all@)) =~= items_model(out@)
                    + pulled_all(items_model(rest@), items_model(all@)));
            } else {
                assert(old_out + pulled(items_model(before), value_model(*one)) =~= items_model(out@)
                    + pulled(items_model(rest@), value_model(*one)));
            }
        }
    }
    proof {
        lemma_items_model(rest@);
        assert(items_model(rest@) =~= Seq::<ValueModel>::empty());
        assert(items_model(out@) + Seq::<ValueModel>::empty() =~= items_model(out@));
    }
    out
}

/// Append `vals` to `items`, each only when no equal item is there yet
/// (`unique`), or all of them.
fn append_items(items: &mut Vec<ObeValue>, vals: Vec<ObeValue>, unique: bool)
    ensures
        unique ==> items_model(final(items)@) == added_to_set(items_model(old(items)@), items_model(vals@)),
        !unique ==> items_model(final(items)@) == items_model(old(items)@) + items_model(vals@),
{
    let ghost orig = items_model(items@);
    let ghost all = items_model(vals@);
    let mut rest = vals;
    proof {
        lemma_items_model(rest@);
    }
    while rest.len() > 0
        invariant
            unique ==> added_to_set(items_model(items@), items_model(rest@)) == added_to_set(orig, all),
            !unique ==> items_model(items@) + items_model(rest@) == orig + all,
        decreases rest@.len(),
    {
        let ghost before = rest@;
        let ghost cur = items_model(items@);
        let x = rest.remove(0);
        proof {
            lemma_items_model(before);
            lemma_items_model(rest@);
            assert(items_model(before) =~= seq![value_model(x)] + items_model(rest@));
            assert(items_model(before).drop_first() =~= items_model(rest@));
            assert(items_model(before)[0] == value_model(x));
        }
        let skip = unique && holds_equal_exec(items, &x);
        let ghost old_seq = items@;
        if !skip {
            items.push(x);
            proof {
                assert(items@.drop_last() =~= old_seq);
                assert(items_model(items@) =~= cur.push(value_model(x)));
            }
        }
        proof {
            if !unique {
                assert(cur + items_model(before) =~= items_model(items@) + items_model(rest@));
            }
        }
    }
    proof {
        lemma_items_model(rest@);
        assert(items_model(rest@) =~= Seq::<ValueModel>::empty());
        assert(items_model(items@) + Seq::<ValueModel>::empty() =~= items_model(items@));
    }
}


/// What the array operators do to the model of the fields: the array under
/// `field` becomes `f(items)`; a missing field or one that is not an
/// array is left as it is.
pub open spec fn array_field_updated(
    before: Seq<(Seq<char>, ValueModel)>,
    after: Seq<(Seq<char>, ValueModel)>,
    field: Seq<char>,
    f: spec_fn(Seq<ValueModel>) -> Seq<ValueModel>,
) -> bool {
    match model_find(before, key_bytes(field), 0) {
        Some(j) => match before[j as int].1 {
            ValueModel::Array(items) => after == before.update(
                j as int,
                (before[j as int].0, ValueModel::Array(f(items))),
            ),
            _ => after == before,
        },
        None => after == before,
    }
}

/// Append to the array under `field`, creating it when absent; a field
/// that is not an array is a `QuerySyntaxError` with `message`.
fn push_into(fields: &mut FieldMap<ObeValue>, field: &str, values: Vec<ObeValue>, unique: bool, message: &str) -> (r:
    OvnResult<()>)
    ensures
        keys_sorted(old(fields).entries@) ==> keys_sorted(final(fields).entries@),
        ({
            let before = fields_model(old(fields).entries@);
            let after = fields_model(final(fields).entries@);
            let vals = items_model(values@);
            match model_find(before, key_bytes(field@), 0) {
                None => r is Ok && after == model_insert(
                    before,
                    field@,
                    ValueModel::Array(if unique { added_to_set(Seq::empty(), vals) } else { vals }),
                ),
                Some(j) => match before[j as int].1 {
                    ValueModel::Array(items) => r is Ok && after == before.update(
                        j as int,
                        (
                            before[j as int].0,
                            ValueModel::Array(if unique { added_to_set(items, vals) } else { items + vals }),
                        ),
                    ),
                    _ => after == before && (unique ==> r is Ok) && (!unique ==> (r matches Err(
                        OvnError::QuerySyntaxError { position, message: m },
                    ) && position == 0 && m@ == message@)),
                },
            }
        }),
{
    let ghost s = fields.entries@;
    let fb = field.as_bytes();
    assert(fb@ == key_bytes(field@));
    proof {
        lemma_model_find(s, key_bytes(field@), 0);
        lemma_find_key(s, key_bytes(field@), 0);
        lemma_fields_model(s);
    }
    match fields.position(fb) {
        None => {
            let mut items: Vec<ObeValue> = Vec::new();
            proof {
                assert(items_model(items@) =~= Seq::<ValueModel>::empty());
            }
            append_items(&mut items, values, unique);
            proof {
                assert(Seq::<ValueModel>::empty() + items_model(values@) =~= items_model(values@));
            }
            let key = field.to_string();
            let v = ObeValue::Array(items);
            proof {
                lemma_insert_model(s, key, v);
                if keys_sorted(s) {
                    lemma_lookup_after_insert(s, key, v, key_bytes(field@));
                }
            }
            fields.insert(key, v);
            Ok(())
        },
        Some(j) => {
            let (k, v) = fields.entries.remove(j);
            match v {
                ObeValue::Array(items) => {
                    let mut items = items;
                    proof {
                        lemma_items_model(items@);
                    }
                    append_items(&mut items, values, unique);
                    let ghost nv = ObeValue::Array(items);
                    fields.entries.insert(j, (k, ObeValue::Array(items)));
                    proof {
                        assert(fields.entries@ =~= s.update(j as int, (k, nv)));
                        lemma_update_value(s, j as int, (k, nv));
                    }
                    Ok(())
                },
                other => {
                    fields.entries.insert(j, (k, other));
                    assert(fields.entries@ =~= s);
                    if unique {
                        Ok(())
                    } else {
                        Err(OvnError::QuerySyntaxError { position: 0, message: message.to_string() })
                    }
                },
            }
        },
    }
}

/// `$push`: append `value` to the array under `field` (created when
/// absent); a field that is not an array is a `QuerySyntaxError`.
pub fn push(fields: &mut FieldMap<ObeValue>, field: &str, value: ObeValue) -> (r: OvnResult<()>)
    ensures
        keys_sorted(old(fields).entries@) ==> keys_sorted(final(fields).entries@),
        ({
            let before = fields_model(old(fields).entries@);
            let after = fields_model(final(fields).entries@);
            match model_find(before, key_bytes(field@), 0) {
                None => r is Ok && after == model_insert(before, field@, ValueModel::Array(seq![value_model(value)])),
                Some(j) => match before[j as int].1 {
                    ValueModel::Array(items) => r is Ok && after == before.update(
                        j as int,
                        (before[j as int].0, ValueModel::Array(items.push(value_model(value)))),
                    ),
                    _ => after == before && r matches Err(OvnError::QuerySyntaxError { .. }),
                },
            }
        }),
{
    let ghost vm = value_model(value);
    let mut values: Vec<ObeValue> = Vec::new();
    values.push(value);
    proof {
        lemma_items_model(values@);
        assert(items_model(values@) =~= seq![vm]);
        assert(forall|items: Seq<ValueModel>| items + seq![vm] =~= #[trigger] items.push(vm));
    }
    push_into(fields, field, values, false, "$push requires array field")
}

/// `$push` with `$each`: append `values`, in order, to the array under
/// `field` (created when absent); a field that is not an array is a
/// `QuerySyntaxError`.
pub fn push_each(fields: &mut FieldMap<ObeValue>, field: &str, values: Vec<ObeValue>) -> (r: OvnResult<()>)
    ensures
        keys_sorted(old(fields).entries@) ==> keys_sorted(final(fields).entries@),
        ({
            let before = fields_model(old(fields).entries@);
            let after = fields_model(final(fields).entries@);
            match model_find(before, key_bytes(field@), 0) {
                None => r is Ok && after == model_insert(before, field@, ValueModel::Array(items_model(values@))),
                Some(j) => match before[j as int].1 {
                    ValueModel::Array(items) => r is Ok && after == before.update(
                        j as int,
                        (before[j as int].0, ValueModel::Array(items + items_model(values@))),
                    ),
                    _ => after == before && r matches Err(OvnError::QuerySyntaxError { .. }),
                },
            }
        }),
{
    push_into(fields, field, values, false, "$push with $each requires array field")
}

/// `$addToSet` with `$each`: append each of `values` that no item of the
/// array under `field` equals yet (the array is created when absent); a
/// field that is not an array is left alone.
pub fn add_to_set_each(fields: &mut FieldMap<ObeValue>, field: &str, values: Vec<ObeValue>)
    ensures
        keys_sorted(old(fields).entries@) ==> keys_sorted(final(fields).entries@),
        ({
            let before = fields_model(old(fields).entries@);
            let after = fields_model(final(fields).entries@);
            let vals = items_model(values@);
            match model_find(before, key_bytes(field@), 0) {
                None => after == model_insert(before, field@, ValueModel::Array(added_to_set(Seq::empty(), vals))),
                Some(_) => array_field_updated(before, after, field@, |items: Seq<ValueModel>| added_to_set(items, vals)),
            }
        }),
{
    let _ = push_into(fields, field, values, true, "");
}

/// `$addToSet`: append `value` to the array under `field` unless an item
/// equals it (the array is created when absent); a field that is not an
/// array is left alone.
pub fn add_to_set(fields: &mut FieldMap<ObeValue>, field: &str, value: ObeValue)
    ensures
        keys_sorted(old(fields).entries@) ==> keys_sorted(final(fields).entries@),
        ({
            let before = fields_model(old(fields).entries@);
            let after = fields_model(final(fields).entries@);
            let vals = seq![value_model(value)];
            match model_find(before, key_bytes(field@), 0) {
                None => after == model_insert(before, field@, ValueModel::Array(added_to_set(Seq::empty(), vals))),
                Some(_) => array_field_updated(before, after, field@, |items: Seq<ValueModel>| added_to_set(items, vals)),
            }
        }),
{
    let ghost vm = value_model(value);
    let mut values: Vec<ObeValue> = Vec::new();
    values.push(value);
    proof {
        lemma_items_model(values@);
        assert(items_model(values@) =~= seq![vm]);
    }
    add_to_set_each(fields, field, values);
}

/// Replace the array under `field` by `pull_items` of it.
fn pull_from(fields: &mut FieldMap<ObeValue>, field: &str, one: &ObeValue, all: &Vec<ObeValue>, use_all: bool)
    ensures
        keys_sorted(old(fields).entries@) ==> keys_sorted(final(fields).entries@),
        use_all ==> array_field_updated(
            fields_model(old(fields).entries@),
            fields_model(final(fields).entries@),
            field@,
            |items: Seq<ValueModel>| pulled_all(items, items_model(all@)),
        ),
        !use_all ==> array_field_updated(
            fields_model(old(fields).entries@),
            fields_model(final(fields).entries@),
            field@,
            |items: Seq<ValueModel>| pulled(items, value_model(*one)),
        ),
{
    let ghost s = fields.entries@;
    let fb = field.as_bytes();
    assert(fb@ == key_bytes(field@));
    proof {
        lemma_model_find(s, key_bytes(field@), 0);
        lemma_find_key(s, key_bytes(field@), 0);
        lemma_fields_model(s);
    }
    match fields.position(fb) {
        None => {},
        Some(j) => {
            let (k, v) = fields.entries.remove(j);
            match v {
                ObeValue::Array(items) => {
                    let out = pull_items(items, one, all, use_all);
                    let ghost nv = ObeValue::Array(out);
                    fields.entries.insert(j, (k, ObeValue::Array(out)));
                    proof {
                        assert(fields.entries@ =~= s.update(j as int, (k, nv)));
                        lemma_update_value(s, j as int, (k, nv));
                    }
                },
                other => {
                    fields.entries.insert(j, (k, other));
                    assert(fields.entries@ =~= s);
                },
            }
        },
    }
}

/// `$pull`: remove from the array under `field` every item equal to
/// `value`; a missing field or one that is not an array is left alone.
pub fn pull(fields: &mut FieldMap<ObeValue>, field: &str, value: &ObeValue)
    ensures
        keys_sorted(old(fields).entries@) ==> keys_sorted(final(fields).entries@),
        array_field_updated(
            fields_model(old(fields).entries@),
            fields_model(final(fields).entries@),
            field@,
            |items: Seq<ValueModel>| pulled(items, value_model(*value)),
        ),
{
    let none: Vec<ObeValue> = Vec::new();
    pull_from(fields, field, value, &none, false);
}

/// `$pullAll`: remove from the array under `field` every item that one of
/// `values` equals; a missing field or one that is not an array is left
/// alone.
pub fn pull_all(fields: &mut FieldMap<ObeValue>, field: &str, values: &Vec<ObeValue>)
    ensures
        keys_sorted(old(fields).entries@) ==> keys_sorted(final(fields).entries@),
        array_field_updated(
            fields_model(old(fields).entries@),
            fields_model(final(fields).entries@),
            field@,
            |items: Seq<ValueModel>| pulled_all(items, items_model(values@)),
        ),
{
    pull_from(fields, field, &ObeValue::Null, values, true);
}

/// `$pop`: remove the last item (`direction >= 0`) or the first item of
/// the array under `field`; an empty array, a missing field or one that is
/// not an array is left alone.
pub fn pop(fields: &mut FieldMap<ObeValue>, field: &str, direction: i32)
    ensures
        keys_sorted(old(fields).entries@) ==> keys_sorted(final(fields).entries@),
        array_field_updated(
            fields_model(old(fields).entries@),
            fields_model(final(fields).entries@),
            field@,
            |items: Seq<ValueModel>| popped(items, direction),
        ),
{
    let ghost s = fields.entries@;
    let fb = field.as_bytes();
    assert(fb@ == key_bytes(field@));
    proof {
        lemma_model_find(s, key_bytes(field@), 0);
        lemma_find_key(s, key_bytes(field@), 0);
        lemma_fields_model(s);
    }
    match fields.position(fb) {
        None => {},
        Some(j) => {
            let (k, v) = fields.entries.remove(j);
            match v {
                ObeValue::Array(items) => {
                    let mut items = items;
                    let ghost before = items@;
                    proof {
                        lemma_items_model(before);
                    }
                    if items.len() > 0 {
                        if direction >= 0 {
                            items.pop();
                            proof {
                                assert(items@ =~= before.drop_last());
                                lemma_items_model(items@);
                                assert(items_model(items@) =~= items_model(before).drop_last());
                            }
                        } else {
                            items.remove(0);
                            proof {
                                assert(items@ =~= before.drop_first());
                                lemma_items_model(items@);
                                assert(items_model(items@) =~= items_model(before).drop_first());
                            }
                        }
                    }
                    let ghost nv = ObeValue::Array(items);
                    fields.entries.insert(j, (k, ObeValue::Array(items)));
                    proof {
                        assert(fields.entries@ =~= s.update(j as int, (k, nv)));
                        lemma_update_value(s, j as int, (k, nv));
                    }
                },
                other => {
                    fields.entries.insert(j, (k, other));
                    assert(fields.entries@ =~= s);
                },
            }
        },
    }
}

/// `$rename`: move the value of the top-level field `old_field` to
/// `new_field` (replacing what that held); nothing happens when
/// `old_field` is absent.
pub fn rename(fields: &mut FieldMap<ObeValue>, old_field: &str, new_field: &str)
    ensures
        keys_sorted(old(fields).entries@) ==> keys_sorted(final(fields).entries@),
        ({
            let before = fields_model(old(fields).entries@);
            match model_find(before, key_bytes(old_field@), 0) {
                Some(i) => fields_model(final(fields).entries@) == model_insert(
                    before.remove(i as int),
                    new_field@,
                    before[i as int].1,
                ),
                None => fields_model(final(fields).entries@) == before,
            }
        }),
{
    let ghost s = fields.entries@;
    proof {
        lemma_model_find(s, key_bytes(old_field@), 0);
        lemma_find_key(s, key_bytes(old_field@), 0);
        lemma_fields_model(s);
    }
    match fields.remove(old_field) {
        Some(value) => {
            let ghost t = fields.entries@;
            let key = new_field.to_string();
            proof {
                lemma_fields_model(t);
                assert(fields_model(t) =~= fields_model(s).remove(find_key(s, key_bytes(old_field@), 0)->0 as int));
                lemma_insert_model(t, key, value);
            }
            fields.insert(key, value);
        },
        None => {},
    }
}

/// `$currentDate` at time `now_ms`: set the top-level field to a timestamp.
pub fn current_date_at(fields: &mut FieldMap<ObeValue>, field: &str, now_ms: u64)
    ensures
        keys_sorted(old(fields).entries@) ==> keys_sorted(final(fields).entries@),
        fields_model(final(fields).entries@) == model_insert(
            fields_model(old(fields).entries@),
            field@,
            ValueModel::Timestamp(now_ms),
        ),
{
    let key = field.to_string();
    proof {
        lemma_insert_model(fields.entries@, key, ObeValue::Timestamp(now_ms));
    }
    fields.insert(key, ObeValue::Timestamp(now_ms));
}

/// `$currentDate`: set the top-level field to the current time in
/// milliseconds since the Unix epoch.
pub fn current_date(fields: &mut FieldMap<ObeValue>, field: &str)
    ensures
        keys_sorted(old(fields).entries@) ==> keys_sorted(final(fields).entries@),
        exists|now: u64|
            fields_model(final(fields).entries@) == model_insert(
                fields_model(old(fields).entries@),
                field@,
                ValueModel::Timestamp(now),
            ),
{
    current_date_at(fields, field, crate::clock::unix_time_ms());
}

// ── Laws of the array operators ───────────────────────────────────────────

/// After `$pull`, no item of the array equals the pulled value, and every
/// item left was in the array.
pub proof fn lemma_pulled_excludes(items: Seq<ValueModel>, v: ValueModel)
    ensures
        forall|i: int| 0 <= i < pulled(items, v).len() ==> !model_eq(#[trigger] pulled(items, v)[i], v),
        forall|i: int| 0 <= i < pulled(items, v).len() ==> items.contains(#[trigger] pulled(items, v)[i]),
    decreases items.len(),
{
    if items.len() > 0 {
        lemma_pulled_excludes(items.drop_first(), v);
        let head: Seq<ValueModel> = if model_eq(items[0], v) { Seq::empty() } else { seq![items[0]] };
        let r = pulled(items, v);
        assert(r == head + pulled(items.drop_first(), v));
        assert forall|i: int| 0 <= i < r.len() implies !model_eq(#[trigger] r[i], v) && items.contains(r[i]) by {
            if i < head.len() {
                assert(r[i] == items[0]);
            } else {
                let x = pulled(items.drop_first(), v)[i - head.len()];
                assert(r[i] == x);
                let k = choose|k: int| 0 <= k < items.drop_first().len() && items.drop_first()[k] == x;
                assert(items[k + 1] == x);
            }
        }
    }
}

/// `$addToSet` of a value that an item already equals changes nothing;
/// of one that none equals, appends it.
pub proof fn lemma_add_to_set_one(items: Seq<ValueModel>, v: ValueModel)
    ensures
        holds_equal(items, v) ==> added_to_set(items, seq![v]) == items,
        !holds_equal(items, v) ==> added_to_set(items, seq![v]) == items.push(v),
{
    let rest = seq![v].drop_first();
    assert(rest =~= Seq::<ValueModel>::empty());
    let next = if holds_equal(items, v) { items } else { items.push(v) };
    assert(added_to_set(items, seq![v]) == added_to_set(next, rest));
    assert(added_to_set(next, rest) == next);
}


// ── Update expressions ────────────────────────────────────────────────────

/// A parsed update operation. The operands of `$inc` and `$mul` are the
/// numbers as given (`Int32`, `Int64` or `Float64`).
#[derive(Debug)]
pub enum UpdateOp {
    SetField(String, ObeValue),
    Unset(String),
    Inc(String, ObeValue),
    Mul(String, ObeValue),
    Min(String, ObeValue),
    Max(String, ObeValue),
    Rename(String, String),
    Push(String, ObeValue),
    PushEach(String, Vec<ObeValue>),
    Pull(String, ObeValue),
    PullAll(String, Vec<ObeValue>),
    AddToSet(String, ObeValue),
    AddToSetEach(String, Vec<ObeValue>),
    Pop(String, i32),
    CurrentDate(String),
    SetOnInsert(String, ObeValue),
}

/// What an update operation denotes.
pub enum UpdateOpModel {
    SetField(Seq<char>, ValueModel),
    Unset(Seq<char>),
    Inc(Seq<char>, ValueModel),
    Mul(Seq<char>, ValueModel),
    Min(Seq<char>, ValueModel),
    Max(Seq<char>, ValueModel),
    Rename(Seq<char>, Seq<char>),
    Push(Seq<char>, ValueModel),
    PushEach(Seq<char>, Seq<ValueModel>),
    Pull(Seq<char>, ValueModel),
    PullAll(Seq<char>, Seq<ValueModel>),
    AddToSet(Seq<char>, ValueModel),
    AddToSetEach(Seq<char>, Seq<ValueModel>),
    Pop(Seq<char>, i32),
    CurrentDate(Seq<char>),
    SetOnInsert(Seq<char>, ValueModel),
}

/// The model of an update operation.
pub open spec fn update_op_model(o: UpdateOp) -> UpdateOpModel {
    match o {
        UpdateOp::SetField(f, v) => UpdateOpModel::SetField(f@, value_model(v)),
        UpdateOp::Unset(f) => UpdateOpModel::Unset(f@),
        UpdateOp::Inc(f, v) => UpdateOpModel::Inc(f@, value_model(v)),
        UpdateOp::Mul(f, v) => UpdateOpModel::Mul(f@, value_model(v)),
        UpdateOp::Min(f, v) => UpdateOpModel::Min(f@, value_model(v)),
        UpdateOp::Max(f, v) => UpdateOpModel::Max(f@, value_model(v)),
        UpdateOp::Rename(f, t) => UpdateOpModel::Rename(f@, t@),
        UpdateOp::Push(f, v) => UpdateOpModel::Push(f@, value_model(v)),
        UpdateOp::PushEach(f, vs) => UpdateOpModel::PushEach(f@, items_model(vs@)),
        UpdateOp::Pull(f, v) => UpdateOpModel::Pull(f@, value_model(v)),
        UpdateOp::PullAll(f, vs) => UpdateOpModel::PullAll(f@, items_model(vs@)),
        UpdateOp::AddToSet(f, v) => UpdateOpModel::AddToSet(f@, value_model(v)),
        UpdateOp::AddToSetEach(f, vs) => UpdateOpModel::AddToSetEach(f@, items_model(vs@)),
        UpdateOp::Pop(f, n) => UpdateOpModel::Pop(f@, n),
        UpdateOp::CurrentDate(f) => UpdateOpModel::CurrentDate(f@),
        UpdateOp::SetOnInsert(f, v) => UpdateOpModel::SetOnInsert(f@, value_model(v)),
    }
}

/// The models of a list of update operations, in order.
pub open spec fn update_ops_model(s: Seq<UpdateOp>) -> Seq<UpdateOpModel> {
    s.map_values(|o: UpdateOp| update_op_model(o))
}

/// A number as a JSON number would be: `Int32`, `Int64` or `Float64`.
pub open spec fn is_number(v: ValueModel) -> bool {
    v is Int32 || v is Int64 || v is Float64
}

/// The `$each` list of an operand, when it is a document holding one.
pub open spec fn each_items(v: ValueModel) -> Option<Seq<ValueModel>> {
    match v {
        ValueModel::Document(fs) => match field_named(fs, "$each"@) {
            Some(ValueModel::Array(a)) => Some(a),
            _ => None,
        },
        _ => None,
    }
}

/// How many elements `$pop` takes: an integer operand truncated to 32
/// bits, 1 for anything else.
pub open spec fn pop_count(v: ValueModel) -> i32 {
    match v {
        ValueModel::Int32(x) => x,
        ValueModel::Int64(x) => x as i32,
        _ => 1,
    }
}

/// The operation operator `kind` applies to field `f` with operand `v`.
pub open spec fn field_op_spec(kind: UpdateKind, f: Seq<char>, v: ValueModel) -> Result<UpdateOpModel, QueryErr> {
    match kind {
        UpdateKind::SetField => Ok(UpdateOpModel::SetField(f, v)),
        UpdateKind::Unset => Ok(UpdateOpModel::Unset(f)),
        UpdateKind::Inc => if is_number(v) {
            Ok(UpdateOpModel::Inc(f, v))
        } else {
            Err(QueryErr::Syntax("$inc value must be numeric"@))
        },
        UpdateKind::Mul => if is_number(v) {
            Ok(UpdateOpModel::Mul(f, v))
        } else {
            Err(QueryErr::Syntax("$mul value must be numeric"@))
        },
        UpdateKind::Min => Ok(UpdateOpModel::Min(f, v)),
        UpdateKind::Max => Ok(UpdateOpModel::Max(f, v)),
        UpdateKind::Rename => match v {
            ValueModel::Str(t) => Ok(UpdateOpModel::Rename(f, t)),
            _ => Err(QueryErr::Syntax("$rename value must be a string"@)),
        },
        UpdateKind::Push => match each_items(v) {
            Some(a) => Ok(UpdateOpModel::PushEach(f, a)),
            None => Ok(UpdateOpModel::Push(f, v)),
        },
        UpdateKind::Pull => Ok(UpdateOpModel::Pull(f, v)),
        UpdateKind::PullAll => match v {
            ValueModel::Array(a) => Ok(UpdateOpModel::PullAll(f, a)),
            _ => Ok(UpdateOpModel::PullAll(f, seq![v])),
        },
        UpdateKind::AddToSet => match each_items(v) {
            Some(a) => Ok(UpdateOpModel::AddToSetEach(f, a)),
            None => Ok(UpdateOpModel::AddToSet(f, v)),
        },
        UpdateKind::Pop => Ok(UpdateOpModel::Pop(f, pop_count(v))),
        UpdateKind::CurrentDate => Ok(UpdateOpModel::CurrentDate(f)),
        UpdateKind::SetOnInsert => Ok(UpdateOpModel::SetOnInsert(f, v)),
    }
}

/// The operations of operator `op` over its field entries, in order; the
/// operator name is checked at each field (so an unknown operator with no
/// fields is no error).
pub open spec fn field_ops_spec(op: Seq<char>, fields: Seq<(Seq<char>, ValueModel)>) -> Result<
    Seq<UpdateOpModel>,
    QueryErr,
>
    decreases fields.len(),
{
    if fields.len() == 0 {
        Ok(Seq::empty())
    } else {
        match field_ops_spec(op, fields.drop_last()) {
            Err(e) => Err(e),
            Ok(ops) => match update_kind_named(op) {
                None => Err(QueryErr::Unknown(op)),
                Some(kind) => match field_op_spec(kind, fields.last().0, fields.last().1) {
                    Ok(o) => Ok(ops.push(o)),
                    Err(e) => Err(e),
                },
            },
        }
    }
}

/// The operations of the operator entries of an update document, in order.
pub open spec fn update_entries_spec(es: Seq<(Seq<char>, ValueModel)>) -> Result<Seq<UpdateOpModel>, QueryErr>
    decreases es.len(),
{
    if es.len() == 0 {
        Ok(Seq::empty())
    } else {
        match update_entries_spec(es.drop_last()) {
            Err(e) => Err(e),
            Ok(ops) => match es.last().1 {
                ValueModel::Document(fields) => match field_ops_spec(es.last().0, fields) {
                    Ok(more) => Ok(ops + more),
                    Err(e) => Err(e),
                },
                _ => Err(QueryErr::Syntax(es.last().0 + " value must be an object"@)),
            },
        }
    }
}

/// The operations an update expression denotes.
pub open spec fn update_spec(m: ValueModel) -> Result<Seq<UpdateOpModel>, QueryErr> {
    match m {
        ValueModel::Document(es) => update_entries_spec(es),
        _ => Err(QueryErr::Syntax("Update expression must be a JSON object"@)),
    }
}

/// `r` is what parsing the update expression `m` answers.
pub open spec fn update_parsed(m: ValueModel, r: OvnResult<Vec<UpdateOp>>) -> bool {
    match update_spec(m) {
        Ok(ops) => r matches Ok(v) && update_ops_model(v@) == ops,
        Err(q) => r matches Err(e) && query_error(e, q),
    }
}

/// A refused prefix of fields refuses the operator.
proof fn lemma_field_ops_err(op: Seq<char>, fields: Seq<(Seq<char>, ValueModel)>, n: int)
    requires
        0 <= n <= fields.len(),
        field_ops_spec(op, fields.take(n)) is Err,
    ensures
        field_ops_spec(op, fields) == field_ops_spec(op, fields.take(n)),
    decreases fields.len() - n,
{
    if n < fields.len() {
        assert(fields.take(n + 1).drop_last() =~= fields.take(n));
        lemma_field_ops_err(op, fields, n + 1);
    } else {
        assert(fields.take(n) =~= fields);
    }
}

/// A refused prefix of operator entries refuses the expression.
proof fn lemma_update_entries_err(es: Seq<(Seq<char>, ValueModel)>, n: int)
    requires
        0 <= n <= es.len(),
        update_entries_spec(es.take(n)) is Err,
    ensures
        update_entries_spec(es) == update_entries_spec(es.take(n)),
    decreases es.len() - n,
{
    if n < es.len() {
        assert(es.take(n + 1).drop_last() =~= es.take(n));
        lemma_update_entries_err(es, n + 1);
    } else {
        assert(es.take(n) =~= es);
    }
}

/// Copies of a list of values.
pub fn copy_values(a: &Vec<ObeValue>) -> (r: Vec<ObeValue>)
    ensures
        items_model(r@) == items_model(a@),
{
    proof {
        lemma_items_model(a@);
    }
    let mut r: Vec<ObeValue> = Vec::new();
    let mut i: usize = 0;
    while i < a.len()
        invariant
            i <= a@.len(),
            items_model(a@).len() == a@.len(),
            forall|j: int| 0 <= j < a@.len() ==> #[trigger] items_model(a@)[j] == value_model(a@[j]),
            items_model(r@) == items_model(a@).take(i as int),
        decreases a@.len() - i,
    {
        let ghost before = r@;
        r.push(copy_value(&a[i]));
        assert(r@.drop_last() =~= before);
        assert(items_model(a@).take(i + 1) =~= items_model(a@).take(i as int).push(value_model(a@[i as int])));
        i = i + 1;
    }
    assert(items_model(a@).take(i as int) =~= items_model(a@));
    r
}

/// The `$each` list of an operand, copied.
fn each_list(v: &ObeValue) -> (r: Option<Vec<ObeValue>>)
    ensures
        match each_items(value_model(*v)) {
            Some(a) => r matches Some(x) && items_model(x@) == a,
            None => r is None,
        },
{
    match v {
        ObeValue::Document(m) => match find_field(&m.entries, "$each") {
            Some(ObeValue::Array(a)) => Some(copy_values(a)),
            _ => None,
        },
        _ => None,
    }
}

/// The operation operator `kind` applies to field `f` with operand `v`.
fn parse_field_op(kind: UpdateKind, f: &str, v: &ObeValue) -> (r: OvnResult<UpdateOp>)
    ensures
        match field_op_spec(kind, f@, value_model(*v)) {
            Ok(o) => r matches Ok(x) && update_op_model(x) == o,
            Err(q) => r matches Err(e) && query_error(e, q),
        },
{
    let name = copy_string(f);
    match kind {
        UpdateKind::SetField => Ok(UpdateOp::SetField(name, copy_value(v))),
        UpdateKind::Unset => Ok(UpdateOp::Unset(name)),
        UpdateKind::Inc => match v {
            ObeValue::Int32(_) | ObeValue::Int64(_) | ObeValue::Float64(_) => Ok(UpdateOp::Inc(name, copy_value(v))),
            _ => Err(syntax_error("$inc value must be numeric")),
        },
        UpdateKind::Mul => match v {
            ObeValue::Int32(_) | ObeValue::Int64(_) | ObeValue::Float64(_) => Ok(UpdateOp::Mul(name, copy_value(v))),
            _ => Err(syntax_error("$mul value must be numeric")),
        },
        UpdateKind::Min => Ok(UpdateOp::Min(name, copy_value(v))),
        UpdateKind::Max => Ok(UpdateOp::Max(name, copy_value(v))),
        UpdateKind::Rename => match v {
            ObeValue::String(t) => Ok(UpdateOp::Rename(name, copy_string(t.as_str()))),
            _ => Err(syntax_error("$rename value must be a string")),
        },
        UpdateKind::Push => match each_list(v) {
            Some(items) => Ok(UpdateOp::PushEach(name, items)),
            None => Ok(UpdateOp::Push(name, copy_value(v))),
        },
        UpdateKind::Pull => Ok(UpdateOp::Pull(name, copy_value(v))),
        UpdateKind::PullAll => match v {
            ObeValue::Array(a) => Ok(UpdateOp::PullAll(name, copy_values(a))),
            _ => {
                let mut one: Vec<ObeValue> = Vec::new();
                one.push(copy_value(v));
                proof {
                    lemma_items_model(one@);
                    assert(items_model(one@) =~= seq![value_model(*v)]);
                }
                Ok(UpdateOp::PullAll(name, one))
            },
        },
        UpdateKind::AddToSet => match each_list(v) {
            Some(items) => Ok(UpdateOp::AddToSetEach(name, items)),
            None => Ok(UpdateOp::AddToSet(name, copy_value(v))),
        },
        UpdateKind::Pop => {
            let n: i32 = match v {
                ObeValue::Int32(x) => *x,
                ObeValue::Int64(x) => #[verifier::truncate] (*x as i32),
                _ => 1,
            };
            Ok(UpdateOp::Pop(name, n))
        },
        UpdateKind::CurrentDate => Ok(UpdateOp::CurrentDate(name)),
        UpdateKind::SetOnInsert => Ok(UpdateOp::SetOnInsert(name, copy_value(v))),
    }
}

/// Parse an update expression (the document form of an MQL update, such as
/// `{ "$set": { "a": 1 }, "$inc": { "n": 2 } }`) into its operations, in
/// operator order and then field order. The expression must be a document
/// and each operator's operand a document of fields; `$inc` and `$mul`
/// need numbers and `$rename` a string (`QuerySyntaxError` otherwise); an
/// unknown operator with fields is an `UnknownOperator`.
pub fn parse_update(expr: &ObeValue) -> (r: OvnResult<Vec<UpdateOp>>)
    ensures
        update_parsed(value_model(*expr), r),
{
    let m = match expr {
        ObeValue::Document(m) => m,
        _ => {
            return Err(syntax_error("Update expression must be a JSON object"));
        },
    };
    let ghost es = fields_model(m.entries@);
    proof {
        lemma_fields_model(m.entries@);
        assert(es.take(0) =~= Seq::<(Seq<char>, ValueModel)>::empty());
    }
    let mut ops: Vec<UpdateOp> = Vec::new();
    assert(update_ops_model(ops@) =~= Seq::<UpdateOpModel>::empty());
    let mut i: usize = 0;
    while i < m.entries.len()
        invariant
            i <= m.entries@.len(),
            value_model(*expr) == ValueModel::Document(es),
            es == fields_model(m.entries@),
            es.len() == m.entries@.len(),
            forall|j: int| 0 <= j < es.len() ==> #[trigger] es[j] == (m.entries@[j].0@, value_model(m.entries@[j].1)),
            update_entries_spec(es.take(i as int)) == Ok::<Seq<UpdateOpModel>, QueryErr>(update_ops_model(ops@)),
        decreases m.entries@.len() - i,
    {
        assert(es.take(i + 1).drop_last() =~= es.take(i as int));
        assert(es.take(i + 1).last() == es[i as int]);
        let op_key = m.entries[i].0.as_str();
        let fields = match &m.entries[i].1 {
            ObeValue::Document(fm) => fm,
            _ => {
                let msg = concat_str(copy_string(op_key), " value must be an object");
                proof {
                    assert(!(es[i as int].1 is Document));
                    assert(update_entries_spec(es.take(i + 1)) == Err::<Seq<UpdateOpModel>, QueryErr>(
                        QueryErr::Syntax(op_key@ + " value must be an object"@),
                    ));
                    lemma_update_entries_err(es, i + 1);
                }
                return Err(OvnError::QuerySyntaxError { position: 0, message: msg });
            },
        };
        let ghost fs = fields_model(fields.entries@);
        let ghost before_ops = update_ops_model(ops@);
        assert(es[i as int] == (op_key@, ValueModel::Document(fs)));
        proof {
            lemma_fields_model(fields.entries@);
            assert(fs.take(0) =~= Seq::<(Seq<char>, ValueModel)>::empty());
            assert(before_ops + Seq::<UpdateOpModel>::empty() =~= before_ops);
        }
        let mut k: usize = 0;
        while k < fields.entries.len()
            invariant
                k <= fields.entries@.len(),
                i < m.entries@.len(),
                value_model(*expr) == ValueModel::Document(es),
                es == fields_model(m.entries@),
                es.len() == m.entries@.len(),
                es[i as int] == (op_key@, ValueModel::Document(fs)),
                update_entries_spec(es.take(i as int)) == Ok::<Seq<UpdateOpModel>, QueryErr>(before_ops),
                fs == fields_model(fields.entries@),
                fs.len() == fields.entries@.len(),
                forall|j: int| 0 <= j < fs.len() ==> #[trigger] fs[j] == (fields.entries@[j].0@, value_model(fields.entries@[j].1)),
                field_ops_spec(op_key@, fs.take(k as int)) matches Ok(more) && update_ops_model(ops@) == before_ops + more,
            decreases fields.entries@.len() - k,
        {
            assert(fs.take(k + 1).drop_last() =~= fs.take(k as int));
            assert(fs.take(k + 1).last() == fs[k as int]);
            let kind = match parse_update_kind(op_key) {
                Ok(kind) => kind,
                Err(e) => {
                    proof {
                        lemma_field_ops_err(op_key@, fs, k + 1);
                        assert(field_ops_spec(op_key@, fs) == Err::<Seq<UpdateOpModel>, QueryErr>(QueryErr::Unknown(op_key@)));
                        assert(es.take(i + 1).drop_last() =~= es.take(i as int));
                        assert(es.take(i + 1).last() == es[i as int]);
                        assert(update_entries_spec(es.take(i + 1)) == Err::<Seq<UpdateOpModel>, QueryErr>(QueryErr::Unknown(op_key@)));
                        lemma_update_entries_err(es, i + 1);
                    }
                    return Err(e);
                },
            };
            match parse_field_op(kind, fields.entries[k].0.as_str(), &fields.entries[k].1) {
                Ok(o) => {
                    let ghost prev = ops@;
                    ops.push(o);
                    proof {
                        assert(update_ops_model(ops@) =~= update_ops_model(prev).push(update_op_model(o)));
                        let more = field_ops_spec(op_key@, fs.take(k as int))->Ok_0;
                        assert(before_ops + more.push(update_op_model(o)) =~= (before_ops + more).push(update_op_model(o)));
                    }
                },
                Err(e) => {
                    proof {
                        lemma_field_ops_err(op_key@, fs, k + 1);
                        assert(es.take(i + 1).drop_last() =~= es.take(i as int));
                        assert(es.take(i + 1).last() == es[i as int]);
                        lemma_update_entries_err(es, i + 1);
                    }
                    return Err(e);
                },
            }
            k = k + 1;
        }
        assert(fs.take(k as int) =~= fs);
        assert(es.take(i + 1).drop_last() =~= es.take(i as int));
        assert(es.take(i + 1).last() == es[i as int]);
        i = i + 1;
    }
    assert(es.take(i as int) =~= es);
    Ok(ops)
}

} // verus!
