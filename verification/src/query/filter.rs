//! MQL filters: comparison operators and the filter grammar, read from a
//! document value (`{ "age": { "$gt": 18 } }` and the like).

use vstd::prelude::*;

use crate::codec::str_eq;
use crate::error::{OvnError, OvnResult};
use crate::format::obe::access::copy_value;
use crate::format::obe::value::{fields_model, items_model, lemma_fields_model, lemma_items_model, value_model, ValueModel};
use crate::format::obe::ObeValue;

verus! {

/// Comparison operator of a filter.
#[derive(Debug, Clone, Copy, PartialEq, Eq, Structural)]
pub enum FilterOp {
    Eq,
    Ne,
    Gt,
    Gte,
    Lt,
    Lte,
    In,
    Nin,
    All,
    ElemMatch,
    Size,
    Regex,
    GeoWithin,
    Near,
}

/// The operator an MQL operator name denotes: `$eq`, `$ne`, `$gt`, `$gte`,
/// `$lt`, `$lte`, `$in`, `$nin`, `$all`, `$elemMatch`, `$size`, `$regex`,
/// `$geoWithin`, and `$near` or `$geoNear`.
pub open spec fn op_named(s: Seq<char>) -> Option<FilterOp> {
    if s == "$eq"@ {
        Some(FilterOp::Eq)
    } else if s == "$ne"@ {
        Some(FilterOp::Ne)
    } else if s == "$gt"@ {
        Some(FilterOp::Gt)
    } else if s == "$gte"@ {
        Some(FilterOp::Gte)
    } else if s == "$lt"@ {
        Some(FilterOp::Lt)
    } else if s == "$lte"@ {
        Some(FilterOp::Lte)
    } else if s == "$in"@ {
        Some(FilterOp::In)
    } else if s == "$nin"@ {
        Some(FilterOp::Nin)
    } else if s == "$all"@ {
        Some(FilterOp::All)
    } else if s == "$elemMatch"@ {
        Some(FilterOp::ElemMatch)
    } else if s == "$size"@ {
        Some(FilterOp::Size)
    } else if s == "$regex"@ {
        Some(FilterOp::Regex)
    } else if s == "$geoWithin"@ {
        Some(FilterOp::GeoWithin)
    } else if s == "$near"@ || s == "$geoNear"@ {
        Some(FilterOp::Near)
    } else {
        None
    }
}

/// Each operator name denotes its own operator: `$eq` is `Eq`, `$ne` is
/// `Ne`, `$gt` is `Gt`, `$gte` is `Gte`, `$lt` is `Lt`, `$lte` is `Lte`, and so
/// on; `$near` and `$geoNear` both denote `Near`.
pub proof fn lemma_op_names()
    ensures
        op_named("$eq"@) == Some(FilterOp::Eq),
        op_named("$ne"@) == Some(FilterOp::Ne),
        op_named("$gt"@) == Some(FilterOp::Gt),
        op_named("$gte"@) == Some(FilterOp::Gte),
        op_named("$lt"@) == Some(FilterOp::Lt),
        op_named("$lte"@) == Some(FilterOp::Lte),
        op_named("$in"@) == Some(FilterOp::In),
        op_named("$nin"@) == Some(FilterOp::Nin),
        op_named("$all"@) == Some(FilterOp::All),
        op_named("$elemMatch"@) == Some(FilterOp::ElemMatch),
        op_named("$size"@) == Some(FilterOp::Size),
        op_named("$regex"@) == Some(FilterOp::Regex),
        op_named("$geoWithin"@) == Some(FilterOp::GeoWithin),
        op_named("$near"@) == Some(FilterOp::Near),
        op_named("$geoNear"@) == Some(FilterOp::Near),
{
    reveal_strlit("$eq");
    reveal_strlit("$ne");
    reveal_strlit("$gt");
    reveal_strlit("$gte");
    reveal_strlit("$lt");
    reveal_strlit("$lte");
    reveal_strlit("$in");
    reveal_strlit("$nin");
    reveal_strlit("$all");
    reveal_strlit("$elemMatch");
    reveal_strlit("$size");
    reveal_strlit("$regex");
    reveal_strlit("$geoWithin");
    reveal_strlit("$near");
    reveal_strlit("$geoNear");
    assert("$ne"@ != "$eq"@) by { assert("$ne"@[1] != "$eq"@[1]); }
    assert("$gt"@ != "$eq"@) by { assert("$gt"@[1] != "$eq"@[1]); }
    assert("$gt"@ != "$ne"@) by { assert("$gt"@[1] != "$ne"@[1]); }
    assert("$gte"@ != "$eq"@) by { assert("$gte"@.len() != "$eq"@.len()); }
    assert("$gte"@ != "$ne"@) by { assert("$gte"@.len() != "$ne"@.len()); }
    assert("$gte"@ != "$gt"@) by { assert("$gte"@.len() != "$gt"@.len()); }
    assert("$lt"@ != "$eq"@) by { assert("$lt"@[1] != "$eq"@[1]); }
    assert("$lt"@ != "$ne"@) by { assert("$lt"@[1] != "$ne"@[1]); }
    assert("$lt"@ != "$gt"@) by { assert("$lt"@[1] != "$gt"@[1]); }
    assert("$lt"@ != "$gte"@) by { assert("$lt"@.len() != "$gte"@.len()); }
    assert("$lte"@ != "$eq"@) by { assert("$lte"@.len() != "$eq"@.len()); }
    assert("$lte"@ != "$ne"@) by { assert("$lte"@.len() != "$ne"@.len()); }
    assert("$lte"@ != "$gt"@) by { assert("$lte"@.len() != "$gt"@.len()); }
    assert("$lte"@ != "$gte"@) by { assert("$lte"@[1] != "$gte"@[1]); }
    assert("$lte"@ != "$lt"@) by { assert("$lte"@.len() != "$lt"@.len()); }
    assert("$in"@ != "$eq"@) by { assert("$in"@[1] != "$eq"@[1]); }
    assert("$in"@ != "$ne"@) by { assert("$in"@[1] != "$ne"@[1]); }
    assert("$in"@ != "$gt"@) by { assert("$in"@[1] != "$gt"@[1]); }
    assert("$in"@ != "$gte"@) by { assert("$in"@.len() != "$gte"@.len()); }
    assert("$in"@ != "$lt"@) by { assert("$in"@[1] != "$lt"@[1]); }
    assert("$in"@ != "$lte"@) by { assert("$in"@.len() != "$lte"@.len()); }
    assert("$nin"@ != "$eq"@) by { assert("$nin"@.len() != "$eq"@.len()); }
    assert("$nin"@ != "$ne"@) by { assert("$nin"@.len() != "$ne"@.len()); }
    assert("$nin"@ != "$gt"@) by { assert("$nin"@.len() != "$gt"@.len()); }
    assert("$nin"@ != "$gte"@) by { assert("$nin"@[1] != "$gte"@[1]); }
    assert("$nin"@ != "$lt"@) by { assert("$nin"@.len() != "$lt"@.len()); }
    assert("$nin"@ != "$lte"@) by { assert("$nin"@[1] != "$lte"@[1]); }
    assert("$nin"@ != "$in"@) by { assert("$nin"@.len() != "$in"@.len()); }
    assert("$all"@ != "$eq"@) by { assert("$all"@.len() != "$eq"@.len()); }
    assert("$all"@ != "$ne"@) by { assert("$all"@.len() != "$ne"@.len()); }
    assert("$all"@ != "$gt"@) by { assert("$all"@.len() != "$gt"@.len()); }
    assert("$all"@ != "$gte"@) by { assert("$all"@[1] != "$gte"@[1]); }
    assert("$all"@ != "$lt"@) by { assert("$all"@.len() != "$lt"@.len()); }
    assert("$all"@ != "$lte"@) by { assert("$all"@[1] != "$lte"@[1]); }
    assert("$all"@ != "$in"@) by { assert("$all"@.len() != "$in"@.len()); }
    assert("$all"@ != "$nin"@) by { assert("$all"@[1] != "$nin"@[1]); }
    assert("$elemMatch"@ != "$eq"@) by { assert("$elemMatch"@.len() != "$eq"@.len()); }
    assert("$elemMatch"@ != "$ne"@) by { assert("$elemMatch"@.len() != "$ne"@.len()); }
    assert("$elemMatch"@ != "$gt"@) by { assert("$elemMatch"@.len() != "$gt"@.len()); }
    assert("$elemMatch"@ != "$gte"@) by { assert("$elemMatch"@.len() != "$gte"@.len()); }
    assert("$elemMatch"@ != "$lt"@) by { assert("$elemMatch"@.len() != "$lt"@.len()); }
    assert("$elemMatch"@ != "$lte"@) by { assert("$elemMatch"@.len() != "$lte"@.len()); }
    assert("$elemMatch"@ != "$in"@) by { assert("$elemMatch"@.len() != "$in"@.len()); }
    assert("$elemMatch"@ != "$nin"@) by { assert("$elemMatch"@.len() != "$nin"@.len()); }
    assert("$elemMatch"@ != "$all"@) by { assert("$elemMatch"@.len() != "$all"@.len()); }
    assert("$size"@ != "$eq"@) by { assert("$size"@.len() != "$eq"@.len()); }
    assert("$size"@ != "$ne"@) by { assert("$size"@.len() != "$ne"@.len()); }
    assert("$size"@ != "$gt"@) by { assert("$size"@.len() != "$gt"@.len()); }
    assert("$size"@ != "$gte"@) by { assert("$size"@.len() != "$gte"@.len()); }
    assert("$size"@ != "$lt"@) by { assert("$size"@.len() != "$lt"@.len()); }
    assert("$size"@ != "$lte"@) by { assert("$size"@.len() != "$lte"@.len()); }
    assert("$size"@ != "$in"@) by { assert("$size"@.len() != "$in"@.len()); }
    assert("$size"@ != "$nin"@) by { assert("$size"@.len() != "$nin"@.len()); }
    assert("$size"@ != "$all"@) by { assert("$size"@.len() != "$all"@.len()); }
    assert("$size"@ != "$elemMatch"@) by { assert("$size"@.len() != "$elemMatch"@.len()); }
    assert("$regex"@ != "$eq"@) by { assert("$regex"@.len() != "$eq"@.len()); }
    assert("$regex"@ != "$ne"@) by { assert("$regex"@.len() != "$ne"@.len()); }
    assert("$regex"@ != "$gt"@) by { assert("$regex"@.len() != "$gt"@.len()); }
    assert("$regex"@ != "$gte"@) by { assert("$regex"@.len() != "$gte"@.len()); }
    assert("$regex"@ != "$lt"@) by { assert("$regex"@.len() != "$lt"@.len()); }
    assert("$regex"@ != "$lte"@) by { assert("$regex"@.len() != "$lte"@.len()); }
    assert("$regex"@ != "$in"@) by { assert("$regex"@.len() != "$in"@.len()); }
    assert("$regex"@ != "$nin"@) by { assert("$regex"@.len() != "$nin"@.len()); }
    assert("$regex"@ != "$all"@) by { assert("$regex"@.len() != "$all"@.len()); }
    assert("$regex"@ != "$elemMatch"@) by { assert("$regex"@.len() != "$elemMatch"@.len()); }
    assert("$regex"@ != "$size"@) by { assert("$regex"@.len() != "$size"@.len()); }
    assert("$geoWithin"@ != "$eq"@) by { assert("$geoWithin"@.len() != "$eq"@.len()); }
    assert("$geoWithin"@ != "$ne"@) by { assert("$geoWithin"@.len() != "$ne"@.len()); }
    assert("$geoWithin"@ != "$gt"@) by { assert("$geoWithin"@.len() != "$gt"@.len()); }
    assert("$geoWithin"@ != "$gte"@) by { assert("$geoWithin"@.len() != "$gte"@.len()); }
    assert("$geoWithin"@ != "$lt"@) by { assert("$geoWithin"@.len() != "$lt"@.len()); }
    assert("$geoWithin"@ != "$lte"@) by { assert("$geoWithin"@.len() != "$lte"@.len()); }
    assert("$geoWithin"@ != "$in"@) by { assert("$geoWithin"@.len() != "$in"@.len()); }
    assert("$geoWithin"@ != "$nin"@) by { assert("$geoWithin"@.len() != "$nin"@.len()); }
    assert("$geoWithin"@ != "$all"@) by { assert("$geoWithin"@.len() != "$all"@.len()); }
    assert("$geoWithin"@ != "$elemMatch"@) by { assert("$geoWithin"@[1] != "$elemMatch"@[1]); }
    assert("$geoWithin"@ != "$size"@) by { assert("$geoWithin"@.len() != "$size"@.len()); }
    assert("$geoWithin"@ != "$regex"@) by { assert("$geoWithin"@.len() != "$regex"@.len()); }
    assert("$near"@ != "$eq"@) by { assert("$near"@.len() != "$eq"@.len()); }
    assert("$near"@ != "$ne"@) by { assert("$near"@.len() != "$ne"@.len()); }
    assert("$near"@ != "$gt"@) by { assert("$near"@.len() != "$gt"@.len()); }
    assert("$near"@ != "$gte"@) by { assert("$near"@.len() != "$gte"@.len()); }
    assert("$near"@ != "$lt"@) by { assert("$near"@.len() != "$lt"@.len()); }
    assert("$near"@ != "$lte"@) by { assert("$near"@.len() != "$lte"@.len()); }
    assert("$near"@ != "$in"@) by { assert("$near"@.len() != "$in"@.len()); }
    assert("$near"@ != "$nin"@) by { assert("$near"@.len() != "$nin"@.len()); }
    assert("$near"@ != "$all"@) by { assert("$near"@.len() != "$all"@.len()); }
    assert("$near"@ != "$elemMatch"@) by { assert("$near"@.len() != "$elemMatch"@.len()); }
    assert("$near"@ != "$size"@) by { assert("$near"@[1] != "$size"@[1]); }
    assert("$near"@ != "$regex"@) by { assert("$near"@.len() != "$regex"@.len()); }
    assert("$near"@ != "$geoWithin"@) by { assert("$near"@.len() != "$geoWithin"@.len()); }
    assert("$geoNear"@ != "$eq"@) by { assert("$geoNear"@.len() != "$eq"@.len()); }
    assert("$geoNear"@ != "$ne"@) by { assert("$geoNear"@.len() != "$ne"@.len()); }
    assert("$geoNear"@ != "$gt"@) by { assert("$geoNear"@.len() != "$gt"@.len()); }
    assert("$geoNear"@ != "$gte"@) by { assert("$geoNear"@.len() != "$gte"@.len()); }
    assert("$geoNear"@ != "$lt"@) by { assert("$geoNear"@.len() != "$lt"@.len()); }
    assert("$geoNear"@ != "$lte"@) by { assert("$geoNear"@.len() != "$lte"@.len()); }
    assert("$geoNear"@ != "$in"@) by { assert("$geoNear"@.len() != "$in"@.len()); }
    assert("$geoNear"@ != "$nin"@) by { assert("$geoNear"@.len() != "$nin"@.len()); }
    assert("$geoNear"@ != "$all"@) by { assert("$geoNear"@.len() != "$all"@.len()); }
    assert("$geoNear"@ != "$elemMatch"@) by { assert("$geoNear"@.len() != "$elemMatch"@.len()); }
    assert("$geoNear"@ != "$size"@) by { assert("$geoNear"@.len() != "$size"@.len()); }
    assert("$geoNear"@ != "$regex"@) by { assert("$geoNear"@.len() != "$regex"@.len()); }
    assert("$geoNear"@ != "$geoWithin"@) by { assert("$geoNear"@.len() != "$geoWithin"@.len()); }
    assert("$geoNear"@ != "$near"@) by { assert("$geoNear"@.len() != "$near"@.len()); }
}

/// Only the listed names denote an operator.
pub proof fn lemma_op_named_known(s: Seq<char>)
    requires
        op_named(s) is Some,
    ensures
        s == "$eq"@ || s == "$ne"@ || s == "$gt"@ || s == "$gte"@ || s == "$lt"@ || s == "$lte"@ || s == "$in"@ || s == "$nin"@ || s == "$all"@ || s == "$elemMatch"@ || s == "$size"@ || s == "$regex"@ || s == "$geoWithin"@ || s == "$near"@ || s == "$geoNear"@,
{
}

/// No two operator names denote the same operator, but for the two
/// spellings of `$near`.
pub proof fn lemma_op_names_distinct(s: Seq<char>, t: Seq<char>)
    requires
        op_named(s) is Some,
        op_named(s) == op_named(t),
        !(op_named(s) == Some(FilterOp::Near)),
    ensures
        s == t,
{
    reveal_strlit("$eq");
    reveal_strlit("$ne");
    reveal_strlit("$gt");
    reveal_strlit("$gte");
    reveal_strlit("$lt");
    reveal_strlit("$lte");
    reveal_strlit("$in");
    reveal_strlit("$nin");
    reveal_strlit("$all");
    reveal_strlit("$elemMatch");
    reveal_strlit("$size");
    reveal_strlit("$regex");
    reveal_strlit("$geoWithin");
    reveal_strlit("$near");
    reveal_strlit("$geoNear");
}

impl FilterOp {
    /// Parse an MQL operator name such as `$gt`; any other text is an
    /// `UnknownOperator` error carrying it.
    pub fn parse_op(s: &str) -> (r: OvnResult<FilterOp>)
        ensures
            match op_named(s@) {
                Some(op) => r == Ok::<FilterOp, OvnError>(op),
                None => r matches Err(OvnError::UnknownOperator(t)) && t@ == s@,
            },
    {
        if str_eq(s, "$eq") {
            Ok(FilterOp::Eq)
        } else if str_eq(s, "$ne") {
            Ok(FilterOp::Ne)
        } else if str_eq(s, "$gt") {
            Ok(FilterOp::Gt)
        } else if str_eq(s, "$gte") {
            Ok(FilterOp::Gte)
        } else if str_eq(s, "$lt") {
            Ok(FilterOp::Lt)
        } else if str_eq(s, "$lte") {
            Ok(FilterOp::Lte)
        } else if str_eq(s, "$in") {
            Ok(FilterOp::In)
        } else if str_eq(s, "$nin") {
            Ok(FilterOp::Nin)
        } else if str_eq(s, "$all") {
            Ok(FilterOp::All)
        } else if str_eq(s, "$elemMatch") {
            Ok(FilterOp::ElemMatch)
        } else if str_eq(s, "$size") {
            Ok(FilterOp::Size)
        } else if str_eq(s, "$regex") {
            Ok(FilterOp::Regex)
        } else if str_eq(s, "$geoWithin") {
            Ok(FilterOp::GeoWithin)
        } else if str_eq(s, "$near") || str_eq(s, "$geoNear") {
            Ok(FilterOp::Near)
        } else {
            Err(OvnError::UnknownOperator(s.to_string()))
        }
    }
}

/// The type names a value answers to in `$type`.
pub open spec fn type_matches(v: ObeValue, t: Seq<char>) -> bool {
    if t == "null"@ {
        v is Null
    } else if t == "bool"@ || t == "boolean"@ {
        v is Bool
    } else if t == "int"@ || t == "int32"@ {
        v is Int32
    } else if t == "long"@ || t == "int64"@ {
        v is Int64
    } else if t == "double"@ || t == "float64"@ {
        v is Float64
    } else if t == "string"@ {
        v is String
    } else if t == "array"@ {
        v is Array
    } else if t == "object"@ || t == "document"@ {
        v is Document
    } else if t == "binData"@ || t == "binary"@ {
        v is Binary
    } else if t == "timestamp"@ {
        v is Timestamp
    } else if t == "objectId"@ {
        v is ObjectId
    } else {
        false
    }
}

/// Whether `value` has the type `name` names (`$type`); an unknown
/// name matches nothing.
pub fn match_type(value: &ObeValue, name: &str) -> (b: bool)
    ensures
        b == type_matches(*value, name@),
{
    if str_eq(name, "null") {
        matches!(value, ObeValue::Null)
    } else if str_eq(name, "bool") || str_eq(name, "boolean") {
        matches!(value, ObeValue::Bool(_))
    } else if str_eq(name, "int") || str_eq(name, "int32") {
        matches!(value, ObeValue::Int32(_))
    } else if str_eq(name, "long") || str_eq(name, "int64") {
        matches!(value, ObeValue::Int64(_))
    } else if str_eq(name, "double") || str_eq(name, "float64") {
        matches!(value, ObeValue::Float64(_))
    } else if str_eq(name, "string") {
        matches!(value, ObeValue::String(_))
    } else if str_eq(name, "array") {
        matches!(value, ObeValue::Array(_))
    } else if str_eq(name, "object") || str_eq(name, "document") {
        matches!(value, ObeValue::Document(_))
    } else if str_eq(name, "binData") || str_eq(name, "binary") {
        matches!(value, ObeValue::Binary(_))
    } else if str_eq(name, "timestamp") {
        matches!(value, ObeValue::Timestamp(_))
    } else if str_eq(name, "objectId") {
        matches!(value, ObeValue::ObjectId(_))
    } else {
        false
    }
}


// ── Shapes of query documents ─────────────────────────────────────────────

/// Why a query document was refused: a syntax error with its message, or an
/// unknown operator.
pub enum QueryErr {
    Syntax(Seq<char>),
    Unknown(Seq<char>),
}

/// `e` is the error `q` describes.
pub open spec fn query_error(e: OvnError, q: QueryErr) -> bool {
    match q {
        QueryErr::Syntax(m) => e matches OvnError::QuerySyntaxError { position, message } && position == 0
            && message@ == m,
        QueryErr::Unknown(t) => e matches OvnError::UnknownOperator(s) && s@ == t,
    }
}

/// A syntax error with `message` at position 0.
pub fn syntax_error(message: &str) -> (e: OvnError)
    ensures
        query_error(e, QueryErr::Syntax(message@)),
{
    OvnError::QuerySyntaxError { position: 0, message: message.to_string() }
}

/// A copy of a string.
pub fn copy_string(s: &str) -> (r: String)
    ensures
        r@ == s@,
{
    s.to_string()
}

/// The value of the first field named `k`.
pub open spec fn field_named(fs: Seq<(Seq<char>, ValueModel)>, k: Seq<char>) -> Option<ValueModel>
    decreases fs.len(),
{
    if fs.len() == 0 {
        None
    } else if fs[0].0 == k {
        Some(fs[0].1)
    } else {
        field_named(fs.drop_first(), k)
    }
}

/// The value of the first field of `entries` named `k`.
pub fn find_field<'a>(entries: &'a Vec<(String, ObeValue)>, k: &str) -> (r: Option<&'a ObeValue>)
    ensures
        match field_named(fields_model(entries@), k@) {
            Some(m) => r matches Some(v) && value_model(*v) == m,
            None => r is None,
        },
{
    let ghost fs = fields_model(entries@);
    proof {
        lemma_fields_model(entries@);
        assert(fs.skip(0) =~= fs);
    }
    let mut i: usize = 0;
    while i < entries.len()
        invariant
            i <= entries@.len(),
            fs == fields_model(entries@),
            fs.len() == entries@.len(),
            forall|j: int| 0 <= j < fs.len() ==> #[trigger] fs[j] == (entries@[j].0@, value_model(entries@[j].1)),
            field_named(fs, k@) == field_named(fs.skip(i as int), k@),
        decreases entries@.len() - i,
    {
        assert(fs.skip(i as int).drop_first() =~= fs.skip(i + 1));
        assert(fs.skip(i as int)[0] == fs[i as int]);
        if str_eq(entries[i].0.as_str(), k) {
            return Some(&entries[i].1);
        }
        i = i + 1;
    }
    None
}

// ── Filters ───────────────────────────────────────────────────────────────

/// A parsed filter expression.
#[derive(Debug)]
pub enum Filter {
    MatchAll,
    Comparison(String, FilterOp, ObeValue),
    And(Vec<Filter>),
    Or(Vec<Filter>),
    Not(Box<Filter>),
    Nor(Vec<Filter>),
    Exists(String, bool),
    Type(String, String),
    FullTextSearch(String),
    Expr(ObeValue),
}

/// What a filter denotes.
pub enum FilterModel {
    MatchAll,
    Comparison(Seq<char>, FilterOp, ValueModel),
    And(Seq<FilterModel>),
    Or(Seq<FilterModel>),
    Not(Box<FilterModel>),
    Nor(Seq<FilterModel>),
    Exists(Seq<char>, bool),
    Type(Seq<char>, Seq<char>),
    FullTextSearch(Seq<char>),
    Expr(ValueModel),
}

/// The model of a filter.
pub open spec fn filter_model(f: Filter) -> FilterModel
    decreases f,
{
    match f {
        Filter::MatchAll => FilterModel::MatchAll,
        Filter::Comparison(k, op, v) => FilterModel::Comparison(k@, op, value_model(v)),
        Filter::And(fs) => FilterModel::And(filters_model(fs@)),
        Filter::Or(fs) => FilterModel::Or(filters_model(fs@)),
        Filter::Not(b) => FilterModel::Not(Box::new(filter_model(*b))),
        Filter::Nor(fs) => FilterModel::Nor(filters_model(fs@)),
        Filter::Exists(k, b) => FilterModel::Exists(k@, b),
        Filter::Type(k, t) => FilterModel::Type(k@, t@),
        Filter::FullTextSearch(s) => FilterModel::FullTextSearch(s@),
        Filter::Expr(v) => FilterModel::Expr(value_model(v)),
    }
}

/// The models of a list of filters, in order.
pub open spec fn filters_model(s: Seq<Filter>) -> Seq<FilterModel>
    decreases s,
{
    if s.len() == 0 {
        Seq::empty()
    } else {
        filters_model(s.drop_last()).push(filter_model(s.last()))
    }
}

/// `filters_model` works filter by filter.
pub proof fn lemma_filters_model(s: Seq<Filter>)
    ensures
        filters_model(s).len() == s.len(),
        forall|i: int| 0 <= i < s.len() ==> #[trigger] filters_model(s)[i] == filter_model(s[i]),
    decreases s.len(),
{
    if s.len() > 0 {
        lemma_filters_model(s.drop_last());
    }
}

/// One condition stands alone; several (or none) are joined by `And`.
pub open spec fn single_or_and(cs: Seq<FilterModel>) -> FilterModel {
    if cs.len() == 1 {
        cs[0]
    } else {
        FilterModel::And(cs)
    }
}

/// The search text of a `$text` operand: its `$search` string, or the
/// operand itself when it is a string, else empty.
pub open spec fn text_search(v: ValueModel) -> Seq<char> {
    match v {
        ValueModel::Document(fs) => match field_named(fs, "$search"@) {
            Some(ValueModel::Str(s)) => s,
            _ => Seq::empty(),
        },
        ValueModel::Str(s) => s,
        _ => Seq::empty(),
    }
}

/// The filter a query value denotes: `null` and `{}` match everything, a
/// document is the conjunction of its entries (a single entry stands
/// alone), anything else is refused.
pub open spec fn filter_spec(m: ValueModel) -> Result<FilterModel, QueryErr>
    decreases m, 1nat,
{
    match m {
        ValueModel::Null => Ok(FilterModel::MatchAll),
        ValueModel::Document(fs) => if fs.len() == 0 {
            Ok(FilterModel::MatchAll)
        } else {
            match conds_spec(fs) {
                Ok(cs) => Ok(single_or_and(cs)),
                Err(e) => Err(e),
            }
        },
        _ => Err(QueryErr::Syntax("Filter must be a JSON object"@)),
    }
}

/// The conditions of a filter document's entries, in order; the first
/// refused entry refuses them all.
pub open spec fn conds_spec(fs: Seq<(Seq<char>, ValueModel)>) -> Result<Seq<FilterModel>, QueryErr>
    decreases fs, 1nat,
{
    if fs.len() == 0 {
        Ok(Seq::empty())
    } else {
        match conds_spec(fs.drop_last()) {
            Err(e) => Err(e),
            Ok(cs) => {
                let c = entry_spec(fs.last().0, fs.last().1);
                match c {
                    Ok(f) => Ok(cs.push(f)),
                    Err(e) => Err(e),
                }
            },
        }
    }
}

/// The condition one entry of a filter document states.
pub open spec fn entry_spec(k: Seq<char>, v: ValueModel) -> Result<FilterModel, QueryErr>
    decreases v, 2nat,
{
    if k == "$and"@ {
        match list_spec(v) {
            Some(Ok(l)) => Ok(FilterModel::And(l)),
            Some(Err(e)) => Err(e),
            None => Err(QueryErr::Syntax("$and must be an array"@)),
        }
    } else if k == "$or"@ {
        match list_spec(v) {
            Some(Ok(l)) => Ok(FilterModel::Or(l)),
            Some(Err(e)) => Err(e),
            None => Err(QueryErr::Syntax("$or must be an array"@)),
        }
    } else if k == "$not"@ {
        match filter_spec(v) {
            Ok(f) => Ok(FilterModel::Not(Box::new(f))),
            Err(e) => Err(e),
        }
    } else if k == "$nor"@ {
        match list_spec(v) {
            Some(Ok(l)) => Ok(FilterModel::Nor(l)),
            Some(Err(e)) => Err(e),
            None => Err(QueryErr::Syntax("$nor must be an array"@)),
        }
    } else if k == "$text"@ {
        Ok(FilterModel::FullTextSearch(text_search(v)))
    } else if k == "$expr"@ {
        Ok(FilterModel::Expr(v))
    } else {
        field_filter_spec(k, v)
    }
}

/// The filters of an array operand (`None` when the operand is not an
/// array).
pub open spec fn list_spec(v: ValueModel) -> Option<Result<Seq<FilterModel>, QueryErr>>
    decreases v, 1nat,
{
    match v {
        ValueModel::Array(a) => Some(items_filter_spec(a)),
        _ => None,
    }
}

/// The filters of a list of values, in order; the first refused one
/// refuses them all.
pub open spec fn items_filter_spec(a: Seq<ValueModel>) -> Result<Seq<FilterModel>, QueryErr>
    decreases a, 1nat,
{
    if a.len() == 0 {
        Ok(Seq::empty())
    } else {
        match items_filter_spec(a.drop_last()) {
            Err(e) => Err(e),
            Ok(l) => match filter_spec(a.last()) {
                Ok(f) => Ok(l.push(f)),
                Err(e) => Err(e),
            },
        }
    }
}

/// The condition on `field` that `v` states: a document of operators is
/// the conjunction of them, any other value means equality.
pub open spec fn field_filter_spec(field: Seq<char>, v: ValueModel) -> Result<FilterModel, QueryErr> {
    match v {
        ValueModel::Document(ops) => match op_conds_spec(field, ops) {
            Ok(cs) => Ok(single_or_and(cs)),
            Err(e) => Err(e),
        },
        _ => Ok(FilterModel::Comparison(field, FilterOp::Eq, v)),
    }
}

/// The condition one operator entry states on `field`.
pub open spec fn op_cond_spec(field: Seq<char>, k: Seq<char>, x: ValueModel) -> Result<FilterModel, QueryErr> {
    if k == "$exists"@ {
        Ok(FilterModel::Exists(field, match x {
            ValueModel::Bool(b) => b,
            _ => true,
        }))
    } else if k == "$type"@ {
        Ok(FilterModel::Type(field, match x {
            ValueModel::Str(t) => t,
            _ => "string"@,
        }))
    } else {
        match op_named(k) {
            Some(op) => Ok(FilterModel::Comparison(field, op, x)),
            None => Err(QueryErr::Unknown(k)),
        }
    }
}

/// The conditions of the operator entries on `field`, in order.
pub open spec fn op_conds_spec(field: Seq<char>, ops: Seq<(Seq<char>, ValueModel)>) -> Result<
    Seq<FilterModel>,
    QueryErr,
>
    decreases ops.len(),
{
    if ops.len() == 0 {
        Ok(Seq::empty())
    } else {
        match op_conds_spec(field, ops.drop_last()) {
            Err(e) => Err(e),
            Ok(cs) => match op_cond_spec(field, ops.last().0, ops.last().1) {
                Ok(f) => Ok(cs.push(f)),
                Err(e) => Err(e),
            },
        }
    }
}

/// `r` is what parsing the query value `m` as a filter answers.
pub open spec fn filter_parsed(m: ValueModel, r: OvnResult<Filter>) -> bool {
    match filter_spec(m) {
        Ok(fm) => r matches Ok(f) && filter_model(f) == fm,
        Err(q) => r matches Err(e) && query_error(e, q),
    }
}

/// A refused prefix of entries refuses the whole document.
proof fn lemma_conds_err(fs: Seq<(Seq<char>, ValueModel)>, n: int)
    requires
        0 <= n <= fs.len(),
        conds_spec(fs.take(n)) is Err,
    ensures
        conds_spec(fs) == conds_spec(fs.take(n)),
    decreases fs.len() - n,
{
    if n < fs.len() {
        assert(fs.take(n + 1).drop_last() =~= fs.take(n));
        lemma_conds_err(fs, n + 1);
    } else {
        assert(fs.take(n) =~= fs);
    }
}

/// A refused prefix of items refuses the whole list.
proof fn lemma_items_err(a: Seq<ValueModel>, n: int)
    requires
        0 <= n <= a.len(),
        items_filter_spec(a.take(n)) is Err,
    ensures
        items_filter_spec(a) == items_filter_spec(a.take(n)),
    decreases a.len() - n,
{
    if n < a.len() {
        assert(a.take(n + 1).drop_last() =~= a.take(n));
        lemma_items_err(a, n + 1);
    } else {
        assert(a.take(n) =~= a);
    }
}

/// A refused prefix of operators refuses them all.
proof fn lemma_ops_err(field: Seq<char>, ops: Seq<(Seq<char>, ValueModel)>, n: int)
    requires
        0 <= n <= ops.len(),
        op_conds_spec(field, ops.take(n)) is Err,
    ensures
        op_conds_spec(field, ops) == op_conds_spec(field, ops.take(n)),
    decreases ops.len() - n,
{
    if n < ops.len() {
        assert(ops.take(n + 1).drop_last() =~= ops.take(n));
        lemma_ops_err(field, ops, n + 1);
    } else {
        assert(ops.take(n) =~= ops);
    }
}

/// One condition stands alone; several (or none) are joined by `And`.
fn single_or_and_exec(conds: Vec<Filter>) -> (f: Filter)
    ensures
        filter_model(f) == single_or_and(filters_model(conds@)),
{
    proof {
        lemma_filters_model(conds@);
    }
    let mut conds = conds;
    if conds.len() == 1 {
        let ghost before = conds@;
        let f = conds.pop().unwrap();
        assert(before.drop_last() =~= Seq::<Filter>::empty());
        assert(filters_model(Seq::<Filter>::empty()) =~= Seq::<FilterModel>::empty());
        assert(f == before.last());
        assert(filters_model(before) == filters_model(before.drop_last()).push(filter_model(before.last())));
        assert(filters_model(before)[0] == filter_model(f));
        f
    } else {
        Filter::And(conds)
    }
}

/// The search text of a `$text` operand.
fn text_search_of(v: &ObeValue) -> (s: String)
    ensures
        s@ == text_search(value_model(*v)),
{
    match v {
        ObeValue::Document(m) => match find_field(&m.entries, "$search") {
            Some(ObeValue::String(t)) => copy_string(t.as_str()),
            _ => String::new(),
        },
        ObeValue::String(t) => copy_string(t.as_str()),
        _ => String::new(),
    }
}

/// The condition one operator entry states on `field`.
fn parse_op_cond(field: &str, k: &str, x: &ObeValue) -> (r: OvnResult<Filter>)
    ensures
        match op_cond_spec(field@, k@, value_model(*x)) {
            Ok(fm) => r matches Ok(f) && filter_model(f) == fm,
            Err(q) => r matches Err(e) && query_error(e, q),
        },
{
    if str_eq(k, "$exists") {
        let b = match x {
            ObeValue::Bool(b) => *b,
            _ => true,
        };
        Ok(Filter::Exists(copy_string(field), b))
    } else if str_eq(k, "$type") {
        let t = match x {
            ObeValue::String(t) => copy_string(t.as_str()),
            _ => copy_string("string"),
        };
        Ok(Filter::Type(copy_string(field), t))
    } else {
        match FilterOp::parse_op(k) {
            Ok(op) => Ok(Filter::Comparison(copy_string(field), op, copy_value(x))),
            Err(e) => Err(e),
        }
    }
}

/// The condition on `field` that `v` states.
fn parse_field_filter(field: &str, v: &ObeValue) -> (r: OvnResult<Filter>)
    ensures
        match field_filter_spec(field@, value_model(*v)) {
            Ok(fm) => r matches Ok(f) && filter_model(f) == fm,
            Err(q) => r matches Err(e) && query_error(e, q),
        },
{
    match v {
        ObeValue::Document(m) => {
            let ghost ops = fields_model(m.entries@);
            proof {
                lemma_fields_model(m.entries@);
                assert(ops.take(0) =~= Seq::<(Seq<char>, ValueModel)>::empty());
            }
            let mut conds: Vec<Filter> = Vec::new();
            let mut i: usize = 0;
            while i < m.entries.len()
                invariant
                    i <= m.entries@.len(),
                    value_model(*v) == ValueModel::Document(ops),
                    ops == fields_model(m.entries@),
                    ops.len() == m.entries@.len(),
                    forall|j: int| 0 <= j < ops.len() ==> #[trigger] ops[j] == (m.entries@[j].0@, value_model(m.entries@[j].1)),
                    op_conds_spec(field@, ops.take(i as int)) == Ok::<Seq<FilterModel>, QueryErr>(filters_model(conds@)),
                decreases m.entries@.len() - i,
            {
                assert(ops.take(i + 1).drop_last() =~= ops.take(i as int));
                assert(ops.take(i + 1).last() == ops[i as int]);
                match parse_op_cond(field, m.entries[i].0.as_str(), &m.entries[i].1) {
                    Ok(c) => {
                        let ghost before = conds@;
                        conds.push(c);
                        assert(conds@.drop_last() =~= before);
                    },
                    Err(e) => {
                        proof {
                            lemma_ops_err(field@, ops, i + 1);
                            assert(value_model(*v) == ValueModel::Document(ops));
                        }
                        return Err(e);
                    },
                }
                i = i + 1;
            }
            assert(ops.take(i as int) =~= ops);
            assert(value_model(*v) == ValueModel::Document(ops));
            assert(op_conds_spec(field@, ops) == Ok::<Seq<FilterModel>, QueryErr>(filters_model(conds@)));
            let r = single_or_and_exec(conds);
            assert(field_filter_spec(field@, value_model(*v)) == Ok::<FilterModel, QueryErr>(filter_model(r)));
            Ok(r)
        },
        _ => Ok(Filter::Comparison(copy_string(field), FilterOp::Eq, copy_value(v))),
    }
}

/// The filters of an array operand; `None` when it is not an array.
fn filter_list(v: &ObeValue) -> (r: Option<OvnResult<Vec<Filter>>>)
    ensures
        match list_spec(value_model(*v)) {
            None => r is None,
            Some(Ok(l)) => r matches Some(Ok(x)) && filters_model(x@) == l,
            Some(Err(q)) => r matches Some(Err(e)) && query_error(e, q),
        },
    decreases v, 0nat,
{
    match v {
        ObeValue::Array(a) => {
            let ghost items = items_model(a@);
            proof {
                lemma_items_model(a@);
                assert(items.take(0) =~= Seq::<ValueModel>::empty());
            }
            let mut out: Vec<Filter> = Vec::new();
            let mut j: usize = 0;
            while j < a.len()
                invariant
                    j <= a@.len(),
                    *v is Array,
                    v->Array_0 == *a,
                    items == items_model(a@),
                    items.len() == a@.len(),
                    forall|x: int| 0 <= x < items.len() ==> #[trigger] items[x] == value_model(a@[x]),
                    items_filter_spec(items.take(j as int)) == Ok::<Seq<FilterModel>, QueryErr>(filters_model(out@)),
                decreases a@.len() - j,
            {
                assert(items.take(j + 1).drop_last() =~= items.take(j as int));
                assert(items.take(j + 1).last() == items[j as int]);
                proof {
                    assert(decreases_to!(*v => v->Array_0));
                    assert(decreases_to!(v->Array_0 => v->Array_0@));
                    assert(decreases_to!(v->Array_0@ => v->Array_0@[j as int]));
                }
                match parse_filter(&a[j]) {
                    Ok(f) => {
                        let ghost before = out@;
                        out.push(f);
                        assert(out@.drop_last() =~= before);
                    },
                    Err(e) => {
                        proof {
                            lemma_items_err(items, j + 1);
                        }
                        return Some(Err(e));
                    },
                }
                j = j + 1;
            }
            assert(items.take(j as int) =~= items);
            Some(Ok(out))
        },
        _ => None,
    }
}

/// The condition one entry of a filter document states.
fn parse_entry(k: &str, v: &ObeValue) -> (r: OvnResult<Filter>)
    ensures
        match entry_spec(k@, value_model(*v)) {
            Ok(fm) => r matches Ok(f) && filter_model(f) == fm,
            Err(q) => r matches Err(e) && query_error(e, q),
        },
    decreases v, 2nat,
{
if str_eq(k, "$and") {
        match filter_list(v) {
            Some(Ok(l)) => Ok(Filter::And(l)),
            Some(Err(e)) => Err(e),
            None => Err(syntax_error("$and must be an array")),
        }
    } else if str_eq(k, "$or") {
        match filter_list(v) {
            Some(Ok(l)) => Ok(Filter::Or(l)),
            Some(Err(e)) => Err(e),
            None => Err(syntax_error("$or must be an array")),
        }
    } else if str_eq(k, "$not") {
        match parse_filter(v) {
            Ok(g) => Ok(Filter::Not(Box::new(g))),
            Err(e) => Err(e),
        }
    } else if str_eq(k, "$nor") {
        match filter_list(v) {
            Some(Ok(l)) => Ok(Filter::Nor(l)),
            Some(Err(e)) => Err(e),
            None => Err(syntax_error("$nor must be an array")),
        }
    } else if str_eq(k, "$text") {
        Ok(Filter::FullTextSearch(text_search_of(v)))
    } else if str_eq(k, "$expr") {
        Ok(Filter::Expr(copy_value(v)))
    } else {
        parse_field_filter(k, v)
    }
}

/// Parse a filter from a query value (the document form of an MQL filter,
/// such as `{ "age": { "$gt": 18 } }`). `null` and the empty document match
/// everything; a document is the conjunction of its entries in key order:
/// `$and`, `$or` and `$nor` take arrays of filters, `$not` a filter, `$text`
/// a search, `$expr` an expression kept as it is, and any other key is a
/// field with either a document of operators or a value to equal. Anything
/// else is a `QuerySyntaxError`; an unknown operator an `UnknownOperator`.
pub fn parse_filter(f: &ObeValue) -> (r: OvnResult<Filter>)
    ensures
        filter_parsed(value_model(*f), r),
    decreases f, 1nat,
{
    match f {
        ObeValue::Null => Ok(Filter::MatchAll),
        ObeValue::Document(m) => {
            let ghost fs = fields_model(m.entries@);
            proof {
                lemma_fields_model(m.entries@);
                assert(fs.take(0) =~= Seq::<(Seq<char>, ValueModel)>::empty());
            }
            if m.entries.len() == 0 {
                return Ok(Filter::MatchAll);
            }
            let mut conds: Vec<Filter> = Vec::new();
            let mut i: usize = 0;
            while i < m.entries.len()
                invariant
                    i <= m.entries@.len(),
                    *f is Document,
                    f->Document_0 == *m,
                    fs == fields_model(m.entries@),
                    fs.len() == m.entries@.len(),
                    forall|j: int| 0 <= j < fs.len() ==> #[trigger] fs[j] == (m.entries@[j].0@, value_model(m.entries@[j].1)),
                    conds_spec(fs.take(i as int)) == Ok::<Seq<FilterModel>, QueryErr>(filters_model(conds@)),
                decreases m.entries@.len() - i,
            {
                assert(fs.take(i + 1).drop_last() =~= fs.take(i as int));
                assert(fs.take(i + 1).last() == fs[i as int]);
                proof {
                    assert(decreases_to!(*f => f->Document_0));
                    assert(decreases_to!(f->Document_0 => f->Document_0.entries));
                    assert(decreases_to!(f->Document_0.entries => f->Document_0.entries@));
                    assert(decreases_to!(f->Document_0.entries@ => f->Document_0.entries@[i as int]));
                    assert(decreases_to!(f->Document_0.entries@[i as int] => f->Document_0.entries@[i as int].1));
                }
                let c = parse_entry(m.entries[i].0.as_str(), &m.entries[i].1);
                match c {
                    Ok(c) => {
                        let ghost before = conds@;
                        conds.push(c);
                        assert(conds@.drop_last() =~= before);
                    },
                    Err(e) => {
                        proof {
                            lemma_conds_err(fs, i + 1);
                        }
                        return Err(e);
                    },
                }
                i = i + 1;
            }
            assert(fs.take(i as int) =~= fs);
            Ok(single_or_and_exec(conds))
        },
        _ => Err(syntax_error("Filter must be a JSON object")),
    }
}


/// The fields a filter conditions, in order (with repeats).
pub open spec fn filter_fields(f: FilterModel) -> Seq<Seq<char>>
    decreases f,
{
    match f {
        FilterModel::Comparison(k, _, _) => seq![k],
        FilterModel::Exists(k, _) => seq![k],
        FilterModel::Type(k, _) => seq![k],
        FilterModel::And(fs) => list_fields(fs),
        FilterModel::Or(fs) => list_fields(fs),
        FilterModel::Nor(fs) => list_fields(fs),
        FilterModel::Not(b) => filter_fields(*b),
        _ => Seq::empty(),
    }
}

/// The fields of a list of filters, in order.
pub open spec fn list_fields(fs: Seq<FilterModel>) -> Seq<Seq<char>>
    decreases fs,
{
    if fs.len() == 0 {
        Seq::empty()
    } else {
        list_fields(fs.drop_last()) + filter_fields(fs.last())
    }
}

/// The fields of the filters of a list, appended to `out`.
fn list_fields_into(fs: &Vec<Filter>, out: &mut Vec<String>)
    ensures
        final(out)@.map_values(|x: String| x@) == old(out)@.map_values(|x: String| x@) + list_fields(
            filters_model(fs@),
        ),
    decreases fs, 0nat,
{
    proof {
        lemma_filters_model(fs@);
    }
    let ghost start = out@.map_values(|x: String| x@);
    let ghost ms = filters_model(fs@);
    assert(ms.take(0) =~= Seq::<FilterModel>::empty());
    let mut i: usize = 0;
    while i < fs.len()
        invariant
            i <= fs@.len(),
            ms == filters_model(fs@),
            ms.len() == fs@.len(),
            forall|j: int| 0 <= j < fs@.len() ==> #[trigger] ms[j] == filter_model(fs@[j]),
            out@.map_values(|x: String| x@) == start + list_fields(ms.take(i as int)),
        decreases fs@.len() - i,
    {
        proof {
            assert(decreases_to!(*fs => fs@));
            assert(decreases_to!(fs@ => fs@[i as int]));
        }
        fields_into(&fs[i], out);
        proof {
            assert(ms.take(i + 1).drop_last() =~= ms.take(i as int));
            assert(ms.take(i + 1).last() == ms[i as int]);
            assert(start + list_fields(ms.take(i + 1)) =~= start + list_fields(ms.take(i as int)) + filter_fields(
                ms[i as int],
            ));
        }
        i = i + 1;
    }
    assert(ms.take(i as int) =~= ms);
}

/// The fields of a filter, appended to `out`.
fn fields_into(f: &Filter, out: &mut Vec<String>)
    ensures
        final(out)@.map_values(|x: String| x@) == old(out)@.map_values(|x: String| x@) + filter_fields(
            filter_model(*f),
        ),
    decreases f, 1nat,
{
    let ghost before = out@.map_values(|x: String| x@);
    match f {
        Filter::Comparison(k, _, _) | Filter::Exists(k, _) | Filter::Type(k, _) => {
            out.push(copy_string(k.as_str()));
            assert(out@.map_values(|x: String| x@) =~= before + seq![k@]);
        },
        Filter::And(fs) | Filter::Or(fs) | Filter::Nor(fs) => {
            list_fields_into(fs, out);
        },
        Filter::Not(inner) => {
            fields_into(inner, out);
        },
        _ => {
            assert(out@.map_values(|x: String| x@) =~= before + Seq::<Seq<char>>::empty());
        },
    }
}

/// The fields a filter conditions, in order (with repeats): what index
/// selection looks for.
pub fn extract_filter_fields(filter: &Filter) -> (r: Vec<String>)
    ensures
        r@.map_values(|x: String| x@) == filter_fields(filter_model(*filter)),
{
    let mut out: Vec<String> = Vec::new();
    assert(out@.map_values(|x: String| x@) =~= Seq::<Seq<char>>::empty());
    fields_into(filter, &mut out);
    assert(Seq::<Seq<char>>::empty() + filter_fields(filter_model(*filter)) =~= filter_fields(filter_model(*filter)));
    out
}

} // verus!
