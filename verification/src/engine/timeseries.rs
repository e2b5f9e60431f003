//! Time-series collections: measurements are grouped into buckets by their
//! meta field and a time boundary.

use vstd::prelude::*;

use crate::codec::str_eq;
use crate::error::OvnResult;
use crate::format::obe::access::{copy_fields, copy_value, doc_path_value};
use crate::format::obe::document::ObeDocument;
use crate::format::obe::value::{
    fields_model, items_model, key_bytes, keys_sorted, lemma_items_model, lemma_lookup_after_insert,
    lookup, value_model, FieldMap, ObeValue, ValueModel,
};

verus! {

/// A bucket of measurements sharing one meta value and time window.
#[derive(Debug)]
pub struct TimeBucket {
    pub id: [u8; 16],
    pub meta: ObeValue,
    pub min_time: i64,
    pub max_time: i64,
    pub measurements: Vec<ObeDocument>,
}

/// The span of a bucket in milliseconds for a granularity: one second for
/// `seconds`, one minute for `minutes`, one hour otherwise.
pub open spec fn span_of(granularity: Option<Seq<char>>) -> int {
    match granularity {
        Some(g) => if g == "seconds"@ {
            1000
        } else if g == "minutes"@ {
            60000
        } else {
            3600000
        },
        None => 3600000,
    }
}

/// `time` rounded toward zero to a multiple of `span` (integer division that
/// truncates, as `i64` division does).
pub open spec fn truncated_multiple(time: int, span: int) -> int {
    if time >= 0 {
        (time / span) * span
    } else {
        -(((-time) / span) * span)
    }
}

/// The view of an optional string.
pub open spec fn opt_view(o: Option<String>) -> Option<Seq<char>> {
    match o {
        Some(s) => Some(s@),
        None => None,
    }
}

/// The time of a measurement: an `Int64` as is, a `Timestamp` cast to `i64`,
/// anything else (or nothing) 0.
pub open spec fn measurement_time(v: Option<ObeValue>) -> i64 {
    match v {
        Some(ObeValue::Int64(t)) => t,
        Some(ObeValue::Timestamp(t)) => t as i64,
        _ => 0,
    }
}

/// The model of a measurement's meta value: the value at the meta path, or
/// `Null` when there is no meta field or nothing at its path.
pub open spec fn measurement_meta(d: ObeDocument, meta_field: Option<String>) -> ValueModel {
    match meta_field {
        Some(f) => match doc_path_value(d, f@) {
            Some(v) => value_model(v),
            None => ValueModel::Null,
        },
        None => ValueModel::Null,
    }
}

/// The models of the measurements' field maps, each as a document value.
pub open spec fn measurements_model(ms: Seq<ObeDocument>) -> Seq<ValueModel> {
    ms.map_values(|d: ObeDocument| ValueModel::Document(fields_model(d.fields.entries@)))
}

impl TimeBucket {
    /// The stored form of the bucket: a document with the bucket's id and the
    /// fields `meta`, `min_time`, `max_time` and `measurements` (an array of
    /// the measurements' field maps).
    pub fn to_document(&self) -> (r: OvnResult<ObeDocument>)
        ensures
            r matches Ok(d) && {
                &&& d.id == self.id
                &&& d.txid == 0
                &&& !d.tombstone
                &&& keys_sorted(d.fields.entries@)
                &&& lookup(d.fields.entries@, key_bytes("meta"@)) matches Some(v) && value_model(v) == value_model(self.meta)
                &&& lookup(d.fields.entries@, key_bytes("min_time"@)) == Some(ObeValue::Int64(self.min_time))
                &&& lookup(d.fields.entries@, key_bytes("max_time"@)) == Some(ObeValue::Int64(self.max_time))
                &&& lookup(d.fields.entries@, key_bytes("measurements"@)) matches Some(a) && value_model(a) == ValueModel::Array(
                    measurements_model(self.measurements@),
                )
            },
    {
        let mut doc = ObeDocument::with_id(self.id);
        let meta = copy_value(&self.meta);
        let mut arr: Vec<ObeValue> = Vec::new();
        let mut i: usize = 0;
        while i < self.measurements.len()
            invariant
                i <= self.measurements@.len(),
                arr@.len() == i,
                forall|j: int| 0 <= j < i ==> value_model(#[trigger] arr@[j]) == ValueModel::Document(
                    fields_model(self.measurements@[j].fields.entries@),
                ),
            decreases self.measurements@.len() - i,
        {
            let m = copy_fields(&self.measurements[i].fields);
            arr.push(ObeValue::Document(m));
            i = i + 1;
        }
        proof {
            lemma_items_model(arr@);
            assert(items_model(arr@) =~= measurements_model(self.measurements@));
        }
        let ghost mv = meta;
        let ghost av = ObeValue::Array(arr);
        let n0 = "meta".to_string();
        let n1 = "min_time".to_string();
        let n2 = "max_time".to_string();
        let n3 = "measurements".to_string();
        let ghost (g0, g1, g2, g3) = (n0, n1, n2, n3);
        let ghost e0 = doc.fields.entries@;
        doc.set(n0, meta);
        let ghost e1 = doc.fields.entries@;
        doc.set(n1, ObeValue::Int64(self.min_time));
        let ghost e2 = doc.fields.entries@;
        doc.set(n2, ObeValue::Int64(self.max_time));
        let ghost e3 = doc.fields.entries@;
        doc.set(n3, ObeValue::Array(arr));
        proof {
            broadcast use vstd::utf8::encode_utf8_decode_utf8, vstd::utf8::encode_utf8_valid_utf8;

            reveal_strlit("meta");
            reveal_strlit("min_time");
            reveal_strlit("max_time");
            reveal_strlit("measurements");
            let k0 = key_bytes("meta"@);
            let k1 = key_bytes("min_time"@);
            let k2 = key_bytes("max_time"@);
            let k3 = key_bytes("measurements"@);
            assert(vstd::utf8::decode_utf8(k0) == "meta"@);
            assert(vstd::utf8::decode_utf8(k1) == "min_time"@);
            assert(vstd::utf8::decode_utf8(k2) == "max_time"@);
            assert(vstd::utf8::decode_utf8(k3) == "measurements"@);
            assert("meta"@ != "min_time"@);
            assert("meta"@ != "max_time"@);
            assert("meta"@ != "measurements"@);
            assert("min_time"@[1] != "max_time"@[1]);
            assert("min_time"@ != "max_time"@);
            assert("min_time"@ != "measurements"@);
            assert("max_time"@ != "measurements"@);
            assert(keys_sorted(e0));
            lemma_lookup_after_insert(e0, g0, mv, k0);
            lemma_lookup_after_insert(e1, g1, ObeValue::Int64(self.min_time), k0);
            lemma_lookup_after_insert(e1, g1, ObeValue::Int64(self.min_time), k1);
            lemma_lookup_after_insert(e2, g2, ObeValue::Int64(self.max_time), k0);
            lemma_lookup_after_insert(e2, g2, ObeValue::Int64(self.max_time), k1);
            lemma_lookup_after_insert(e2, g2, ObeValue::Int64(self.max_time), k2);
            lemma_lookup_after_insert(e3, g3, av, k0);
            lemma_lookup_after_insert(e3, g3, av, k1);
            lemma_lookup_after_insert(e3, g3, av, k2);
            lemma_lookup_after_insert(e3, g3, av, k3);
        }
        Ok(doc)
    }

    /// The window `[min, max]` of the bucket holding `time`: `min` is `time`
    /// rounded toward zero to a multiple of the granularity's span and
    /// `max = min + span - 1`.
    pub fn calculate_bucket_bounds(time: i64, granularity: &Option<String>) -> (r: (i64, i64))
        requires
            truncated_multiple(time as int, span_of(opt_view(*granularity))) + span_of(opt_view(*granularity)) - 1
                <= i64::MAX,
        ensures
            r.0 == truncated_multiple(time as int, span_of(opt_view(*granularity))),
            r.1 == r.0 + span_of(opt_view(*granularity)) - 1,
    {
        let span: i64 = match granularity {
            Some(g) => if str_eq(g.as_str(), "seconds") {
                1000
            } else if str_eq(g.as_str(), "minutes") {
                60000
            } else {
                3600000
            },
            None => 3600000,
        };
        let min_time: i64 = if time >= 0 {
            let q: i64 = time / span;
            assert(q * span <= time) by (nonlinear_arith)
                requires
                    q == time / span,
                    time >= 0,
                    span > 0,
            ;
            assert(q >= 0) by (nonlinear_arith)
                requires
                    q == time / span,
                    time >= 0,
                    span > 0,
            ;
            assert(q * span >= 0) by (nonlinear_arith)
                requires
                    q >= 0,
                    span > 0,
            ;
            q * span
        } else {
            let pos: i128 = -(time as i128);
            let sp: i128 = span as i128;
            let q: i128 = pos / sp;
            proof {
                assert(q * sp <= pos) by (nonlinear_arith)
                    requires
                        q == pos / sp,
                        pos > 0,
                        sp > 0,
                ;
                assert(q >= 0) by (nonlinear_arith)
                    requires
                        q == pos / sp,
                        pos > 0,
                        sp > 0,
                ;
                assert(q * sp >= 0) by (nonlinear_arith)
                    requires
                        q >= 0,
                        sp > 0,
                ;
            }
            let m: i128 = q * sp;
            (-m) as i64
        };
        assert(span == span_of(opt_view(*granularity)));
        assert(min_time == truncated_multiple(time as int, span as int));
        (min_time, min_time + span - 1)
    }
}

/// Files measurements of time-series collections into buckets.
pub struct TimeSeriesManager;

impl TimeSeriesManager {
    /// The meta value and time of a measurement: the value at `meta_field`
    /// (`Null` when absent) and the time at `time_field` (see
    /// `measurement_time`). The granularity is not consulted.
    pub fn process_measurement(
        doc: &ObeDocument,
        time_field: &str,
        meta_field: &Option<String>,
        _granularity: &Option<String>,
    ) -> (r: OvnResult<(ObeValue, i64)>)
        ensures
            r matches Ok((meta, t)) && {
                &&& t == measurement_time(doc_path_value(*doc, time_field@))
                &&& value_model(meta) == measurement_meta(*doc, *meta_field)
            },
    {
        let time_val: i64 = match doc.get_path(time_field) {
            Some(ObeValue::Int64(t)) => *t,
            Some(ObeValue::Timestamp(t)) => *t as i64,
            _ => 0,
        };
        let meta_val = match meta_field {
            Some(f) => match doc.get_path(f.as_str()) {
                Some(v) => copy_value(v),
                None => ObeValue::Null,
            },
            None => ObeValue::Null,
        };
        Ok((meta_val, time_val))
    }
}

} // verus!
