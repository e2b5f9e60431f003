//! Aggregation pipeline stages that only move documents and fields:
//! `$project`, `$limit`, `$skip`, `$unwind`, `$count` and `$replaceRoot`.

use vstd::prelude::*;
use vstd::string::StrSliceExecFns;

use crate::format::obe::access::{copy_fields, copy_value, doc_path_value};
use crate::format::obe::document::{doc_model, DocModel, ObeDocument};
use crate::format::obe::value::{
    bytes_lt, fields_model, find_key, key_bytes, keys_sorted, lemma_bytes_lt_irreflexive, lemma_fields_model,
    lemma_find_key, lemma_insert_model, model_insert, model_lower_bound, value_model, FieldMap, ObeValue, ValueModel,
};
use crate::codec::{concat_str, str_eq};
use crate::error::{OvnError, OvnResult};
use crate::format::obe::value::{items_model, lemma_items_model};
use crate::query::filter::{copy_string, field_named, find_field, query_error, syntax_error, QueryErr};
use crate::query::update::{copy_values, lemma_model_find, model_find};

verus! {

/// Configuration of an `$unwind` stage.
#[derive(Debug, Clone)]
pub struct UnwindConfig {
    /// Field path (without `$`).
    pub path: String,
    /// Field that receives the array index, if any.
    pub include_array_index: Option<String>,
    /// Emit documents whose field is null, missing or an empty array.
    pub preserve_null_and_empty_arrays: bool,
}

/// The models of a list of documents.
pub open spec fn docs_model(s: Seq<ObeDocument>) -> Seq<DocModel> {
    s.map_values(|d: ObeDocument| doc_model(d))
}

/// The value a field model holds under `k`.
pub open spec fn model_lookup(fs: Seq<(Seq<char>, ValueModel)>, k: Seq<char>) -> Option<ValueModel> {
    match model_find(fs, key_bytes(k), 0) {
        Some(i) => Some(fs[i as int].1),
        None => None,
    }
}

/// The search for the first entry of a field model whose key has the bytes
/// `kb` finds the first such entry from `i`, or says there is none.
proof fn lemma_model_find_first(fs: Seq<(Seq<char>, ValueModel)>, kb: Seq<u8>, i: nat)
    ensures
        match model_find(fs, kb, i) {
            Some(j) => i <= j < fs.len() && key_bytes(fs[j as int].0) == kb && forall|m: int|
                i <= m < j ==> key_bytes(#[trigger] fs[m].0) != kb,
            None => forall|m: int| i <= m < fs.len() ==> key_bytes(#[trigger] fs[m].0) != kb,
        },
    decreases fs.len() - i,
{
    if i < fs.len() && key_bytes(fs[i as int].0) != kb {
        lemma_model_find_first(fs, kb, i + 1);
    }
}

/// The entries before the insertion point of `kb` all have smaller keys.
proof fn lemma_model_lower_bound(fs: Seq<(Seq<char>, ValueModel)>, kb: Seq<u8>, i: nat)
    requires
        i <= fs.len(),
    ensures
        i <= model_lower_bound(fs, kb, i) <= fs.len(),
        forall|m: int| i <= m < model_lower_bound(fs, kb, i) ==> bytes_lt(key_bytes(#[trigger] fs[m].0), kb),
    decreases fs.len() - i,
{
    if i < fs.len() && bytes_lt(key_bytes(fs[i as int].0), kb) {
        lemma_model_lower_bound(fs, kb, i + 1);
    }
}

/// Two field models with the same keys find the same entry.
proof fn lemma_model_find_same_keys(a: Seq<(Seq<char>, ValueModel)>, b: Seq<(Seq<char>, ValueModel)>, kb: Seq<u8>, i: nat)
    requires
        a.len() == b.len(),
        forall|m: int| 0 <= m < a.len() ==> (#[trigger] a[m]).0 == b[m].0,
    ensures
        model_find(a, kb, i) == model_find(b, kb, i),
    decreases a.len() - i,
{
    if i < a.len() {
        assert(a[i as int].0 == b[i as int].0);
        lemma_model_find_same_keys(a, b, kb, i + 1);
    }
}

/// After `v` is set under `k` in a field model, `k` holds `v`, and every key
/// with other bytes holds what it held.
pub proof fn lemma_model_lookup_insert(fs: Seq<(Seq<char>, ValueModel)>, k: Seq<char>, v: ValueModel, o: Seq<char>)
    ensures
        model_lookup(model_insert(fs, k, v), k) == Some(v),
        key_bytes(o) != key_bytes(k) ==> model_lookup(model_insert(fs, k, v), o) == model_lookup(fs, o),
{
    let kb = key_bytes(k);
    let ob = key_bytes(o);
    let j = model_lower_bound(fs, kb, 0);
    lemma_model_lower_bound(fs, kb, 0);
    lemma_bytes_lt_irreflexive(kb);
    let t = model_insert(fs, k, v);
    let hit = j < fs.len() && key_bytes(fs[j as int].0) == kb;
    assert forall|m: int| 0 <= m < j implies key_bytes(#[trigger] fs[m].0) != kb by {
        assert(bytes_lt(key_bytes(fs[m].0), kb));
    }
    lemma_model_find_first(t, kb, 0);
    lemma_model_find_first(fs, ob, 0);
    lemma_model_find_first(t, ob, 0);
    if hit {
        assert(t == fs.update(j as int, (fs[j as int].0, v)));
        assert(key_bytes(t[j as int].0) == kb);
        assert forall|m: int| 0 <= m < j implies key_bytes(#[trigger] t[m].0) != kb by {
            assert(t[m] == fs[m]);
        }
        if model_find(t, kb, 0) != Some(j) {
            match model_find(t, kb, 0) {
                Some(x) => {
                    assert(x > j ==> key_bytes(t[j as int].0) != kb);
                },
                None => {},
            }
        }
        if ob != kb {
            assert forall|m: int| 0 <= m < fs.len() implies (#[trigger] t[m]).0 == fs[m].0 by {}
            lemma_model_find_same_keys(t, fs, ob, 0);
            match model_find(fs, ob, 0) {
                Some(x) => {
                    assert(x != j);
                    assert(t[x as int] == fs[x as int]);
                },
                None => {},
            }
        }
    } else {
        assert(t == fs.insert(j as int, (k, v)));
        assert(key_bytes(t[j as int].0) == kb);
        assert forall|m: int| 0 <= m < j implies key_bytes(#[trigger] t[m].0) != kb by {
            assert(t[m] == fs[m]);
        }
        if model_find(t, kb, 0) != Some(j) {
            match model_find(t, kb, 0) {
                Some(x) => {
                    assert(x > j ==> key_bytes(t[j as int].0) != kb);
                },
                None => {},
            }
        }
        if ob != kb {
            match model_find(fs, ob, 0) {
                Some(x) => {
                    let y: int = if x < j { x as int } else { x as int + 1 };
                    assert(t[y] == fs[x as int]);
                    assert forall|m: int| 0 <= m < y implies key_bytes(#[trigger] t[m].0) != ob by {
                        if m < j {
                            assert(t[m] == fs[m]);
                        } else if m > j {
                            assert(t[m] == fs[m - 1]);
                        }
                    }
                    match model_find(t, ob, 0) {
                        Some(z) => {
                            if z < y {
                                assert(key_bytes(t[z as int].0) != ob);
                            }
                            if z > y {
                                assert(key_bytes(t[y].0) != ob);
                            }
                        },
                        None => {
                            assert(key_bytes(t[y].0) != ob);
                        },
                    }
                },
                None => {
                    match model_find(t, ob, 0) {
                        Some(z) => {
                            if z < j {
                                assert(t[z as int] == fs[z as int]);
                            } else if z > j {
                                assert(t[z as int] == fs[z - 1]);
                            }
                        },
                        None => {},
                    }
                },
            }
        }
    }
}

/// A copy of a document.
pub fn copy_document(d: &ObeDocument) -> (r: ObeDocument)
    ensures
        doc_model(r) == doc_model(*d),
        keys_sorted(d.fields.entries@) ==> keys_sorted(r.fields.entries@),
{
    ObeDocument { id: d.id, txid: d.txid, tombstone: d.tombstone, fields: copy_fields(&d.fields) }
}

/// The value of the top-level field `key` of a document, with its model.
fn field_of<'a>(d: &'a ObeDocument, key: &str) -> (r: Option<&'a ObeValue>)
    ensures
        match model_lookup(fields_model(d.fields.entries@), key@) {
            Some(v) => r matches Some(x) && value_model(*x) == v,
            None => r is None,
        },
{
    proof {
        lemma_model_find(d.fields.entries@, key_bytes(key@), 0);
        lemma_find_key(d.fields.entries@, key_bytes(key@), 0);
        lemma_fields_model(d.fields.entries@);
    }
    d.get(key)
}

// ── $limit and $skip ──────────────────────────────────────────────────────

/// `$limit`: the first `n` documents.
pub fn limit_docs(docs: Vec<ObeDocument>, n: usize) -> (r: Vec<ObeDocument>)
    ensures
        r@ == if n < docs@.len() {
            docs@.take(n as int)
        } else {
            docs@
        },
{
    let mut d = docs;
    d.truncate(n);
    d
}

/// `$skip`: all but the first `n` documents.
pub fn skip_docs(docs: Vec<ObeDocument>, n: usize) -> (r: Vec<ObeDocument>)
    ensures
        r@ == if n < docs@.len() {
            docs@.skip(n as int)
        } else {
            Seq::empty()
        },
{
    if n >= docs.len() {
        Vec::new()
    } else {
        let mut d = docs;
        let tail = d.split_off(n);
        assert(tail@ =~= docs@.skip(n as int));
        tail
    }
}

// ── $count ────────────────────────────────────────────────────────────────

/// `$count`: one new document whose `field` holds how many documents there
/// were.
pub fn count_docs(docs: &Vec<ObeDocument>, field: String) -> (r: Vec<ObeDocument>)
    ensures
        r@.len() == 1,
        r@[0].txid == 0,
        !r@[0].tombstone,
        fields_model(r@[0].fields.entries@) == seq![(field@, ValueModel::Int64(docs@.len() as i64))],
{
    let count = docs.len();
    let mut d = ObeDocument::new();
    let ghost s = d.fields.entries@;
    let v = ObeValue::Int64(count as i64);
    proof {
        lemma_insert_model(s, field, v);
        assert(fields_model(s) =~= Seq::empty());
        assert(model_insert(Seq::empty(), field@, value_model(v)) =~= seq![(field@, value_model(v))]);
    }
    d.set(field, v);
    let mut out: Vec<ObeDocument> = Vec::new();
    out.push(d);
    out
}

// ── $unwind ───────────────────────────────────────────────────────────────

/// `fs` with the array index `k` stored under `index_field`, if one is set.
pub open spec fn with_index(fs: Seq<(Seq<char>, ValueModel)>, index_field: Option<Seq<char>>, k: int) -> Seq<
    (Seq<char>, ValueModel),
> {
    match index_field {
        Some(f) => model_insert(fs, f, ValueModel::Int64(k as i64)),
        None => fs,
    }
}

/// The `k`-th document `$unwind` makes of `d` and the array `items` under
/// `path`.
pub open spec fn unwound_item(
    d: DocModel,
    path: Seq<char>,
    index_field: Option<Seq<char>>,
    items: Seq<ValueModel>,
    k: int,
) -> DocModel {
    DocModel {
        id: d.id,
        txid: d.txid,
        tombstone: d.tombstone,
        fields: with_index(model_insert(d.fields, path, items[k]), index_field, k),
    }
}

/// The documents `$unwind` makes of `d`: one per item of a non-empty array
/// under `path`; `d` itself when the field holds something else; `d`
/// itself or nothing (as `preserve` says) when the field is missing, null
/// or an empty array.
pub open spec fn unwound(d: DocModel, path: Seq<char>, index_field: Option<Seq<char>>, preserve: bool) -> Seq<
    DocModel,
> {
    let kept = if preserve {
        seq![d]
    } else {
        Seq::empty()
    };
    match model_lookup(d.fields, path) {
        Some(ValueModel::Array(items)) => if items.len() > 0 {
            Seq::new(items.len(), |k: int| unwound_item(d, path, index_field, items, k))
        } else {
            kept
        },
        Some(ValueModel::Null) => kept,
        None => kept,
        Some(_) => seq![d],
    }
}

/// `$unwind` over a list of documents, in order.
pub open spec fn unwind_all(docs: Seq<DocModel>, path: Seq<char>, index_field: Option<Seq<char>>, preserve: bool) -> Seq<
    DocModel,
>
    decreases docs.len(),
{
    if docs.len() == 0 {
        Seq::empty()
    } else {
        unwind_all(docs.drop_last(), path, index_field, preserve) + unwound(docs.last(), path, index_field, preserve)
    }
}

/// Whether what a document holds at an `$unwind` path gives nothing to
/// unwind: the path is missing, holds null, or holds an empty array.
pub open spec fn nothing_to_unwind(v: Option<ValueModel>) -> bool {
    ||| v is None
    ||| v == Some(ValueModel::Null)
    ||| (v matches Some(ValueModel::Array(items)) && items.len() == 0)
}

/// `$unwind` over documents that have nothing to unwind at `path` drops
/// them all when `preserve` is off, and keeps them all, unchanged and in
/// order, when it is on.
pub proof fn lemma_unwind_nothing(docs: Seq<DocModel>, path: Seq<char>, index_field: Option<Seq<char>>, preserve: bool)
    requires
        forall|i: int| 0 <= i < docs.len() ==> nothing_to_unwind(model_lookup(#[trigger] docs[i].fields, path)),
    ensures
        unwind_all(docs, path, index_field, preserve) == if preserve {
            docs
        } else {
            Seq::<DocModel>::empty()
        },
    decreases docs.len(),
{
    if docs.len() > 0 {
        let init = docs.drop_last();
        assert forall|i: int| 0 <= i < init.len() implies nothing_to_unwind(model_lookup(#[trigger] init[i].fields, path)) by {
            assert(init[i] == docs[i]);
        }
        lemma_unwind_nothing(init, path, index_field, preserve);
        let d = docs.last();
        assert(nothing_to_unwind(model_lookup(docs[docs.len() - 1].fields, path)));
        if preserve {
            assert(docs =~= init.push(d));
            assert(init + seq![d] =~= init.push(d));
        } else {
            assert(Seq::<DocModel>::empty() + Seq::<DocModel>::empty() =~= Seq::<DocModel>::empty());
        }
    }
}

/// `$unwind` passes through unchanged, in order, every document whose path
/// holds a value that is neither null nor an array, whatever `preserve`
/// says.
pub proof fn lemma_unwind_scalars(docs: Seq<DocModel>, path: Seq<char>, index_field: Option<Seq<char>>, preserve: bool)
    requires
        forall|i: int|
            0 <= i < docs.len() ==> (model_lookup(#[trigger] docs[i].fields, path) matches Some(v) && !(v is Null)
                && !(v is Array)),
    ensures
        unwind_all(docs, path, index_field, preserve) == docs,
    decreases docs.len(),
{
    if docs.len() > 0 {
        let init = docs.drop_last();
        assert forall|i: int|
            0 <= i < init.len() implies (model_lookup(#[trigger] init[i].fields, path) matches Some(v) && !(v is Null)
                && !(v is Array)) by {
            assert(init[i] == docs[i]);
        }
        lemma_unwind_scalars(init, path, index_field, preserve);
        assert(model_lookup(docs[docs.len() - 1].fields, path) matches Some(v) && !(v is Null) && !(v is Array));
        assert(docs =~= init + seq![docs.last()]);
    }
}

/// A document whose path holds a non-empty array becomes one document per
/// item, in order: the `k`-th has the document's id, transaction id and
/// tombstone flag, holds item `k` at the path (unless the index field has
/// the same name), holds `k` in the index field when one is set, and holds
/// what the document held under every other field.
pub proof fn lemma_unwind_array(
    d: DocModel,
    path: Seq<char>,
    index_field: Option<Seq<char>>,
    preserve: bool,
    items: Seq<ValueModel>,
)
    requires
        model_lookup(d.fields, path) == Some(ValueModel::Array(items)),
        items.len() > 0,
    ensures
        unwind_all(seq![d], path, index_field, preserve).len() == items.len(),
        forall|k: int|
            0 <= k < items.len() ==> {
                let e = #[trigger] unwind_all(seq![d], path, index_field, preserve)[k];
                &&& e.id == d.id && e.txid == d.txid && e.tombstone == d.tombstone
                &&& (index_field matches Some(f) ==> key_bytes(f) != key_bytes(path)) ==> model_lookup(e.fields, path)
                    == Some(items[k])
                &&& index_field matches Some(f) ==> model_lookup(e.fields, f) == Some(ValueModel::Int64(k as i64))
                &&& forall|o: Seq<char>|
                    key_bytes(o) != key_bytes(path) && (index_field matches Some(f) ==> key_bytes(o) != key_bytes(f))
                        ==> #[trigger] model_lookup(e.fields, o) == model_lookup(d.fields, o)
            },
{
    let one = seq![d];
    assert(one.drop_last() =~= Seq::<DocModel>::empty());
    assert(one.last() == d);
    assert(unwind_all(one.drop_last(), path, index_field, preserve) == Seq::<DocModel>::empty());
    let u = unwound(d, path, index_field, preserve);
    assert(unwind_all(one, path, index_field, preserve) == Seq::<DocModel>::empty() + u);
    assert(Seq::<DocModel>::empty() + u =~= u);
    assert forall|k: int|
        0 <= k < items.len() implies {
            let e = #[trigger] unwind_all(seq![d], path, index_field, preserve)[k];
            &&& e.id == d.id && e.txid == d.txid && e.tombstone == d.tombstone
            &&& (index_field matches Some(f) ==> key_bytes(f) != key_bytes(path)) ==> model_lookup(e.fields, path)
                == Some(items[k])
            &&& index_field matches Some(f) ==> model_lookup(e.fields, f) == Some(ValueModel::Int64(k as i64))
            &&& forall|o: Seq<char>|
                key_bytes(o) != key_bytes(path) && (index_field matches Some(f) ==> key_bytes(o) != key_bytes(f))
                    ==> #[trigger] model_lookup(e.fields, o) == model_lookup(d.fields, o)
        } by {
        let e = u[k];
        assert(e == unwound_item(d, path, index_field, items, k));
        let f1 = model_insert(d.fields, path, items[k]);
        lemma_model_lookup_insert(d.fields, path, items[k], path);
        match index_field {
            Some(f) => {
                lemma_model_lookup_insert(f1, f, ValueModel::Int64(k as i64), path);
            },
            None => {},
        }
        assert forall|o: Seq<char>|
            key_bytes(o) != key_bytes(path) && (index_field matches Some(f) ==> key_bytes(o) != key_bytes(f))
                implies #[trigger] model_lookup(e.fields, o) == model_lookup(d.fields, o) by {
            lemma_model_lookup_insert(d.fields, path, items[k], o);
            match index_field {
                Some(f) => {
                    lemma_model_lookup_insert(f1, f, ValueModel::Int64(k as i64), o);
                },
                None => {},
            }
        }
    }
}

pub open spec fn opt_chars(o: Option<String>) -> Option<Seq<char>> {
    match o {
        Some(s) => Some(s@),
        None => None,
    }
}

/// Append to `out` the documents `$unwind` makes of `d`.
fn unwind_one(d: &ObeDocument, config: &UnwindConfig, out: &mut Vec<ObeDocument>)
    ensures
        docs_model(final(out)@) == docs_model(old(out)@) + unwound(
            doc_model(*d),
            config.path@,
            opt_chars(config.include_array_index),
            config.preserve_null_and_empty_arrays,
        ),
{
    let ghost dm = doc_model(*d);
    let ghost start = docs_model(out@);
    let ghost idx = opt_chars(config.include_array_index);
    let ghost path = config.path@;
    let preserve = config.preserve_null_and_empty_arrays;
    match field_of(d, config.path.as_str()) {
        Some(ObeValue::Array(arr)) => {
            if arr.len() > 0 {
                let ghost items = crate::format::obe::value::items_model(arr@);
                proof {
                    crate::format::obe::value::lemma_items_model(arr@);
                }
                let mut k: usize = 0;
                while k < arr.len()
                    invariant
                        k <= arr@.len(),
                        items == crate::format::obe::value::items_model(arr@),
                        items.len() == arr@.len(),
                        forall|j: int| 0 <= j < arr@.len() ==> #[trigger] items[j] == value_model(arr@[j]),
                        dm == doc_model(*d),
                        path == config.path@,
                        idx == opt_chars(config.include_array_index),
                        docs_model(out@) == start + Seq::new(k as nat, |j: int| unwound_item(dm, path, idx, items, j)),
                    decreases arr@.len() - k,
                {
                    let mut nd = copy_document(d);
                    let ghost s0 = nd.fields.entries@;
                    let item = copy_value(&arr[k]);
                    let key = config.path.clone();
                    proof {
                        lemma_insert_model(s0, key, item);
                    }
                    nd.set(key, item);
                    match &config.include_array_index {
                        Some(f) => {
                            let ghost s1 = nd.fields.entries@;
                            let fk = f.clone();
                            let iv = ObeValue::Int64(k as i64);
                            proof {
                                lemma_insert_model(s1, fk, iv);
                            }
                            nd.set(fk, iv);
                        },
                        None => {},
                    }
                    let ghost before = docs_model(out@);
                    let ghost nm = doc_model(nd);
                    out.push(nd);
                    proof {
                        assert(nm == unwound_item(dm, path, idx, items, k as int));
                        assert(docs_model(out@) =~= before.push(nm));
                        assert(Seq::new((k + 1) as nat, |j: int| unwound_item(dm, path, idx, items, j)) =~= Seq::new(
                            k as nat,
                            |j: int| unwound_item(dm, path, idx, items, j),
                        ).push(nm));
                    }
                    k = k + 1;
                }
                proof {
                    assert(Seq::new(items.len(), |j: int| unwound_item(dm, path, idx, items, j)) =~= Seq::new(
                        k as nat,
                        |j: int| unwound_item(dm, path, idx, items, j),
                    ));
                }
            } else if preserve {
                let c = copy_document(d);
                let ghost before = docs_model(out@);
                out.push(c);
                assert(docs_model(out@) =~= before + seq![dm]);
            } else {
                assert(docs_model(out@) =~= start + Seq::<DocModel>::empty());
            }
        },
        Some(ObeValue::Null) | None => {
            if preserve {
                let c = copy_document(d);
                let ghost before = docs_model(out@);
                out.push(c);
                assert(docs_model(out@) =~= before + seq![dm]);
            } else {
                assert(docs_model(out@) =~= start + Seq::<DocModel>::empty());
            }
        },
        Some(_) => {
            let c = copy_document(d);
            let ghost before = docs_model(out@);
            out.push(c);
            assert(docs_model(out@) =~= before + seq![dm]);
        },
    }
}

/// `$unwind`: each document becomes one document per item of the array
/// under `config.path` (see `unwound`).
pub fn unwind_docs(docs: &Vec<ObeDocument>, config: &UnwindConfig) -> (r: Vec<ObeDocument>)
    ensures
        docs_model(r@) == unwind_all(
            docs_model(docs@),
            config.path@,
            opt_chars(config.include_array_index),
            config.preserve_null_and_empty_arrays,
        ),
{
    let ghost all = docs_model(docs@);
    let ghost idx = opt_chars(config.include_array_index);
    let mut out: Vec<ObeDocument> = Vec::new();
    let mut i: usize = 0;
    assert(all.take(0) =~= Seq::<DocModel>::empty());
    assert(docs_model(out@) =~= Seq::<DocModel>::empty());
    while i < docs.len()
        invariant
            i <= docs@.len(),
            all == docs_model(docs@),
            idx == opt_chars(config.include_array_index),
            docs_model(out@) == unwind_all(all.take(i as int), config.path@, idx, config.preserve_null_and_empty_arrays),
        decreases docs@.len() - i,
    {
        unwind_one(&docs[i], config, &mut out);
        proof {
            assert(all.take(i + 1).drop_last() =~= all.take(i as int));
            assert(all.take(i + 1).last() == doc_model(docs@[i as int]));
        }
        i = i + 1;
    }
    assert(all.take(docs@.len() as int) =~= all);
    out
}

// ── $project ──────────────────────────────────────────────────────────────

/// Whether a projection includes some field (`true`): it then keeps only
/// those; otherwise it drops the fields it lists.
pub open spec fn has_includes(proj: Seq<(String, bool)>) -> bool {
    exists|i: int| 0 <= i < proj.len() && #[trigger] proj[i].1
}

/// The fields an including projection keeps, inserted in the projection's
/// order.
pub open spec fn included_fields(fs: Seq<(Seq<char>, ValueModel)>, proj: Seq<(String, bool)>) -> Seq<
    (Seq<char>, ValueModel),
>
    decreases proj.len(),
{
    if proj.len() == 0 {
        Seq::empty()
    } else {
        let prev = included_fields(fs, proj.drop_last());
        let f = proj.last().0@;
        if proj.last().1 {
            match model_lookup(fs, f) {
                Some(v) => model_insert(prev, f, v),
                None => prev,
            }
        } else {
            prev
        }
    }
}

/// Whether an excluding projection keeps the field `k`: it is not listed,
/// or listed as `true`.
pub open spec fn exclusion_keeps(proj: Seq<(String, bool)>, k: Seq<char>) -> bool {
    match find_key(proj, key_bytes(k), 0) {
        Some(i) => proj[i as int].1,
        None => true,
    }
}

/// The fields an excluding projection keeps, in the document's order.
pub open spec fn kept_fields(fs: Seq<(Seq<char>, ValueModel)>, proj: Seq<(String, bool)>) -> Seq<
    (Seq<char>, ValueModel),
>
    decreases fs.len(),
{
    if fs.len() == 0 {
        Seq::empty()
    } else {
        let prev = kept_fields(fs.drop_last(), proj);
        if exclusion_keeps(proj, fs.last().0) {
            model_insert(prev, fs.last().0, fs.last().1)
        } else {
            prev
        }
    }
}

/// A document after `$project`: same id and transaction id, live, with the
/// projected fields.
pub open spec fn projected(d: DocModel, proj: Seq<(String, bool)>) -> DocModel {
    DocModel {
        id: d.id,
        txid: d.txid,
        tombstone: false,
        fields: if has_includes(proj) {
            included_fields(d.fields, proj)
        } else {
            kept_fields(d.fields, proj)
        },
    }
}

fn any_included(proj: &FieldMap<bool>) -> (b: bool)
    ensures
        b == has_includes(proj.entries@),
{
    let mut i: usize = 0;
    while i < proj.entries.len()
        invariant
            i <= proj.entries@.len(),
            forall|j: int| 0 <= j < i ==> !proj.entries@[j].1,
        decreases proj.entries@.len() - i,
    {
        if proj.entries[i].1 {
            return true;
        }
        i = i + 1;
    }
    false
}

fn project_one(d: &ObeDocument, proj: &FieldMap<bool>, includes: bool) -> (r: ObeDocument)
    requires
        includes == has_includes(proj.entries@),
    ensures
        doc_model(r) == projected(doc_model(*d), proj.entries@),
{
    let mut nd = ObeDocument::with_id(d.id);
    nd.txid = d.txid;
    let ghost fs = fields_model(d.fields.entries@);
    assert(fields_model(nd.fields.entries@) =~= Seq::empty());
    if includes {
        let mut i: usize = 0;
        assert(proj.entries@.take(0) =~= Seq::<(String, bool)>::empty());
        while i < proj.entries.len()
            invariant
                i <= proj.entries@.len(),
                fs == fields_model(d.fields.entries@),
                nd.id == d.id,
                nd.txid == d.txid,
                !nd.tombstone,
                fields_model(nd.fields.entries@) == included_fields(fs, proj.entries@.take(i as int)),
            decreases proj.entries@.len() - i,
        {
            let ghost pre = proj.entries@.take(i as int);
            proof {
                assert(proj.entries@.take(i + 1).drop_last() =~= pre);
                assert(proj.entries@.take(i + 1).last() == proj.entries@[i as int]);
            }
            if proj.entries[i].1 {
                let f = &proj.entries[i].0;
                match field_of(d, f.as_str()) {
                    Some(v) => {
                        let ghost s0 = nd.fields.entries@;
                        let key = f.clone();
                        let val = copy_value(v);
                        proof {
                            lemma_insert_model(s0, key, val);
                        }
                        nd.set(key, val);
                    },
                    None => {},
                }
            }
            i = i + 1;
        }
        assert(proj.entries@.take(proj.entries@.len() as int) =~= proj.entries@);
    } else {
        let mut i: usize = 0;
        proof {
            lemma_fields_model(d.fields.entries@);
        }
        assert(fs.take(0) =~= Seq::<(Seq<char>, ValueModel)>::empty());
        while i < d.fields.entries.len()
            invariant
                i <= d.fields.entries@.len(),
                fs == fields_model(d.fields.entries@),
                fs.len() == d.fields.entries@.len(),
                forall|j: int|
                    0 <= j < d.fields.entries@.len() ==> #[trigger] fs[j] == (
                        d.fields.entries@[j].0@,
                        value_model(d.fields.entries@[j].1),
                    ),
                nd.id == d.id,
                nd.txid == d.txid,
                !nd.tombstone,
                fields_model(nd.fields.entries@) == kept_fields(fs.take(i as int), proj.entries@),
            decreases d.fields.entries@.len() - i,
        {
            let ghost pre = fs.take(i as int);
            proof {
                assert(fs.take(i + 1).drop_last() =~= pre);
                assert(fs.take(i + 1).last() == fs[i as int]);
            }
            let f = &d.fields.entries[i].0;
            proof {
                lemma_find_key(proj.entries@, key_bytes(f@), 0);
            }
            let keep = match proj.get(f.as_str()) {
                Some(b) => *b,
                None => true,
            };
            if keep {
                let ghost s0 = nd.fields.entries@;
                let key = f.clone();
                let val = copy_value(&d.fields.entries[i].1);
                proof {
                    lemma_insert_model(s0, key, val);
                }
                nd.set(key, val);
            }
            i = i + 1;
        }
        assert(fs.take(d.fields.entries@.len() as int) =~= fs);
    }
    nd
}

/// `$project`: each document keeps the fields the projection includes, or
/// loses those it excludes (see `projected`).
pub fn project_docs(docs: &Vec<ObeDocument>, projection: &FieldMap<bool>) -> (r: Vec<ObeDocument>)
    ensures
        r@.len() == docs@.len(),
        forall|i: int| 0 <= i < docs@.len() ==> doc_model(#[trigger] r@[i]) == projected(doc_model(docs@[i]), projection.entries@),
{
    let includes = any_included(projection);
    let mut out: Vec<ObeDocument> = Vec::new();
    let mut i: usize = 0;
    while i < docs.len()
        invariant
            i <= docs@.len(),
            out@.len() == i,
            includes == has_includes(projection.entries@),
            forall|j: int| 0 <= j < i ==> doc_model(#[trigger] out@[j]) == projected(doc_model(docs@[j]), projection.entries@),
        decreases docs@.len() - i,
    {
        let nd = project_one(&docs[i], projection, includes);
        out.push(nd);
        i = i + 1;
    }
    out
}

// ── $replaceRoot ──────────────────────────────────────────────────────────

/// Insert `entries`, in order, into `s`.
pub open spec fn model_insert_all(s: Seq<(Seq<char>, ValueModel)>, entries: Seq<(Seq<char>, ValueModel)>) -> Seq<
    (Seq<char>, ValueModel),
>
    decreases entries.len(),
{
    if entries.len() == 0 {
        s
    } else {
        model_insert_all(model_insert(s, entries[0].0, entries[0].1), entries.drop_first())
    }
}

/// The fields of the documents `$replaceRoot` makes, one per document whose
/// `path` holds a document.
pub open spec fn replaced_roots(docs: Seq<ObeDocument>, path: Seq<char>) -> Seq<Seq<(Seq<char>, ValueModel)>>
    decreases docs.len(),
{
    if docs.len() == 0 {
        Seq::empty()
    } else {
        replaced_roots(docs.drop_last(), path) + match doc_path_value(docs.last(), path) {
            Some(ObeValue::Document(m)) => seq![model_insert_all(Seq::empty(), fields_model(m.entries@))],
            _ => Seq::empty(),
        }
    }
}

/// The field models of a list of documents.
pub open spec fn fields_of(docs: Seq<ObeDocument>) -> Seq<Seq<(Seq<char>, ValueModel)>> {
    docs.map_values(|d: ObeDocument| fields_model(d.fields.entries@))
}

/// `$replaceRoot`: with an empty path the documents pass unchanged;
/// otherwise each document whose `path` holds a document is replaced by a
/// new live document (with a fresh id) holding that document's fields, and
/// the others are dropped.
pub fn replace_root_docs(docs: Vec<ObeDocument>, path: &str) -> (r: Vec<ObeDocument>)
    ensures
        path@.len() == 0 ==> r@ == docs@,
        path@.len() > 0 ==> fields_of(r@) == replaced_roots(docs@, path@),
        path@.len() > 0 ==> forall|i: int| 0 <= i < r@.len() ==> (#[trigger] r@[i]).txid == 0 && !r@[i].tombstone,
{
    if path.unicode_len() == 0 {
        return docs;
    }
    let mut out: Vec<ObeDocument> = Vec::new();
    let mut i: usize = 0;
    assert(docs@.take(0) =~= Seq::<ObeDocument>::empty());
    assert(fields_of(out@) =~= Seq::empty());
    while i < docs.len()
        invariant
            i <= docs@.len(),
            fields_of(out@) == replaced_roots(docs@.take(i as int), path@),
            forall|j: int| 0 <= j < out@.len() ==> (#[trigger] out@[j]).txid == 0 && !out@[j].tombstone,
        decreases docs@.len() - i,
    {
        proof {
            assert(docs@.take(i + 1).drop_last() =~= docs@.take(i as int));
            assert(docs@.take(i + 1).last() == docs@[i as int]);
        }
        match docs[i].get_path(path) {
            Some(ObeValue::Document(nested)) => {
                let mut nd = ObeDocument::new();
                let ghost nf = fields_model(nested.entries@);
                proof {
                    lemma_fields_model(nested.entries@);
                    assert(fields_model(nd.fields.entries@) =~= Seq::empty());
                    assert(nf.skip(0) =~= nf);
                }
                let mut k: usize = 0;
                while k < nested.entries.len()
                    invariant
                        k <= nested.entries@.len(),
                        nf == fields_model(nested.entries@),
                        nf.len() == nested.entries@.len(),
                        forall|j: int|
                            0 <= j < nested.entries@.len() ==> #[trigger] nf[j] == (
                                nested.entries@[j].0@,
                                value_model(nested.entries@[j].1),
                            ),
                        nd.txid == 0,
                        !nd.tombstone,
                        model_insert_all(Seq::empty(), nf) == model_insert_all(
                            fields_model(nd.fields.entries@),
                            nf.skip(k as int),
                        ),
                    decreases nested.entries@.len() - k,
                {
                    let ghost s0 = nd.fields.entries@;
                    let key = nested.entries[k].0.clone();
                    let val = copy_value(&nested.entries[k].1);
                    proof {
                        lemma_insert_model(s0, key, val);
                        assert(nf.skip(k as int).drop_first() =~= nf.skip(k + 1));
                        assert(nf.skip(k as int)[0] == nf[k as int]);
                    }
                    nd.set(key, val);
                    k = k + 1;
                }
                proof {
                    assert(nf.skip(k as int) =~= Seq::<(Seq<char>, ValueModel)>::empty());
                }
                let ghost before = fields_of(out@);
                let ghost ndf = fields_model(nd.fields.entries@);
                out.push(nd);
                assert(fields_of(out@) =~= before.push(ndf));
                assert(fields_of(out@) =~= before + seq![ndf]);
            },
            _ => {
                assert(fields_of(out@) =~= fields_of(out@) + Seq::<Seq<(Seq<char>, ValueModel)>>::empty());
            },
        }
        i = i + 1;
    }
    assert(docs@.take(docs@.len() as int) =~= docs@);
    out
}


// ── Pipeline stages ───────────────────────────────────────────────────────

/// Configuration of a `$lookup` stage.
#[derive(Debug)]
pub struct LookupConfig {
    pub from: String,
    pub local_field: String,
    pub foreign_field: String,
    pub as_field: String,
    pub pipeline: Option<Vec<ObeValue>>,
}

/// A field path (`"$field"`, kept without the `$`) or a literal.
#[derive(Debug)]
pub enum AccumulatorExpr {
    FieldPath(String),
    Literal(ObeValue),
}

/// Accumulators of `$group`.
#[derive(Debug)]
pub enum Accumulator {
    Sum(AccumulatorExpr),
    Avg(AccumulatorExpr),
    Min(AccumulatorExpr),
    Max(AccumulatorExpr),
    First(AccumulatorExpr),
    Last(AccumulatorExpr),
    Push(AccumulatorExpr),
    AddToSet(AccumulatorExpr),
    Count,
}

/// A stage of an aggregation pipeline. The maps of `$project`,
/// `$addFields` and `$facet` keep the stage document's entries in its order.
#[derive(Debug)]
pub enum AggregateStage {
    Match(ObeValue),
    Group { id_expr: String, accumulators: Vec<(String, Accumulator)> },
    Project(FieldMap<bool>),
    AddFields(FieldMap<ObeValue>),
    Sort(Vec<(String, i32)>),
    Limit(usize),
    Skip(usize),
    Unwind(UnwindConfig),
    Count(String),
    Lookup(LookupConfig),
    ReplaceRoot(String),
    Facet(FieldMap<Vec<AggregateStage>>),
    Bucket(ObeValue),
    Merge(String),
    Out(String),
    SetWindowFields(ObeValue),
}

/// What an accumulator expression denotes.
pub enum AccExprModel {
    FieldPath(Seq<char>),
    Literal(ValueModel),
}

/// What an accumulator denotes.
pub enum AccModel {
    Sum(AccExprModel),
    Avg(AccExprModel),
    Min(AccExprModel),
    Max(AccExprModel),
    First(AccExprModel),
    Last(AccExprModel),
    Push(AccExprModel),
    AddToSet(AccExprModel),
    Count,
}

/// What a stage denotes.
pub enum StageModel {
    Match(ValueModel),
    Group(Seq<char>, Seq<(Seq<char>, AccModel)>),
    Project(Seq<(Seq<char>, bool)>),
    AddFields(Seq<(Seq<char>, ValueModel)>),
    Sort(Seq<(Seq<char>, i32)>),
    Limit(usize),
    Skip(usize),
    Unwind(Seq<char>, Option<Seq<char>>, bool),
    Count(Seq<char>),
    Lookup(Seq<char>, Seq<char>, Seq<char>, Seq<char>, Option<Seq<ValueModel>>),
    ReplaceRoot(Seq<char>),
    Facet(Seq<(Seq<char>, Seq<StageModel>)>),
    Bucket(ValueModel),
    Merge(Seq<char>),
    Out(Seq<char>),
    SetWindowFields(ValueModel),
}

/// The model of an accumulator expression.
pub open spec fn acc_expr_model(e: AccumulatorExpr) -> AccExprModel {
    match e {
        AccumulatorExpr::FieldPath(s) => AccExprModel::FieldPath(s@),
        AccumulatorExpr::Literal(v) => AccExprModel::Literal(value_model(v)),
    }
}

/// The model of an accumulator.
pub open spec fn acc_model(a: Accumulator) -> AccModel {
    match a {
        Accumulator::Sum(e) => AccModel::Sum(acc_expr_model(e)),
        Accumulator::Avg(e) => AccModel::Avg(acc_expr_model(e)),
        Accumulator::Min(e) => AccModel::Min(acc_expr_model(e)),
        Accumulator::Max(e) => AccModel::Max(acc_expr_model(e)),
        Accumulator::First(e) => AccModel::First(acc_expr_model(e)),
        Accumulator::Last(e) => AccModel::Last(acc_expr_model(e)),
        Accumulator::Push(e) => AccModel::Push(acc_expr_model(e)),
        Accumulator::AddToSet(e) => AccModel::AddToSet(acc_expr_model(e)),
        Accumulator::Count => AccModel::Count,
    }
}

/// The models of named accumulators, in order.
pub open spec fn accs_model(s: Seq<(String, Accumulator)>) -> Seq<(Seq<char>, AccModel)> {
    s.map_values(|p: (String, Accumulator)| (p.0@, acc_model(p.1)))
}

/// The model of a stage.
pub open spec fn stage_model(s: AggregateStage) -> StageModel
    decreases s,
{
    match s {
        AggregateStage::Match(v) => StageModel::Match(value_model(v)),
        AggregateStage::Group { id_expr, accumulators } => StageModel::Group(id_expr@, accs_model(accumulators@)),
        AggregateStage::Project(p) => StageModel::Project(p.entries@.map_values(|e: (String, bool)| (e.0@, e.1))),
        AggregateStage::AddFields(m) => StageModel::AddFields(fields_model(m.entries@)),
        AggregateStage::Sort(keys) => StageModel::Sort(keys@.map_values(|e: (String, i32)| (e.0@, e.1))),
        AggregateStage::Limit(n) => StageModel::Limit(n),
        AggregateStage::Skip(n) => StageModel::Skip(n),
        AggregateStage::Unwind(c) => StageModel::Unwind(
            c.path@,
            opt_chars(c.include_array_index),
            c.preserve_null_and_empty_arrays,
        ),
        AggregateStage::Count(f) => StageModel::Count(f@),
        AggregateStage::Lookup(l) => StageModel::Lookup(
            l.from@,
            l.local_field@,
            l.foreign_field@,
            l.as_field@,
            match l.pipeline {
                Some(p) => Some(items_model(p@)),
                None => None,
            },
        ),
        AggregateStage::ReplaceRoot(f) => StageModel::ReplaceRoot(f@),
        AggregateStage::Facet(m) => StageModel::Facet(facets_model(m.entries@)),
        AggregateStage::Bucket(v) => StageModel::Bucket(value_model(v)),
        AggregateStage::Merge(c) => StageModel::Merge(c@),
        AggregateStage::Out(c) => StageModel::Out(c@),
        AggregateStage::SetWindowFields(v) => StageModel::SetWindowFields(value_model(v)),
    }
}

/// The models of the named pipelines of a `$facet`, in order.
pub open spec fn facets_model(s: Seq<(String, Vec<AggregateStage>)>) -> Seq<(Seq<char>, Seq<StageModel>)>
    decreases s,
{
    if s.len() == 0 {
        Seq::empty()
    } else {
        facets_model(s.drop_last()).push((s.last().0@, stages_model(s.last().1@)))
    }
}

/// The models of a list of stages, in order.
pub open spec fn stages_model(s: Seq<AggregateStage>) -> Seq<StageModel>
    decreases s,
{
    if s.len() == 0 {
        Seq::empty()
    } else {
        stages_model(s.drop_last()).push(stage_model(s.last()))
    }
}

/// `s` without its leading `$`, when it has one.
pub open spec fn strip_dollar_spec(s: Seq<char>) -> Option<Seq<char>> {
    if s.len() > 0 && s[0] == '$' {
        Some(s.drop_first())
    } else {
        None
    }
}

/// The string in field `k`, or `d` when there is none.
pub open spec fn str_or(fs: Seq<(Seq<char>, ValueModel)>, k: Seq<char>, d: Seq<char>) -> Seq<char> {
    match field_named(fs, k) {
        Some(ValueModel::Str(s)) => s,
        _ => d,
    }
}

/// An integer operand truncated to 32 bits, `d` for anything else.
pub open spec fn int_or(v: ValueModel, d: i32) -> i32 {
    match v {
        ValueModel::Int32(x) => x,
        ValueModel::Int64(x) => x as i32,
        _ => d,
    }
}

/// A non-negative integer operand.
pub open spec fn count_operand(v: ValueModel) -> Option<usize> {
    match v {
        ValueModel::Int32(x) => if x >= 0 { Some(x as usize) } else { None },
        ValueModel::Int64(x) => if x >= 0 { Some(x as usize) } else { None },
        _ => None,
    }
}

/// Whether a `$project` entry includes its field: a nonzero integer or
/// `true` (or any non-number, non-boolean); a zero, `false` or a
/// non-integer number excludes it.
pub open spec fn include_of(v: ValueModel) -> bool {
    match v {
        ValueModel::Int32(x) => x != 0,
        ValueModel::Int64(x) => x != 0,
        ValueModel::Float64(_) => false,
        ValueModel::Bool(b) => b,
        _ => true,
    }
}

/// The expression of an accumulator operand: a `$`-string is a field path.
pub open spec fn acc_expr_spec(e: ValueModel) -> AccExprModel {
    match e {
        ValueModel::Str(s) => match strip_dollar_spec(s) {
            Some(t) => AccExprModel::FieldPath(t),
            None => AccExprModel::Literal(e),
        },
        _ => AccExprModel::Literal(e),
    }
}

/// The accumulator an operator names (unknown ones count).
pub open spec fn acc_spec(op: Seq<char>, e: ValueModel) -> AccModel {
    let x = acc_expr_spec(e);
    if op == "$sum"@ {
        AccModel::Sum(x)
    } else if op == "$avg"@ {
        AccModel::Avg(x)
    } else if op == "$min"@ {
        AccModel::Min(x)
    } else if op == "$max"@ {
        AccModel::Max(x)
    } else if op == "$first"@ {
        AccModel::First(x)
    } else if op == "$last"@ {
        AccModel::Last(x)
    } else if op == "$push"@ {
        AccModel::Push(x)
    } else if op == "$addToSet"@ {
        AccModel::AddToSet(x)
    } else {
        AccModel::Count
    }
}

/// The named accumulators of a `$group` document's entries (`_id` aside).
pub open spec fn group_accs_spec(fs: Seq<(Seq<char>, ValueModel)>) -> Result<Seq<(Seq<char>, AccModel)>, QueryErr>
    decreases fs.len(),
{
    if fs.len() == 0 {
        Ok(Seq::empty())
    } else {
        match group_accs_spec(fs.drop_last()) {
            Err(e) => Err(e),
            Ok(prev) => {
                let field = fs.last().0;
                if field == "_id"@ {
                    Ok(prev)
                } else {
                    match fs.last().1 {
                        ValueModel::Document(ops) => Ok(
                            prev + ops.map_values(|p: (Seq<char>, ValueModel)| (field, acc_spec(p.0, p.1))),
                        ),
                        _ => Err(QueryErr::Syntax("Accumulator for '"@ + field + "' must be an object"@)),
                    }
                }
            },
        }
    }
}

/// The group key of a `$group` document: its `_id` path without the `$`,
/// else `null`.
pub open spec fn group_id_spec(fs: Seq<(Seq<char>, ValueModel)>) -> Seq<char> {
    match strip_dollar_spec(str_or(fs, "_id"@, "null"@)) {
        Some(t) => t,
        None => "null"@,
    }
}

/// The `$unwind` configuration of an operand.
pub open spec fn unwind_spec(v: ValueModel) -> Result<StageModel, QueryErr> {
    match v {
        ValueModel::Str(s) => Ok(StageModel::Unwind(
            match strip_dollar_spec(s) {
                Some(t) => t,
                None => s,
            },
            None,
            false,
        )),
        ValueModel::Document(fs) => Ok(StageModel::Unwind(
            match field_named(fs, "path"@) {
                Some(ValueModel::Str(p)) => match strip_dollar_spec(p) {
                    Some(t) => t,
                    None => Seq::empty(),
                },
                _ => Seq::empty(),
            },
            match field_named(fs, "includeArrayIndex"@) {
                Some(ValueModel::Str(i)) => Some(i),
                _ => None,
            },
            match field_named(fs, "preserveNullAndEmptyArrays"@) {
                Some(ValueModel::Bool(b)) => b,
                _ => false,
            },
        )),
        _ => Err(QueryErr::Syntax("$unwind must be a string or object"@)),
    }
}

/// The new root of `$replaceRoot` / `$replaceWith`.
pub open spec fn new_root_spec(v: ValueModel) -> Seq<char> {
    match v {
        ValueModel::Document(fs) => match field_named(fs, "newRoot"@) {
            Some(ValueModel::Str(s)) => match strip_dollar_spec(s) {
                Some(t) => t,
                None => Seq::empty(),
            },
            _ => Seq::empty(),
        },
        ValueModel::Str(s) => match strip_dollar_spec(s) {
            Some(t) => t,
            None => s,
        },
        _ => Seq::empty(),
    }
}

/// The target of `$merge`.
pub open spec fn merge_spec(v: ValueModel) -> Seq<char> {
    match v {
        ValueModel::Str(s) => s,
        ValueModel::Document(fs) => str_or(fs, "into"@, ""@),
        _ => Seq::empty(),
    }
}

/// The `$group` stage of an operand.
pub open spec fn group_spec(v: ValueModel) -> Result<StageModel, QueryErr> {
    match v {
        ValueModel::Document(fs) => match group_accs_spec(fs) {
            Ok(accs) => Ok(StageModel::Group(group_id_spec(fs), accs)),
            Err(e) => Err(e),
        },
        _ => Err(QueryErr::Syntax("$group must be an object"@)),
    }
}

/// The `$project` stage of an operand.
pub open spec fn project_spec(v: ValueModel) -> Result<StageModel, QueryErr> {
    match v {
        ValueModel::Document(fs) => Ok(
            StageModel::Project(fs.map_values(|p: (Seq<char>, ValueModel)| (p.0, include_of(p.1)))),
        ),
        _ => Err(QueryErr::Syntax("$project must be an object"@)),
    }
}

/// The `$sort` stage of an operand (direction 1 where none is given).
pub open spec fn sort_spec(v: ValueModel) -> Result<StageModel, QueryErr> {
    match v {
        ValueModel::Document(fs) => Ok(
            StageModel::Sort(fs.map_values(|p: (Seq<char>, ValueModel)| (p.0, int_or(p.1, 1)))),
        ),
        _ => Err(QueryErr::Syntax("$sort must be an object"@)),
    }
}

/// The `$lookup` stage of an operand.
pub open spec fn lookup_spec(v: ValueModel) -> Result<StageModel, QueryErr> {
    match v {
        ValueModel::Document(fs) => Ok(StageModel::Lookup(
            str_or(fs, "from"@, ""@),
            str_or(fs, "localField"@, ""@),
            str_or(fs, "foreignField"@, ""@),
            str_or(fs, "as"@, "joined"@),
            match field_named(fs, "pipeline"@) {
                Some(ValueModel::Array(a)) => Some(a),
                _ => None,
            },
        )),
        _ => Err(QueryErr::Syntax("$lookup must be an object"@)),
    }
}

/// The `$facet` stage of an operand.
pub open spec fn facet_spec(v: ValueModel) -> Result<StageModel, QueryErr> {
    match v {
        ValueModel::Document(fs) => match facet_entries_spec(fs) {
            Ok(f) => Ok(StageModel::Facet(f)),
            Err(e) => Err(e),
        },
        _ => Err(QueryErr::Syntax("$facet must be an object"@)),
    }
}

/// `r` is the answer `s` describes.
pub open spec fn stage_outcome(s: Result<StageModel, QueryErr>, r: OvnResult<AggregateStage>) -> bool {
    match s {
        Ok(sm) => r matches Ok(x) && stage_model(x) == sm,
        Err(q) => r matches Err(e) && query_error(e, q),
    }
}

/// The stage a pipeline value denotes: a document with exactly one key.
pub open spec fn stage_spec(m: ValueModel) -> Result<StageModel, QueryErr>
    decreases m,
{
    match m {
        ValueModel::Document(fs) => if fs.len() != 1 {
            Err(QueryErr::Syntax("Pipeline stage must have exactly one key"@))
        } else {
            stage_body_spec(fs[0].0, fs[0].1)
        },
        _ => Err(QueryErr::Syntax("Pipeline stage must be an object"@)),
    }
}

/// The stage named `k` with operand `v`.
pub open spec fn stage_body_spec(k: Seq<char>, v: ValueModel) -> Result<StageModel, QueryErr>
    decreases v,
{
    if k == "$match"@ {
        Ok(StageModel::Match(v))
    } else if k == "$group"@ {
        group_spec(v)
    } else if k == "$project"@ {
        project_spec(v)
    } else if k == "$addFields"@ || k == "$set"@ {
        match v {
            ValueModel::Document(fs) => Ok(StageModel::AddFields(fs)),
            _ => Err(QueryErr::Syntax("$addFields must be an object"@)),
        }
    } else if k == "$sort"@ {
        sort_spec(v)
    } else if k == "$limit"@ {
        match count_operand(v) {
            Some(n) => Ok(StageModel::Limit(n)),
            None => Err(QueryErr::Syntax("$limit must be a number"@)),
        }
    } else if k == "$skip"@ {
        match count_operand(v) {
            Some(n) => Ok(StageModel::Skip(n)),
            None => Err(QueryErr::Syntax("$skip must be a number"@)),
        }
    } else if k == "$unwind"@ {
        unwind_spec(v)
    } else if k == "$count"@ {
        Ok(StageModel::Count(
            match v {
                ValueModel::Str(s) => s,
                _ => "count"@,
            },
        ))
    } else if k == "$lookup"@ {
        lookup_spec(v)
    } else if k == "$replaceRoot"@ || k == "$replaceWith"@ {
        Ok(StageModel::ReplaceRoot(new_root_spec(v)))
    } else if k == "$facet"@ {
        match v {
            ValueModel::Document(fs) => match facet_entries_spec(fs) {
                Ok(f) => Ok(StageModel::Facet(f)),
                Err(e) => Err(e),
            },
            _ => Err(QueryErr::Syntax("$facet must be an object"@)),
        }
    } else if k == "$bucket"@ || k == "$bucketAuto"@ {
        Ok(StageModel::Bucket(v))
    } else if k == "$merge"@ {
        Ok(StageModel::Merge(merge_spec(v)))
    } else if k == "$out"@ {
        Ok(StageModel::Out(
            match v {
                ValueModel::Str(s) => s,
                _ => Seq::empty(),
            },
        ))
    } else if k == "$setWindowFields"@ || k == "$fill"@ || k == "$densify"@ {
        Ok(StageModel::SetWindowFields(v))
    } else {
        Err(QueryErr::Unknown(k))
    }
}

/// The named pipelines of a `$facet` document: entries holding arrays, in
/// order (other entries are skipped).
pub open spec fn facet_entries_spec(fs: Seq<(Seq<char>, ValueModel)>) -> Result<
    Seq<(Seq<char>, Seq<StageModel>)>,
    QueryErr,
>
    decreases fs,
{
    if fs.len() == 0 {
        Ok(Seq::empty())
    } else {
        match facet_entries_spec(fs.drop_last()) {
            Err(e) => Err(e),
            Ok(prev) => match fs.last().1 {
                ValueModel::Array(a) => match pipeline_spec(a) {
                    Ok(ss) => Ok(prev.push((fs.last().0, ss))),
                    Err(e) => Err(e),
                },
                _ => Ok(prev),
            },
        }
    }
}

/// The stages of a list of pipeline values, in order.
pub open spec fn pipeline_spec(a: Seq<ValueModel>) -> Result<Seq<StageModel>, QueryErr>
    decreases a,
{
    if a.len() == 0 {
        Ok(Seq::empty())
    } else {
        match pipeline_spec(a.drop_last()) {
            Err(e) => Err(e),
            Ok(prev) => match stage_spec(a.last()) {
                Ok(s) => Ok(prev.push(s)),
                Err(e) => Err(e),
            },
        }
    }
}

/// `r` is what parsing the pipeline value `m` as a stage answers.
pub open spec fn stage_parsed(m: ValueModel, r: OvnResult<AggregateStage>) -> bool {
    stage_outcome(stage_spec(m), r)
}

/// `r` is what parsing the list of pipeline values `a` answers.
pub open spec fn pipeline_parsed(a: Seq<ValueModel>, r: OvnResult<Vec<AggregateStage>>) -> bool {
    match pipeline_spec(a) {
        Ok(ss) => r matches Ok(x) && stages_model(x@) == ss,
        Err(q) => r matches Err(e) && query_error(e, q),
    }
}


/// `s` without its leading `$`, when it has one.
pub fn strip_dollar(s: &str) -> (r: Option<String>)
    ensures
        match strip_dollar_spec(s@) {
            Some(t) => r matches Some(x) && x@ == t,
            None => r is None,
        },
{
    let n = s.unicode_len();
    if n > 0 && s.get_char(0) == '$' {
        let t = s.substring_char(1, n);
        assert(t@ =~= s@.drop_first());
        Some(copy_string(t))
    } else {
        None
    }
}

/// The string in field `k` of `entries`, or `d`.
fn str_field_or(entries: &Vec<(String, ObeValue)>, k: &str, d: &str) -> (r: String)
    ensures
        r@ == str_or(fields_model(entries@), k@, d@),
{
    match find_field(entries, k) {
        Some(ObeValue::String(t)) => copy_string(t.as_str()),
        _ => copy_string(d),
    }
}

/// A non-negative integer operand.
fn count_of(v: &ObeValue) -> (r: Option<usize>)
    ensures
        r == count_operand(value_model(*v)),
{
    match v {
        ObeValue::Int32(x) => if *x >= 0 {
            Some(#[verifier::truncate] (*x as usize))
        } else {
            None
        },
        ObeValue::Int64(x) => if *x >= 0 {
            Some(#[verifier::truncate] (*x as usize))
        } else {
            None
        },
        _ => None,
    }
}

/// The accumulator operator `op` names, over operand `e`.
fn parse_acc(op: &str, e: &ObeValue) -> (r: Accumulator)
    ensures
        acc_model(r) == acc_spec(op@, value_model(*e)),
{
    let x = match e {
        ObeValue::String(s) => match strip_dollar(s.as_str()) {
            Some(t) => AccumulatorExpr::FieldPath(t),
            None => AccumulatorExpr::Literal(copy_value(e)),
        },
        _ => AccumulatorExpr::Literal(copy_value(e)),
    };
    if str_eq(op, "$sum") {
        Accumulator::Sum(x)
    } else if str_eq(op, "$avg") {
        Accumulator::Avg(x)
    } else if str_eq(op, "$min") {
        Accumulator::Min(x)
    } else if str_eq(op, "$max") {
        Accumulator::Max(x)
    } else if str_eq(op, "$first") {
        Accumulator::First(x)
    } else if str_eq(op, "$last") {
        Accumulator::Last(x)
    } else if str_eq(op, "$push") {
        Accumulator::Push(x)
    } else if str_eq(op, "$addToSet") {
        Accumulator::AddToSet(x)
    } else {
        Accumulator::Count
    }
}

/// A refused prefix of `$group` entries refuses the stage.
proof fn lemma_group_accs_err(fs: Seq<(Seq<char>, ValueModel)>, n: int)
    requires
        0 <= n <= fs.len(),
        group_accs_spec(fs.take(n)) is Err,
    ensures
        group_accs_spec(fs) == group_accs_spec(fs.take(n)),
    decreases fs.len() - n,
{
    if n < fs.len() {
        assert(fs.take(n + 1).drop_last() =~= fs.take(n));
        lemma_group_accs_err(fs, n + 1);
    } else {
        assert(fs.take(n) =~= fs);
    }
}

/// The `$group` stage of an operand.
fn parse_group(v: &ObeValue) -> (r: OvnResult<AggregateStage>)
    ensures
        stage_outcome(group_spec(value_model(*v)), r),
{
    let m = match v {
        ObeValue::Document(m) => m,
        _ => {
            return Err(syntax_error("$group must be an object"));
        },
    };
    let ghost fs = fields_model(m.entries@);
    proof {
        lemma_fields_model(m.entries@);
        assert(fs.take(0) =~= Seq::<(Seq<char>, ValueModel)>::empty());
    }
    let id_raw = str_field_or(&m.entries, "_id", "null");
    let id_expr = match strip_dollar(id_raw.as_str()) {
        Some(t) => t,
        None => copy_string("null"),
    };
    let mut accs: Vec<(String, Accumulator)> = Vec::new();
    assert(accs_model(accs@) =~= Seq::<(Seq<char>, AccModel)>::empty());
    let mut i: usize = 0;
    while i < m.entries.len()
        invariant
            value_model(*v) == ValueModel::Document(fields_model(m.entries@)),
            i <= m.entries@.len(),
            fs == fields_model(m.entries@),
            fs.len() == m.entries@.len(),
            forall|j: int| 0 <= j < fs.len() ==> #[trigger] fs[j] == (m.entries@[j].0@, value_model(m.entries@[j].1)),
            group_accs_spec(fs.take(i as int)) == Ok::<Seq<(Seq<char>, AccModel)>, QueryErr>(accs_model(accs@)),
        decreases m.entries@.len() - i,
    {
        assert(fs.take(i + 1).drop_last() =~= fs.take(i as int));
        assert(fs.take(i + 1).last() == fs[i as int]);
        let field = m.entries[i].0.as_str();
        if !str_eq(field, "_id") {
            let ops = match &m.entries[i].1 {
                ObeValue::Document(ops) => ops,
                _ => {
                    let msg = concat_str(concat_str(copy_string("Accumulator for '"), field), "' must be an object");
                    proof {
                        lemma_group_accs_err(fs, i + 1);
                    }
                    return Err(OvnError::QuerySyntaxError { position: 0, message: msg });
                },
            };
            let ghost os = fields_model(ops.entries@);
            let ghost prev = accs_model(accs@);
            let ghost fld = field@;
            proof {
                lemma_fields_model(ops.entries@);
            }
            let mut k: usize = 0;
            while k < ops.entries.len()
                invariant
                    k <= ops.entries@.len(),
                    os == fields_model(ops.entries@),
                    os.len() == ops.entries@.len(),
                    forall|j: int| 0 <= j < os.len() ==> #[trigger] os[j] == (ops.entries@[j].0@, value_model(ops.entries@[j].1)),
                    field@ == fld,
                    accs_model(accs@) == prev + os.take(k as int).map_values(
                        |p: (Seq<char>, ValueModel)| (fld, acc_spec(p.0, p.1)),
                    ),
                decreases ops.entries@.len() - k,
            {
                let a = parse_acc(ops.entries[k].0.as_str(), &ops.entries[k].1);
                let ghost before = accs@;
                accs.push((copy_string(field), a));
                proof {
                    assert(accs_model(accs@) =~= accs_model(before).push((fld, acc_model(a))));
                    assert(os.take(k + 1) =~= os.take(k as int).push(os[k as int]));
                    assert(prev + os.take(k + 1).map_values(|p: (Seq<char>, ValueModel)| (fld, acc_spec(p.0, p.1)))
                        =~= (prev + os.take(k as int).map_values(
                        |p: (Seq<char>, ValueModel)| (fld, acc_spec(p.0, p.1)),
                    )).push((fld, acc_spec(os[k as int].0, os[k as int].1))));
                }
                k = k + 1;
            }
            assert(os.take(k as int) =~= os);
            proof {
                let v_i = m.entries@[i as int].1;
                assert(fs[i as int] == (fld, ValueModel::Document(os)));
                assert(group_accs_spec(fs.take(i + 1)) == Ok::<Seq<(Seq<char>, AccModel)>, QueryErr>(
                    prev + os.map_values(|p: (Seq<char>, ValueModel)| (fld, acc_spec(p.0, p.1))),
                ));
            }
        }
        i = i + 1;
    }
    assert(fs.take(i as int) =~= fs);
    assert(value_model(*v) == ValueModel::Document(fs));
    assert(group_id_spec(fs) == id_expr@);
    assert(group_accs_spec(fs) == Ok::<Seq<(Seq<char>, AccModel)>, QueryErr>(accs_model(accs@)));
    Ok(AggregateStage::Group { id_expr, accumulators: accs })
}

/// The `$project` stage of an operand.
fn parse_project(v: &ObeValue) -> (r: OvnResult<AggregateStage>)
    ensures
        stage_outcome(project_spec(value_model(*v)), r),
{
    let m = match v {
        ObeValue::Document(m) => m,
        _ => {
            return Err(syntax_error("$project must be an object"));
        },
    };
    let ghost fs = fields_model(m.entries@);
    proof {
        lemma_fields_model(m.entries@);
    }
    let mut out: Vec<(String, bool)> = Vec::new();
    let mut i: usize = 0;
    while i < m.entries.len()
        invariant
            i <= m.entries@.len(),
            fs == fields_model(m.entries@),
            fs.len() == m.entries@.len(),
            forall|j: int| 0 <= j < fs.len() ==> #[trigger] fs[j] == (m.entries@[j].0@, value_model(m.entries@[j].1)),
            out@.map_values(|e: (String, bool)| (e.0@, e.1)) == fs.take(i as int).map_values(
                |p: (Seq<char>, ValueModel)| (p.0, include_of(p.1)),
            ),
        decreases m.entries@.len() - i,
    {
        let keep = match &m.entries[i].1 {
            ObeValue::Int32(x) => *x != 0,
            ObeValue::Int64(x) => *x != 0,
            ObeValue::Float64(_) => false,
            ObeValue::Bool(b) => *b,
            _ => true,
        };
        let ghost before = out@;
        out.push((copy_string(m.entries[i].0.as_str()), keep));
        proof {
            assert(fs.take(i + 1) =~= fs.take(i as int).push(fs[i as int]));
            assert(out@.map_values(|e: (String, bool)| (e.0@, e.1)) =~= before.map_values(
                |e: (String, bool)| (e.0@, e.1),
            ).push((fs[i as int].0, include_of(fs[i as int].1))));
            assert(fs.take(i + 1).map_values(|p: (Seq<char>, ValueModel)| (p.0, include_of(p.1))) =~= fs.take(
                i as int,
            ).map_values(|p: (Seq<char>, ValueModel)| (p.0, include_of(p.1))).push((fs[i as int].0, include_of(fs[i as int].1))));
        }
        i = i + 1;
    }
    assert(fs.take(i as int) =~= fs);
    Ok(AggregateStage::Project(FieldMap { entries: out }))
}

/// The `$sort` stage of an operand.
fn parse_sort(v: &ObeValue) -> (r: OvnResult<AggregateStage>)
    ensures
        stage_outcome(sort_spec(value_model(*v)), r),
{
    let m = match v {
        ObeValue::Document(m) => m,
        _ => {
            return Err(syntax_error("$sort must be an object"));
        },
    };
    let ghost fs = fields_model(m.entries@);
    proof {
        lemma_fields_model(m.entries@);
    }
    let mut out: Vec<(String, i32)> = Vec::new();
    let mut i: usize = 0;
    while i < m.entries.len()
        invariant
            i <= m.entries@.len(),
            fs == fields_model(m.entries@),
            fs.len() == m.entries@.len(),
            forall|j: int| 0 <= j < fs.len() ==> #[trigger] fs[j] == (m.entries@[j].0@, value_model(m.entries@[j].1)),
            out@.map_values(|e: (String, i32)| (e.0@, e.1)) == fs.take(i as int).map_values(
                |p: (Seq<char>, ValueModel)| (p.0, int_or(p.1, 1)),
            ),
        decreases m.entries@.len() - i,
    {
        let d: i32 = match &m.entries[i].1 {
            ObeValue::Int32(x) => *x,
            ObeValue::Int64(x) => #[verifier::truncate] (*x as i32),
            _ => 1,
        };
        let ghost before = out@;
        out.push((copy_string(m.entries[i].0.as_str()), d));
        proof {
            assert(fs.take(i + 1) =~= fs.take(i as int).push(fs[i as int]));
            assert(out@.map_values(|e: (String, i32)| (e.0@, e.1)) =~= before.map_values(
                |e: (String, i32)| (e.0@, e.1),
            ).push((fs[i as int].0, int_or(fs[i as int].1, 1))));
            assert(fs.take(i + 1).map_values(|p: (Seq<char>, ValueModel)| (p.0, int_or(p.1, 1))) =~= fs.take(
                i as int,
            ).map_values(|p: (Seq<char>, ValueModel)| (p.0, int_or(p.1, 1))).push((fs[i as int].0, int_or(fs[i as int].1, 1))));
        }
        i = i + 1;
    }
    assert(fs.take(i as int) =~= fs);
    Ok(AggregateStage::Sort(out))
}

/// The `$unwind` stage of an operand.
fn parse_unwind(v: &ObeValue) -> (r: OvnResult<AggregateStage>)
    ensures
        stage_outcome(unwind_spec(value_model(*v)), r),
{
    match v {
        ObeValue::String(s) => {
            let path = match strip_dollar(s.as_str()) {
                Some(t) => t,
                None => copy_string(s.as_str()),
            };
            Ok(AggregateStage::Unwind(UnwindConfig { path, include_array_index: None, preserve_null_and_empty_arrays: false }))
        },
        ObeValue::Document(m) => {
            let path = match find_field(&m.entries, "path") {
                Some(ObeValue::String(p)) => match strip_dollar(p.as_str()) {
                    Some(t) => t,
                    None => String::new(),
                },
                _ => String::new(),
            };
            let index = match find_field(&m.entries, "includeArrayIndex") {
                Some(ObeValue::String(t)) => Some(copy_string(t.as_str())),
                _ => None,
            };
            let preserve = match find_field(&m.entries, "preserveNullAndEmptyArrays") {
                Some(ObeValue::Bool(b)) => *b,
                _ => false,
            };
            Ok(AggregateStage::Unwind(UnwindConfig { path, include_array_index: index, preserve_null_and_empty_arrays: preserve }))
        },
        _ => Err(syntax_error("$unwind must be a string or object")),
    }
}

/// The `$lookup` stage of an operand.
fn parse_lookup(v: &ObeValue) -> (r: OvnResult<AggregateStage>)
    ensures
        stage_outcome(lookup_spec(value_model(*v)), r),
{
    let m = match v {
        ObeValue::Document(m) => m,
        _ => {
            return Err(syntax_error("$lookup must be an object"));
        },
    };
    let pipeline = match find_field(&m.entries, "pipeline") {
        Some(ObeValue::Array(a)) => Some(copy_values(a)),
        _ => None,
    };
    Ok(AggregateStage::Lookup(LookupConfig {
        from: str_field_or(&m.entries, "from", ""),
        local_field: str_field_or(&m.entries, "localField", ""),
        foreign_field: str_field_or(&m.entries, "foreignField", ""),
        as_field: str_field_or(&m.entries, "as", "joined"),
        pipeline,
    }))
}

/// The new root of `$replaceRoot` / `$replaceWith`.
fn parse_new_root(v: &ObeValue) -> (r: String)
    ensures
        r@ == new_root_spec(value_model(*v)),
{
    match v {
        ObeValue::Document(m) => match find_field(&m.entries, "newRoot") {
            Some(ObeValue::String(s)) => match strip_dollar(s.as_str()) {
                Some(t) => t,
                None => String::new(),
            },
            _ => String::new(),
        },
        ObeValue::String(s) => match strip_dollar(s.as_str()) {
            Some(t) => t,
            None => copy_string(s.as_str()),
        },
        _ => String::new(),
    }
}

/// The target of `$merge`.
fn parse_merge(v: &ObeValue) -> (r: String)
    ensures
        r@ == merge_spec(value_model(*v)),
{
    match v {
        ObeValue::String(s) => copy_string(s.as_str()),
        ObeValue::Document(m) => str_field_or(&m.entries, "into", ""),
        _ => String::new(),
    }
}

/// A refused prefix of `$facet` entries refuses the stage.
proof fn lemma_facet_err(fs: Seq<(Seq<char>, ValueModel)>, n: int)
    requires
        0 <= n <= fs.len(),
        facet_entries_spec(fs.take(n)) is Err,
    ensures
        facet_entries_spec(fs) == facet_entries_spec(fs.take(n)),
    decreases fs.len() - n,
{
    if n < fs.len() {
        assert(fs.take(n + 1).drop_last() =~= fs.take(n));
        lemma_facet_err(fs, n + 1);
    } else {
        assert(fs.take(n) =~= fs);
    }
}

/// A refused prefix of pipeline values refuses the pipeline.
proof fn lemma_pipeline_err(a: Seq<ValueModel>, n: int)
    requires
        0 <= n <= a.len(),
        pipeline_spec(a.take(n)) is Err,
    ensures
        pipeline_spec(a) == pipeline_spec(a.take(n)),
    decreases a.len() - n,
{
    if n < a.len() {
        assert(a.take(n + 1).drop_last() =~= a.take(n));
        lemma_pipeline_err(a, n + 1);
    } else {
        assert(a.take(n) =~= a);
    }
}

/// The `$facet` stage of an operand.
fn parse_facet(v: &ObeValue) -> (r: OvnResult<AggregateStage>)
    ensures
        stage_outcome(facet_spec(value_model(*v)), r),
    decreases v, 0nat,
{
    let m = match v {
        ObeValue::Document(m) => m,
        _ => {
            return Err(syntax_error("$facet must be an object"));
        },
    };
    let ghost fs = fields_model(m.entries@);
    proof {
        lemma_fields_model(m.entries@);
        assert(fs.take(0) =~= Seq::<(Seq<char>, ValueModel)>::empty());
    }
    let mut out: Vec<(String, Vec<AggregateStage>)> = Vec::new();
    let mut i: usize = 0;
    while i < m.entries.len()
        invariant
            i <= m.entries@.len(),
            *v is Document,
            v->Document_0 == *m,
            fs == fields_model(m.entries@),
            fs.len() == m.entries@.len(),
            forall|j: int| 0 <= j < fs.len() ==> #[trigger] fs[j] == (m.entries@[j].0@, value_model(m.entries@[j].1)),
            facet_entries_spec(fs.take(i as int)) == Ok::<Seq<(Seq<char>, Seq<StageModel>)>, QueryErr>(facets_model(out@)),
        decreases m.entries@.len() - i,
    {
        assert(fs.take(i + 1).drop_last() =~= fs.take(i as int));
        assert(fs.take(i + 1).last() == fs[i as int]);
        match &m.entries[i].1 {
            ObeValue::Array(a) => {
                proof {
                    lemma_items_model(a@);
                    assert(decreases_to!(*v => v->Document_0));
                    assert(decreases_to!(v->Document_0 => v->Document_0.entries));
                    assert(decreases_to!(v->Document_0.entries => v->Document_0.entries@));
                    assert(decreases_to!(v->Document_0.entries@ => v->Document_0.entries@[i as int]));
                    assert(decreases_to!(v->Document_0.entries@[i as int] => v->Document_0.entries@[i as int].1));
                    assert(decreases_to!(v->Document_0.entries@[i as int].1 => v->Document_0.entries@[i as int].1->Array_0));
                }
                match parse_pipeline(a) {
                    Ok(stages) => {
                        let ghost before = out@;
                        out.push((copy_string(m.entries[i].0.as_str()), stages));
                        assert(out@.drop_last() =~= before);
                    },
                    Err(e) => {
                        proof {
                            lemma_facet_err(fs, i + 1);
                        }
                        return Err(e);
                    },
                }
            },
            _ => {},
        }
        i = i + 1;
    }
    assert(fs.take(i as int) =~= fs);
    Ok(AggregateStage::Facet(FieldMap { entries: out }))
}

/// Parse the stages of a pipeline, in order; the first refused stage
/// refuses the pipeline.
pub fn parse_pipeline(stages: &Vec<ObeValue>) -> (r: OvnResult<Vec<AggregateStage>>)
    ensures
        pipeline_parsed(items_model(stages@), r),
    decreases stages, 0nat,
{
    let ghost items = items_model(stages@);
    proof {
        lemma_items_model(stages@);
        assert(items.take(0) =~= Seq::<ValueModel>::empty());
    }
    let mut out: Vec<AggregateStage> = Vec::new();
    let mut j: usize = 0;
    while j < stages.len()
        invariant
            j <= stages@.len(),
            items == items_model(stages@),
            items.len() == stages@.len(),
            forall|x: int| 0 <= x < items.len() ==> #[trigger] items[x] == value_model(stages@[x]),
            pipeline_spec(items.take(j as int)) == Ok::<Seq<StageModel>, QueryErr>(stages_model(out@)),
        decreases stages@.len() - j,
    {
        assert(items.take(j + 1).drop_last() =~= items.take(j as int));
        assert(items.take(j + 1).last() == items[j as int]);
        proof {
            assert(decreases_to!(*stages => stages@));
            assert(decreases_to!(stages@ => stages@[j as int]));
        }
        match parse_stage(&stages[j]) {
            Ok(s) => {
                let ghost before = out@;
                out.push(s);
                assert(out@.drop_last() =~= before);
            },
            Err(e) => {
                proof {
                    lemma_pipeline_err(items, j + 1);
                }
                return Err(e);
            },
        }
        j = j + 1;
    }
    assert(items.take(j as int) =~= items);
    Ok(out)
}

/// The stage named `k` with operand `v`.
fn parse_stage_body(k: &str, v: &ObeValue) -> (r: OvnResult<AggregateStage>)
    ensures
        stage_outcome(stage_body_spec(k@, value_model(*v)), r),
    decreases v, 1nat,
{
    if str_eq(k, "$match") {
        Ok(AggregateStage::Match(copy_value(v)))
    } else if str_eq(k, "$group") {
        parse_group(v)
    } else if str_eq(k, "$project") {
        parse_project(v)
    } else if str_eq(k, "$addFields") || str_eq(k, "$set") {
        match v {
            ObeValue::Document(m) => Ok(AggregateStage::AddFields(copy_fields(m))),
            _ => Err(syntax_error("$addFields must be an object")),
        }
    } else if str_eq(k, "$sort") {
        parse_sort(v)
    } else if str_eq(k, "$limit") {
        match count_of(v) {
            Some(n) => Ok(AggregateStage::Limit(n)),
            None => Err(syntax_error("$limit must be a number")),
        }
    } else if str_eq(k, "$skip") {
        match count_of(v) {
            Some(n) => Ok(AggregateStage::Skip(n)),
            None => Err(syntax_error("$skip must be a number")),
        }
    } else if str_eq(k, "$unwind") {
        parse_unwind(v)
    } else if str_eq(k, "$count") {
        let f = match v {
            ObeValue::String(s) => copy_string(s.as_str()),
            _ => copy_string("count"),
        };
        Ok(AggregateStage::Count(f))
    } else if str_eq(k, "$lookup") {
        parse_lookup(v)
    } else if str_eq(k, "$replaceRoot") || str_eq(k, "$replaceWith") {
        Ok(AggregateStage::ReplaceRoot(parse_new_root(v)))
    } else if str_eq(k, "$facet") {
        let r = parse_facet(v);
        assert(facet_spec(value_model(*v)) == stage_body_spec(k@, value_model(*v)));
        r
    } else if str_eq(k, "$bucket") || str_eq(k, "$bucketAuto") {
        Ok(AggregateStage::Bucket(copy_value(v)))
    } else if str_eq(k, "$merge") {
        Ok(AggregateStage::Merge(parse_merge(v)))
    } else if str_eq(k, "$out") {
        let t = match v {
            ObeValue::String(s) => copy_string(s.as_str()),
            _ => String::new(),
        };
        Ok(AggregateStage::Out(t))
    } else if str_eq(k, "$setWindowFields") || str_eq(k, "$fill") || str_eq(k, "$densify") {
        Ok(AggregateStage::SetWindowFields(copy_value(v)))
    } else {
        Err(OvnError::UnknownOperator(copy_string(k)))
    }
}

/// Parse one pipeline stage from its query value (a document with exactly
/// one key, such as `{ "$limit": 10 }`). A stage that is not a document, or
/// does not have exactly one key, is a `QuerySyntaxError`, as is a stage
/// whose operand has the wrong shape; an unknown stage name is an
/// `UnknownOperator`.
pub fn parse_stage(stage: &ObeValue) -> (r: OvnResult<AggregateStage>)
    ensures
        stage_parsed(value_model(*stage), r),
    decreases stage, 0nat,
{
    match stage {
        ObeValue::Document(m) => {
            proof {
                lemma_fields_model(m.entries@);
            }
            if m.entries.len() != 1 {
                return Err(syntax_error("Pipeline stage must have exactly one key"));
            }
            proof {
                assert(decreases_to!(*stage => stage->Document_0));
                assert(decreases_to!(stage->Document_0 => stage->Document_0.entries));
                assert(decreases_to!(stage->Document_0.entries => stage->Document_0.entries@));
                assert(decreases_to!(stage->Document_0.entries@ => stage->Document_0.entries@[0]));
                assert(decreases_to!(stage->Document_0.entries@[0] => stage->Document_0.entries@[0].1));
            }
            parse_stage_body(m.entries[0].0.as_str(), &m.entries[0].1)
        },
        _ => Err(syntax_error("Pipeline stage must be an object")),
    }
}

} // verus!
