use ovn_core::format::obe::{FieldMap, ObeDocument, ObeValue};
use ovn_core::query::aggregation::{
    count_docs, limit_docs, project_docs, replace_root_docs, skip_docs, unwind_docs, UnwindConfig,
};

fn s(x: &str) -> ObeValue {
    ObeValue::String(x.to_string())
}

fn doc_with(fields: Vec<(&str, ObeValue)>) -> ObeDocument {
    let mut d = ObeDocument::new();
    for (k, v) in fields {
        d.set(k.to_string(), v);
    }
    d
}

#[test]
fn test_unwind() {
    let mut doc = ObeDocument::new();
    doc.set("name".to_string(), s("test"));
    doc.set("tags".to_string(), ObeValue::Array(vec![s("a"), s("b"), s("c")]));

    let result = unwind_docs(
        &vec![doc],
        &UnwindConfig {
            path: "tags".to_string(),
            include_array_index: None,
            preserve_null_and_empty_arrays: false,
        },
    );
    assert_eq!(result.len(), 3);
}

#[test]
fn unwind_items_index_and_preserve() {
    let a = doc_with(vec![("t", ObeValue::Array(vec![s("x"), s("y")]))]);
    let b = doc_with(vec![("t", ObeValue::Array(vec![]))]);
    let c = doc_with(vec![("other", ObeValue::Int32(1))]);
    let d = doc_with(vec![("t", ObeValue::Int32(5))]);
    let ids = [a.id, b.id, c.id, d.id];
    let docs = vec![a, b, c, d];

    let cfg = UnwindConfig {
        path: "t".to_string(),
        include_array_index: Some("i".to_string()),
        preserve_null_and_empty_arrays: false,
    };
    let out = unwind_docs(&docs, &cfg);
    assert_eq!(out.len(), 3);
    assert_eq!(out[0].id, ids[0]);
    assert_eq!(out[0].get("t"), Some(&s("x")));
    assert_eq!(out[0].get("i"), Some(&ObeValue::Int64(0)));
    assert_eq!(out[1].get("t"), Some(&s("y")));
    assert_eq!(out[1].get("i"), Some(&ObeValue::Int64(1)));
    assert_eq!(out[2].id, ids[3]);
    assert_eq!(out[2].get("t"), Some(&ObeValue::Int32(5)));

    let cfg = UnwindConfig { path: "t".to_string(), include_array_index: None, preserve_null_and_empty_arrays: true };
    let out = unwind_docs(&docs, &cfg);
    assert_eq!(out.len(), 5);
    assert_eq!(out[2].id, ids[1]);
    assert_eq!(out[3].id, ids[2]);
}

#[test]
fn limit_and_skip() {
    let docs: Vec<ObeDocument> = (0..5).map(|i| doc_with(vec![("n", ObeValue::Int32(i))])).collect();
    let ids: Vec<[u8; 16]> = docs.iter().map(|d| d.id).collect();
    let first = limit_docs(docs, 2);
    assert_eq!(first.iter().map(|d| d.id).collect::<Vec<_>>(), ids[..2].to_vec());

    let docs: Vec<ObeDocument> = (0..5).map(|i| doc_with(vec![("n", ObeValue::Int32(i))])).collect();
    let ids: Vec<[u8; 16]> = docs.iter().map(|d| d.id).collect();
    let rest = skip_docs(docs, 3);
    assert_eq!(rest.iter().map(|d| d.id).collect::<Vec<_>>(), ids[3..].to_vec());

    let docs: Vec<ObeDocument> = (0..2).map(|i| doc_with(vec![("n", ObeValue::Int32(i))])).collect();
    assert_eq!(skip_docs(docs, 7).len(), 0);
    let docs: Vec<ObeDocument> = (0..2).map(|i| doc_with(vec![("n", ObeValue::Int32(i))])).collect();
    assert_eq!(limit_docs(docs, 7).len(), 2);
}

#[test]
fn count_stage() {
    let docs: Vec<ObeDocument> = (0..4).map(|_| ObeDocument::new()).collect();
    let out = count_docs(&docs, "total".to_string());
    assert_eq!(out.len(), 1);
    assert_eq!(out[0].get("total"), Some(&ObeValue::Int64(4)));
    assert_eq!(out[0].fields.len(), 1);
}

#[test]
fn project_include_and_exclude() {
    let d = doc_with(vec![("a", ObeValue::Int32(1)), ("b", ObeValue::Int32(2)), ("c", ObeValue::Int32(3))]);
    let id = d.id;
    let docs = vec![d];

    let mut inc = FieldMap::new();
    inc.insert("a".to_string(), true);
    inc.insert("c".to_string(), true);
    inc.insert("zz".to_string(), true);
    let out = project_docs(&docs, &inc);
    assert_eq!(out[0].id, id);
    assert_eq!(out[0].fields.len(), 2);
    assert_eq!(out[0].get("a"), Some(&ObeValue::Int32(1)));
    assert_eq!(out[0].get("c"), Some(&ObeValue::Int32(3)));

    let mut exc = FieldMap::new();
    exc.insert("b".to_string(), false);
    let out = project_docs(&docs, &exc);
    assert_eq!(out[0].fields.len(), 2);
    assert_eq!(out[0].get("b"), None);
    assert_eq!(out[0].get("a"), Some(&ObeValue::Int32(1)));
}

#[test]
fn replace_root_with_nested_document() {
    let mut inner = FieldMap::new();
    inner.insert("x".to_string(), ObeValue::Int32(9));
    let a = doc_with(vec![("sub", ObeValue::Document(inner))]);
    let b = doc_with(vec![("sub", ObeValue::Int32(1))]);
    let out = replace_root_docs(vec![a, b], "sub");
    assert_eq!(out.len(), 1);
    assert_eq!(out[0].get("x"), Some(&ObeValue::Int32(9)));

    let c = doc_with(vec![("k", ObeValue::Null)]);
    let id = c.id;
    let out = replace_root_docs(vec![c], "");
    assert_eq!(out.len(), 1);
    assert_eq!(out[0].id, id);
}
