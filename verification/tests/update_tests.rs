use ovn_core::error::OvnError;
use ovn_core::format::obe::{FieldMap, ObeDocument, ObeValue};
use ovn_core::query::update::{
    add_to_set, add_to_set_each, current_date_at, parse_update_kind, pop, pull, pull_all, push,
    push_each, rename, set_nested_field, unset_nested_field, values_equal, UpdateKind,
};

fn s(x: &str) -> ObeValue {
    ObeValue::String(x.to_string())
}

fn strings(xs: &[&str]) -> Vec<ObeValue> {
    xs.iter().map(|x| s(x)).collect()
}

#[test]
fn test_set_and_unset() {
    let mut doc = ObeDocument::new();
    doc.set("name".to_string(), s("Alice"));

    set_nested_field(&mut doc.fields, "age", ObeValue::Int32(28));
    unset_nested_field(&mut doc.fields, "name");

    assert!(doc.get("name").is_none());
    assert_eq!(doc.get("age"), Some(&ObeValue::Int32(28)));
}

#[test]
fn test_push_and_pull() {
    let mut doc = ObeDocument::new();
    doc.set("tags".to_string(), ObeValue::Array(strings(&["a"])));

    push(&mut doc.fields, "tags", s("b")).unwrap();
    if let Some(ObeValue::Array(arr)) = doc.get("tags") {
        assert_eq!(arr.len(), 2);
    } else {
        panic!("tags is not an array");
    }

    pull(&mut doc.fields, "tags", &s("a"));
    if let Some(ObeValue::Array(arr)) = doc.get("tags") {
        assert_eq!(arr.len(), 1);
        assert_eq!(arr[0], s("b"));
    } else {
        panic!("tags is not an array");
    }
}

#[test]
fn test_push_each() {
    let mut doc = ObeDocument::new();
    doc.set("tags".to_string(), ObeValue::Array(vec![]));

    push_each(&mut doc.fields, "tags", strings(&["a", "b", "c"])).unwrap();
    if let Some(ObeValue::Array(arr)) = doc.get("tags") {
        assert_eq!(arr.len(), 3);
    } else {
        panic!("tags is not an array");
    }
}

#[test]
fn test_pull_all() {
    let mut doc = ObeDocument::new();
    doc.set("tags".to_string(), ObeValue::Array(strings(&["a", "b", "c"])));

    pull_all(&mut doc.fields, "tags", &strings(&["a", "c"]));
    if let Some(ObeValue::Array(arr)) = doc.get("tags") {
        assert_eq!(arr.len(), 1);
        assert_eq!(arr[0], s("b"));
    } else {
        panic!("tags is not an array");
    }
}

#[test]
fn test_add_to_set_each() {
    let mut doc = ObeDocument::new();
    doc.set("tags".to_string(), ObeValue::Array(strings(&["a"])));

    add_to_set_each(&mut doc.fields, "tags", strings(&["a", "b", "c"]));
    if let Some(ObeValue::Array(arr)) = doc.get("tags") {
        assert_eq!(arr.len(), 3);
        assert_eq!(arr, &strings(&["a", "b", "c"]));
    } else {
        panic!("tags is not an array");
    }
}

#[test]
fn test_set_on_insert() {
    let mut doc = ObeDocument::new();
    set_nested_field(&mut doc.fields, "createdAt", ObeValue::Timestamp(1234567890));
    assert_eq!(doc.get("createdAt"), Some(&ObeValue::Timestamp(1234567890)));
}

#[test]
fn set_nested_creates_documents_and_reads_back() {
    let mut doc = ObeDocument::new();
    set_nested_field(&mut doc.fields, "a.b.c", ObeValue::Int64(7));
    assert_eq!(doc.get_path("a.b.c"), Some(&ObeValue::Int64(7)));
    match doc.get("a") {
        Some(ObeValue::Document(sub)) => assert_eq!(sub.len(), 1),
        other => panic!("unexpected {:?}", other),
    }
    set_nested_field(&mut doc.fields, "a.b.d", ObeValue::Bool(true));
    assert_eq!(doc.get_path("a.b.c"), Some(&ObeValue::Int64(7)));
    assert_eq!(doc.get_path("a.b.d"), Some(&ObeValue::Bool(true)));
}

#[test]
fn set_nested_through_scalar_changes_nothing() {
    let mut doc = ObeDocument::new();
    doc.set("a".to_string(), ObeValue::Int32(1));
    set_nested_field(&mut doc.fields, "a.b", ObeValue::Int32(2));
    assert_eq!(doc.get("a"), Some(&ObeValue::Int32(1)));
    assert_eq!(doc.fields.len(), 1);
}

#[test]
fn unset_nested_removes_only_the_leaf() {
    let mut doc = ObeDocument::new();
    set_nested_field(&mut doc.fields, "a.b", ObeValue::Int32(1));
    set_nested_field(&mut doc.fields, "a.c", ObeValue::Int32(2));
    unset_nested_field(&mut doc.fields, "a.b");
    assert_eq!(doc.get_path("a.b"), None);
    assert_eq!(doc.get_path("a.c"), Some(&ObeValue::Int32(2)));
    unset_nested_field(&mut doc.fields, "x.y");
    assert_eq!(doc.fields.len(), 1);
}

#[test]
fn push_creates_missing_array_and_rejects_scalar() {
    let mut fields: FieldMap<ObeValue> = FieldMap::new();
    push(&mut fields, "list", ObeValue::Int32(1)).unwrap();
    assert_eq!(fields.get("list"), Some(&ObeValue::Array(vec![ObeValue::Int32(1)])));

    fields.insert("n".to_string(), ObeValue::Int32(5));
    match push(&mut fields, "n", ObeValue::Int32(1)) {
        Err(OvnError::QuerySyntaxError { position, message }) => {
            assert_eq!(position, 0);
            assert_eq!(message, "$push requires array field");
        }
        other => panic!("unexpected {:?}", other),
    }
    match push_each(&mut fields, "n", vec![ObeValue::Int32(1)]) {
        Err(OvnError::QuerySyntaxError { message, .. }) => {
            assert_eq!(message, "$push with $each requires array field");
        }
        other => panic!("unexpected {:?}", other),
    }
    assert_eq!(fields.get("n"), Some(&ObeValue::Int32(5)));
}

#[test]
fn add_to_set_skips_equal_items() {
    let mut fields: FieldMap<ObeValue> = FieldMap::new();
    add_to_set(&mut fields, "t", s("x"));
    add_to_set(&mut fields, "t", s("x"));
    add_to_set(&mut fields, "t", s("y"));
    assert_eq!(fields.get("t"), Some(&ObeValue::Array(strings(&["x", "y"]))));

    fields.insert("n".to_string(), ObeValue::Int32(5));
    add_to_set(&mut fields, "n", s("x"));
    assert_eq!(fields.get("n"), Some(&ObeValue::Int32(5)));
}

#[test]
fn pull_removes_every_equal_item() {
    let mut fields: FieldMap<ObeValue> = FieldMap::new();
    fields.insert("t".to_string(), ObeValue::Array(strings(&["a", "b", "a", "c"])));
    pull(&mut fields, "t", &s("a"));
    assert_eq!(fields.get("t"), Some(&ObeValue::Array(strings(&["b", "c"]))));
    pull(&mut fields, "missing", &s("a"));
    assert_eq!(fields.len(), 1);
}

#[test]
fn pop_from_either_end() {
    let mut fields: FieldMap<ObeValue> = FieldMap::new();
    fields.insert("t".to_string(), ObeValue::Array(strings(&["a", "b", "c"])));
    pop(&mut fields, "t", 1);
    assert_eq!(fields.get("t"), Some(&ObeValue::Array(strings(&["a", "b"]))));
    pop(&mut fields, "t", -1);
    assert_eq!(fields.get("t"), Some(&ObeValue::Array(strings(&["b"]))));
    pop(&mut fields, "t", 0);
    pop(&mut fields, "t", 0);
    assert_eq!(fields.get("t"), Some(&ObeValue::Array(vec![])));
}

#[test]
fn rename_moves_value() {
    let mut fields: FieldMap<ObeValue> = FieldMap::new();
    fields.insert("old".to_string(), ObeValue::Int32(3));
    fields.insert("other".to_string(), ObeValue::Int32(4));
    rename(&mut fields, "old", "new");
    assert_eq!(fields.get("old"), None);
    assert_eq!(fields.get("new"), Some(&ObeValue::Int32(3)));
    rename(&mut fields, "absent", "x");
    assert_eq!(fields.get("x"), None);
    assert_eq!(fields.len(), 2);
}

#[test]
fn current_date_sets_timestamp() {
    let mut fields: FieldMap<ObeValue> = FieldMap::new();
    current_date_at(&mut fields, "at", 42);
    assert_eq!(fields.get("at"), Some(&ObeValue::Timestamp(42)));
}

#[test]
fn values_equal_follows_float_equality() {
    let nan = ObeValue::Float64(f64::NAN.to_bits());
    assert!(!values_equal(&nan, &nan));
    let pz = ObeValue::Float64(0.0f64.to_bits());
    let nz = ObeValue::Float64((-0.0f64).to_bits());
    assert!(values_equal(&pz, &nz));
    assert!(values_equal(&s("a"), &s("a")));
    assert!(!values_equal(&ObeValue::Int32(1), &ObeValue::Int64(1)));
    let a = ObeValue::Array(vec![ObeValue::Int32(1), pz]);
    let b = ObeValue::Array(vec![ObeValue::Int32(1), nz]);
    assert!(values_equal(&a, &b));
}

#[test]
fn update_operator_names() {
    assert_eq!(parse_update_kind("$set"), Ok(UpdateKind::SetField));
    assert_eq!(parse_update_kind("$addToSet"), Ok(UpdateKind::AddToSet));
    assert_eq!(parse_update_kind("$setOnInsert"), Ok(UpdateKind::SetOnInsert));
    assert_eq!(parse_update_kind("$pullAll"), Ok(UpdateKind::PullAll));
    assert_eq!(
        parse_update_kind("$bogus"),
        Err(OvnError::UnknownOperator("$bogus".to_string()))
    );
}
