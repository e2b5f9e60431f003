use ovn_core::error::OvnError;
use ovn_core::format::obe::{FieldMap, ObeValue};
use ovn_core::query::aggregation::{parse_pipeline, parse_stage, Accumulator, AccumulatorExpr, AggregateStage};
use ovn_core::query::filter::{parse_filter, Filter, FilterOp};
use ovn_core::query::update::{parse_update, UpdateOp};

fn doc(pairs: Vec<(&str, ObeValue)>) -> ObeValue {
    let mut m = FieldMap::new();
    for (k, v) in pairs {
        m.insert(k.to_string(), v);
    }
    ObeValue::Document(m)
}

fn s(x: &str) -> ObeValue {
    ObeValue::String(x.to_string())
}

#[test]
fn test_parse_json_filter() {
    let json = doc(vec![("age", doc(vec![("$gt", ObeValue::Int32(18))]))]);
    let filter = parse_filter(&json).unwrap();
    match filter {
        Filter::Comparison(f, op, v) => {
            assert_eq!(f, "age");
            assert_eq!(op, FilterOp::Gt);
            assert_eq!(v, ObeValue::Int32(18));
        }
        other => panic!("unexpected {:?}", other),
    }
}

#[test]
fn filter_conjunction_and_errors() {
    assert!(matches!(parse_filter(&ObeValue::Null), Ok(Filter::MatchAll)));
    assert!(matches!(parse_filter(&doc(vec![])), Ok(Filter::MatchAll)));
    let f = parse_filter(&doc(vec![("a", ObeValue::Int32(1)), ("b", doc(vec![("$exists", ObeValue::Bool(false))]))])).unwrap();
    match f {
        Filter::And(cs) => {
            assert_eq!(cs.len(), 2);
            assert!(matches!(&cs[0], Filter::Comparison(k, FilterOp::Eq, ObeValue::Int32(1)) if k == "a"));
            assert!(matches!(&cs[1], Filter::Exists(k, false) if k == "b"));
        }
        other => panic!("unexpected {:?}", other),
    }
    assert_eq!(
        parse_filter(&ObeValue::Int32(3)).unwrap_err(),
        OvnError::QuerySyntaxError { position: 0, message: "Filter must be a JSON object".to_string() }
    );
    assert_eq!(
        parse_filter(&doc(vec![("$or", ObeValue::Int32(1))])).unwrap_err(),
        OvnError::QuerySyntaxError { position: 0, message: "$or must be an array".to_string() }
    );
    assert_eq!(
        parse_filter(&doc(vec![("x", doc(vec![("$bogus", ObeValue::Int32(1))]))])).unwrap_err(),
        OvnError::UnknownOperator("$bogus".to_string())
    );
    let nested = doc(vec![("$and", ObeValue::Array(vec![doc(vec![("a", ObeValue::Int32(1))]), doc(vec![("$text", doc(vec![("$search", s("hi"))]))])]))]);
    match parse_filter(&nested).unwrap() {
        Filter::And(cs) => {
            assert_eq!(cs.len(), 2);
            assert!(matches!(&cs[1], Filter::FullTextSearch(t) if t == "hi"));
        }
        other => panic!("unexpected {:?}", other),
    }
}

#[test]
fn test_parse_update_json() {
    let json = doc(vec![("$set", doc(vec![("name", s("Bob"))])), ("$inc", doc(vec![("age", ObeValue::Int32(1))]))]);
    let ops = parse_update(&json).unwrap();
    assert_eq!(ops.len(), 2);
}

#[test]
fn test_parse_update_with_each() {
    let json = doc(vec![
        ("$push", doc(vec![("tags", doc(vec![("$each", ObeValue::Array(vec![s("a"), s("b"), s("c")]))]))])),
        ("$addToSet", doc(vec![("colors", doc(vec![("$each", ObeValue::Array(vec![s("red"), s("blue")]))]))])),
        ("$pullAll", doc(vec![("remove", ObeValue::Array(vec![s("x"), s("y")]))])),
        ("$setOnInsert", doc(vec![("createdAt", ObeValue::Int32(12345))])),
    ]);
    let ops = parse_update(&json).unwrap();
    assert_eq!(ops.len(), 4);
    let has_push_each = ops.iter().any(|op| matches!(op, UpdateOp::PushEach(_, v) if v.len() == 3));
    let has_add_to_set_each = ops.iter().any(|op| matches!(op, UpdateOp::AddToSetEach(_, v) if v.len() == 2));
    let has_pull_all = ops.iter().any(|op| matches!(op, UpdateOp::PullAll(_, v) if v.len() == 2));
    let has_set_on_insert = ops.iter().any(|op| matches!(op, UpdateOp::SetOnInsert(_, _)));
    assert!(has_push_each, "Missing $push with $each");
    assert!(has_add_to_set_each, "Missing $addToSet with $each");
    assert!(has_pull_all, "Missing $pullAll");
    assert!(has_set_on_insert, "Missing $setOnInsert");
}

#[test]
fn update_errors_and_operands() {
    assert_eq!(
        parse_update(&ObeValue::Int32(1)).unwrap_err(),
        OvnError::QuerySyntaxError { position: 0, message: "Update expression must be a JSON object".to_string() }
    );
    assert_eq!(
        parse_update(&doc(vec![("$set", ObeValue::Int32(1))])).unwrap_err(),
        OvnError::QuerySyntaxError { position: 0, message: "$set value must be an object".to_string() }
    );
    assert_eq!(
        parse_update(&doc(vec![("$inc", doc(vec![("n", s("x"))]))])).unwrap_err(),
        OvnError::QuerySyntaxError { position: 0, message: "$inc value must be numeric".to_string() }
    );
    assert_eq!(
        parse_update(&doc(vec![("$zap", doc(vec![("n", ObeValue::Int32(1))]))])).unwrap_err(),
        OvnError::UnknownOperator("$zap".to_string())
    );
    // an unknown operator with no fields is no error
    assert_eq!(parse_update(&doc(vec![("$zap", doc(vec![]))])).unwrap().len(), 0);
    let ops = parse_update(&doc(vec![("$pop", doc(vec![("a", ObeValue::Int64(-1)), ("b", s("x"))])), ("$rename", doc(vec![("c", s("d"))]))])).unwrap();
    assert!(matches!(&ops[0], UpdateOp::Pop(f, -1) if f == "a"));
    assert!(matches!(&ops[1], UpdateOp::Pop(f, 1) if f == "b"));
    assert!(matches!(&ops[2], UpdateOp::Rename(f, t) if f == "c" && t == "d"));
    let mul = parse_update(&doc(vec![("$mul", doc(vec![("p", ObeValue::Float64(2.5f64.to_bits()))]))])).unwrap();
    assert!(matches!(&mul[0], UpdateOp::Mul(f, ObeValue::Float64(b)) if f == "p" && *b == 2.5f64.to_bits()));
}

#[test]
fn stage_shapes() {
    assert!(matches!(parse_stage(&doc(vec![("$limit", ObeValue::Int32(10))])), Ok(AggregateStage::Limit(10))));
    assert_eq!(
        parse_stage(&doc(vec![("$limit", ObeValue::Int32(-1))])).unwrap_err(),
        OvnError::QuerySyntaxError { position: 0, message: "$limit must be a number".to_string() }
    );
    assert_eq!(
        parse_stage(&doc(vec![("$limit", ObeValue::Int32(1)), ("$skip", ObeValue::Int32(1))])).unwrap_err(),
        OvnError::QuerySyntaxError { position: 0, message: "Pipeline stage must have exactly one key".to_string() }
    );
    assert_eq!(
        parse_stage(&s("x")).unwrap_err(),
        OvnError::QuerySyntaxError { position: 0, message: "Pipeline stage must be an object".to_string() }
    );
    assert_eq!(parse_stage(&doc(vec![("$nope", ObeValue::Null)])).unwrap_err(), OvnError::UnknownOperator("$nope".to_string()));
    match parse_stage(&doc(vec![("$unwind", s("$tags"))])).unwrap() {
        AggregateStage::Unwind(c) => assert_eq!(c.path, "tags"),
        other => panic!("unexpected {:?}", other),
    }
    match parse_stage(&doc(vec![("$count", ObeValue::Int32(1))])).unwrap() {
        AggregateStage::Count(f) => assert_eq!(f, "count"),
        other => panic!("unexpected {:?}", other),
    }
}

#[test]
fn group_stage_parses_accumulators() {
    let st = doc(vec![(
        "$group",
        doc(vec![
            ("_id", s("$customerId")),
            ("orderCount", doc(vec![("$sum", ObeValue::Int32(1))])),
            ("totalAmount", doc(vec![("$sum", s("$amount"))])),
        ]),
    )]);
    match parse_stage(&st).unwrap() {
        AggregateStage::Group { id_expr, accumulators } => {
            assert_eq!(id_expr, "customerId");
            assert_eq!(accumulators.len(), 2);
            assert!(matches!(&accumulators[0], (f, Accumulator::Sum(AccumulatorExpr::Literal(ObeValue::Int32(1)))) if f == "orderCount"));
            assert!(matches!(&accumulators[1], (f, Accumulator::Sum(AccumulatorExpr::FieldPath(p))) if f == "totalAmount" && p == "amount"));
        }
        other => panic!("unexpected {:?}", other),
    }
    assert_eq!(
        parse_stage(&doc(vec![("$group", doc(vec![("n", ObeValue::Int32(1))]))])).unwrap_err(),
        OvnError::QuerySyntaxError { position: 0, message: "Accumulator for 'n' must be an object".to_string() }
    );
}

#[test]
fn facet_pipelines_parse_recursively() {
    let st = doc(vec![(
        "$facet",
        doc(vec![
            ("firsts", ObeValue::Array(vec![doc(vec![("$limit", ObeValue::Int32(1))])])),
            ("skipped", ObeValue::Int32(3)),
        ]),
    )]);
    match parse_stage(&st).unwrap() {
        AggregateStage::Facet(m) => {
            assert_eq!(m.entries.len(), 1);
            assert_eq!(m.entries[0].0, "firsts");
            assert!(matches!(m.entries[0].1[0], AggregateStage::Limit(1)));
        }
        other => panic!("unexpected {:?}", other),
    }
    let bad = vec![doc(vec![("$skip", ObeValue::Int32(2))]), doc(vec![("$bad", ObeValue::Null)])];
    assert_eq!(parse_pipeline(&bad).unwrap_err(), OvnError::UnknownOperator("$bad".to_string()));
}
