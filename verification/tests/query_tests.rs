use ovn_core::format::obe::{FieldMap, ObeValue};
use ovn_core::query::filter::match_type;
use ovn_core::query::planner::select_index;

fn strings(xs: &[&str]) -> Vec<String> {
    xs.iter().map(|x| x.to_string()).collect()
}

#[test]
fn select_index_takes_first_containing_a_field() {
    let indexes = strings(&["idx_name", "idx_age_city", "idx_age"]);
    assert_eq!(select_index(&strings(&["age"]), &indexes), Some(1));
    assert_eq!(select_index(&strings(&["zip", "name"]), &indexes), Some(0));
    assert_eq!(select_index(&strings(&["zip"]), &indexes), None);
    assert_eq!(select_index(&strings(&[]), &indexes), None);
    assert_eq!(select_index(&strings(&[""]), &indexes), Some(0));
    assert_eq!(select_index(&strings(&["age"]), &strings(&[])), None);
}

#[test]
fn match_type_names() {
    assert!(match_type(&ObeValue::Null, "null"));
    assert!(match_type(&ObeValue::Bool(true), "boolean"));
    assert!(match_type(&ObeValue::Int32(1), "int"));
    assert!(!match_type(&ObeValue::Int32(1), "long"));
    assert!(match_type(&ObeValue::Int64(1), "int64"));
    assert!(match_type(&ObeValue::Float64(1.5f64.to_bits()), "double"));
    assert!(match_type(&ObeValue::String("x".to_string()), "string"));
    assert!(match_type(&ObeValue::Array(vec![]), "array"));
    assert!(match_type(&ObeValue::Document(FieldMap::new()), "object"));
    assert!(match_type(&ObeValue::Timestamp(3), "timestamp"));
    assert!(!match_type(&ObeValue::String("x".to_string()), "str"));
}
