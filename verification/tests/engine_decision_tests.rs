use ovn_core::compression::lz4_compress;
use ovn_core::engine::backup::{decode_backup, restore_payload};
use ovn_core::engine::config::OvnConfig;
use ovn_core::engine::crud::{index_probe, page_results, select_documents, IndexProbe};
use ovn_core::engine::explain::{
    collection_size, keys_examined, plan_outline, verbosity_of, visible_index_names, Verbosity,
};
use ovn_core::index::secondary::IndexSpec;
use ovn_core::query::planner::PlanType;
use ovn_core::engine::open::{directory_on_open, new_database, open_mode, wal_start};
use ovn_core::error::OvnError;
use ovn_core::format::header::FileHeader;
use ovn_core::format::segment::SegmentDirectory;
use ovn_core::format::SegmentType;
use ovn_core::format::obe::{FieldMap, ObeValue};
use ovn_core::query::filter::{extract_filter_fields, parse_filter, Filter, FilterOp};

fn doc(pairs: Vec<(&str, ObeValue)>) -> ObeValue {
    let mut m = FieldMap::new();
    for (k, v) in pairs {
        m.insert(k.to_string(), v);
    }
    ObeValue::Document(m)
}

#[test]
fn find_selects_live_matching_candidates_without_duplicates() {
    let scan = vec![(b"a".to_vec(), false), (b"b".to_vec(), true), (b"c".to_vec(), false)];
    let recent = vec![(b"a".to_vec(), false), (b"d".to_vec(), false), (b"d".to_vec(), false), (b"e".to_vec(), false)];
    let matched = vec![true, true, true, true, true, true, false];
    assert_eq!(select_documents(&scan, &recent, None, &matched), vec![0, 2, 4]);
    let cands = vec![b"c".to_vec(), b"d".to_vec()];
    assert_eq!(select_documents(&scan, &recent, Some(&cands), &matched), vec![2, 4]);
    let none: Vec<Vec<u8>> = vec![];
    assert_eq!(select_documents(&scan, &recent, Some(&none), &matched), vec![0, 2, 4]);
}

#[test]
fn index_probe_follows_the_comparison() {
    let eq = parse_filter(&doc(vec![("age", ObeValue::Int32(5))])).unwrap();
    assert!(matches!(index_probe(&eq), IndexProbe::Point(ObeValue::Int32(5))));
    let gt = parse_filter(&doc(vec![("age", doc(vec![("$gte", ObeValue::Int32(5))]))])).unwrap();
    assert!(matches!(index_probe(&gt), IndexProbe::Range(ObeValue::Int32(5), ObeValue::Null)));
    let lt = parse_filter(&doc(vec![("age", doc(vec![("$lt", ObeValue::Int32(5))]))])).unwrap();
    assert!(matches!(index_probe(&lt), IndexProbe::Range(ObeValue::Null, ObeValue::Int32(5))));
    let ne = Filter::Comparison("age".to_string(), FilterOp::Ne, ObeValue::Int32(1));
    assert!(matches!(index_probe(&ne), IndexProbe::NoProbe));
    let both = parse_filter(&doc(vec![("a", ObeValue::Int32(1)), ("b", ObeValue::Int32(2))])).unwrap();
    assert!(matches!(index_probe(&both), IndexProbe::NoProbe));
    assert_eq!(extract_filter_fields(&both), vec!["a".to_string(), "b".to_string()]);
}

#[test]
fn open_mode_decisions() {
    let cfg = OvnConfig::default();
    let (header, dir) = new_database(4096);
    assert!(header.is_wal_active());
    assert!(dir.get(SegmentType::Wal).is_some());
    let m = open_mode(Ok(header), &cfg).unwrap();
    assert!(!m.read_only);
    assert!(m.recover);
    assert_eq!(m.wal_offset, 8192);
    let bad = open_mode(FileHeader::from_bytes(&[0u8; 4]), &cfg);
    assert!(bad.is_err());
    let bytes = FileHeader::new(4096).to_bytes();
    let h = FileHeader::from_bytes(&bytes).unwrap();
    let m2 = open_mode(Ok(h), &cfg).unwrap();
    assert_eq!(m2.wal_offset, 8192);
    assert_eq!(wal_start(0, 4096), 8192);
    assert_eq!(wal_start(100_000, 4096), 100_000);
}

#[test]
fn directory_on_open_falls_back_to_empty() {
    let dir = SegmentDirectory::with_defaults(2);
    let page = dir.to_bytes(4096).unwrap();
    let back = directory_on_open(Ok(page));
    assert!(back.get(SegmentType::Header).is_some());
    let empty = directory_on_open(Ok(vec![0u8; 4096]));
    assert!(empty.get(SegmentType::Header).is_none());
    let gone = directory_on_open(Err(OvnError::IoError("x".to_string())));
    assert!(gone.get(SegmentType::Header).is_none());
}

#[test]
fn backup_framing_and_payload() {
    let manifest = br#"{"compression":"lz4"}"#.to_vec();
    let data = b"database bytes".to_vec();
    let packed = lz4_compress(&data).unwrap();
    let mut file = (manifest.len() as u32).to_le_bytes().to_vec();
    file.extend_from_slice(&manifest);
    file.extend_from_slice(&packed);
    file.extend_from_slice(&[1, 2, 3, 4]);
    let (m, d) = decode_backup(&file).unwrap();
    assert_eq!(m, manifest);
    assert_eq!(d, packed);
    assert_eq!(restore_payload("lz4", &d).unwrap(), data);
    assert_eq!(restore_payload("none", &data).unwrap(), data);
    assert!(matches!(restore_payload("lz4", b"junk"), Err(OvnError::CompressionError(_))));
    assert_eq!(
        decode_backup(&[1, 2, 3]).unwrap_err(),
        OvnError::ValidationError("Backup file too small".to_string())
    );
}

#[test]
fn test_page_results_skip_and_limit() {
    let r: Vec<usize> = vec![10, 11, 12, 13, 14];
    assert_eq!(page_results(r.clone(), 1, Some(2)), vec![11, 12]);
    assert_eq!(page_results(r.clone(), 0, None), r.clone());
    assert_eq!(page_results(r.clone(), 5, Some(3)), Vec::<usize>::new());
    assert_eq!(page_results(r.clone(), 3, Some(10)), vec![13, 14]);
    assert_eq!(page_results(r, 0, Some(0)), Vec::<usize>::new());
}

#[test]
fn test_explain_verbosity() {
    assert_eq!(verbosity_of(None), Verbosity::QueryPlanner);
    assert_eq!(verbosity_of(Some("queryPlanner")), Verbosity::QueryPlanner);
    assert_eq!(verbosity_of(Some("executionStats")), Verbosity::ExecutionStats);
    assert_eq!(verbosity_of(Some("allPlansExecution")), Verbosity::AllPlansExecution);
    assert_eq!(verbosity_of(Some("other")), Verbosity::QueryPlanner);
}

#[test]
fn test_explain_outline_of_plans() {
    let o = plan_outline(&PlanType::IndexPointLookup { index_name: "age_1".to_string() });
    assert_eq!(o.scan_type, "indexPointLookup");
    assert_eq!(o.index_used, Some("age_1".to_string()));
    assert_eq!(o.stages, vec!["IXSCAN".to_string(), "FETCH".to_string()]);
    assert_eq!(o.fallback_reason, None);
    let o = plan_outline(&PlanType::CoveredIndexScan { index_name: "x_1".to_string() });
    assert_eq!(o.scan_type, "coveredIndexScan");
    assert_eq!(o.stages, vec!["IXSCAN".to_string()]);
    let o = plan_outline(&PlanType::CollectionScan);
    assert_eq!(o.scan_type, "collectionScan");
    assert_eq!(o.index_used, None);
    assert_eq!(o.stages, vec!["COLLSCAN".to_string()]);
    assert_eq!(
        o.fallback_reason,
        Some("No suitable index found for the query filter".to_string())
    );
    assert_eq!(keys_examined(&PlanType::CollectionScan, 7), 0);
    assert_eq!(keys_examined(&PlanType::IndexRangeScan { index_name: "a".to_string() }, 7), 7);
}

#[test]
fn test_explain_collection_size_and_indexes() {
    assert_eq!(collection_size(&vec![false, true, false, false]), 3);
    assert_eq!(collection_size(&vec![]), 0);
    let spec = |name: &str, hidden: bool| IndexSpec {
        name: name.to_string(),
        collection: "users".to_string(),
        fields: vec![("age".to_string(), 1)],
        unique: false,
        text: false,
        hidden,
    };
    let names = visible_index_names(&vec![spec("a_1", false), spec("b_1", true), spec("c_1", false)]);
    assert_eq!(names, vec!["a_1".to_string(), "c_1".to_string()]);
}
