use ovn_core::background::{after_run, default_worker_configs, WorkerSleep};
use ovn_core::engine::audit::{chrono_like_timestamp, iso_like_timestamp};
use ovn_core::text::{decimal_i32, padded_decimal};
use ovn_core::compression::{compress, decompress, lz4_compress, lz4_decompress, zstd_compress, zstd_decompress, CompressionType};
use ovn_core::distributed::{RaftConfig, RaftNode, RaftRole};
use ovn_core::engine::audit::AuditConfig;
use ovn_core::engine::config::OvnConfig;
use ovn_core::engine::encryption::{FileKeyProvider, KeyProvider};
use ovn_core::engine::timeseries::{TimeBucket, TimeSeriesManager};
use ovn_core::engine::trigger::{TriggerDefinition, TriggerEvent};
use ovn_core::engine::txn_ops::{SavepointOriginalValue, SavepointState};
use ovn_core::engine::versioning::VersioningConfig;
use ovn_core::error::OvnError;
use ovn_core::format::obe::{ObeDocument, ObeValue};
use ovn_core::index::secondary::{value_to_bytes, IndexSpec};
use ovn_core::io::backend::MemoryBackend;
use ovn_core::query::filter::FilterOp;
use ovn_core::recovery::{CollectionStatus, DataLossSeverity, RecoveryEngine};
use ovn_core::security::ChainedHmacVerifier;

#[test]
fn test_lz4_roundtrip() {
    let data = b"Hello, Oblivinx3x! This is a test of LZ4 compression with repeated data. \
                  Hello, Oblivinx3x! This is a test of LZ4 compression with repeated data.";
    let compressed = lz4_compress(data).unwrap();
    let decompressed = lz4_decompress(&compressed).unwrap();
    assert_eq!(&decompressed, data);
    assert!(compressed.len() < data.len(), "LZ4 should compress repeated data");
}

#[test]
fn test_zstd_roundtrip() {
    let data = b"Oblivinx3x Zstandard test data with high entropy mixed in: \
                  abcdefghij1234567890abcdefghij1234567890";
    let compressed = zstd_compress(data, 3).unwrap();
    let decompressed = zstd_decompress(&compressed).unwrap();
    assert_eq!(&decompressed[..], &data[..]);
}

#[test]
fn test_compression_dispatch() {
    let data = b"test data for compression dispatch";
    for &ctype in &[CompressionType::Uncompressed, CompressionType::Lz4, CompressionType::Zstd] {
        let compressed = compress(data, ctype).unwrap();
        let decompressed = decompress(&compressed, ctype).unwrap();
        assert_eq!(decompressed, data);
    }
}

#[test]
fn test_quarantine_collection() {
    let mut engine = RecoveryEngine::new("/tmp/test.ovn2");
    let status = engine.quarantine_collection(42);
    assert_eq!(status, CollectionStatus::Quarantined);
    assert_eq!(engine.collection_status(42), Some(CollectionStatus::Quarantined));
}

#[test]
fn chained_hmac_detects_tampering() {
    let key = [0x42u8; 32];
    let mut verifier = ChainedHmacVerifier::new(&key);

    let payload_a = b"record_a";
    let hmac_a = verifier.advance(payload_a);

    let payload_b = b"record_b";
    let hmac_b = verifier.advance(payload_b);

    let mut replay = ChainedHmacVerifier::new(&key);
    replay.verify_and_advance(payload_a, &hmac_a).expect("a should verify");
    replay.verify_and_advance(payload_b, &hmac_b).expect("b should verify");

    let mut tampered = ChainedHmacVerifier::new(&key);
    assert!(
        tampered.verify_and_advance(payload_b, &hmac_b).is_err(),
        "Skipping a record must break the chain"
    );
}

#[test]
fn chained_hmac_detects_reorder() {
    let key = [0x11u8; 32];
    let mut writer = ChainedHmacVerifier::new(&key);
    let hmac_a = writer.advance(b"record_a");
    let hmac_b = writer.advance(b"record_b");

    let mut replay = ChainedHmacVerifier::new(&key);
    let _ = hmac_a;
    assert!(
        replay.verify_and_advance(b"record_b", &hmac_b).is_err(),
        "Reordering records must break the chain"
    );
}

// ── Further scenarios ────────────────────────────────────────────────────

#[test]
fn chained_hmac_failed_check_keeps_chain() {
    let key = [0x33u8; 32];
    let mut writer = ChainedHmacVerifier::new(&key);
    let h1 = writer.advance(b"one");
    let mut reader = ChainedHmacVerifier::new(&key);
    assert!(reader.verify_and_advance(b"one", &[0u8; 32]).is_err());
    assert!(reader.verify_and_advance(b"one", &h1).is_ok());
    assert_eq!(reader.current_hmac(), &h1);
}

#[test]
fn compression_config_names() {
    assert_eq!(CompressionType::from_str_config("LZ4").unwrap(), CompressionType::Lz4);
    assert_eq!(CompressionType::from_str_config("zstandard").unwrap(), CompressionType::Zstd);
    assert_eq!(CompressionType::from_str_config("None").unwrap(), CompressionType::Uncompressed);
    assert!(matches!(CompressionType::from_str_config("gzip"), Err(OvnError::InvalidConfig(_))));
}

#[test]
fn lz4_rejects_garbage() {
    assert!(lz4_decompress(&[0x05, 0x00, 0x00, 0x00, 0xF0]).is_err());
}

#[test]
fn recovery_report_labels_quarantined_collection() {
    let mut engine = RecoveryEngine::new("/tmp/test.ovn2");
    engine.quarantine_collection(42);
    let report = engine.generate_report(0, 0, 0);
    assert_eq!(report.quarantined_collections, vec!["coll_id=42".to_string()]);
    assert_eq!(report.data_loss_estimate, DataLossSeverity::Major);
}

#[test]
fn recovery_report_severity() {
    let mut engine = RecoveryEngine::new("/tmp/x.ovn2");
    let clean = engine.generate_report(3, 0, 12);
    assert_eq!(clean.data_loss_estimate, DataLossSeverity::NoLoss);
    assert_eq!(clean.recovered_txids, 3);
    assert_eq!(clean.duration_ms, 12);
    assert!(clean.quarantined_collections.is_empty());
    let minor = engine.generate_report(0, 2, 0);
    assert_eq!(minor.data_loss_estimate, DataLossSeverity::Minor);
    engine.quarantine_collection(7);
    engine.quarantine_collection(9);
    engine.quarantine_collection(7);
    let major = engine.generate_report(0, 0, 0);
    assert_eq!(major.data_loss_estimate, DataLossSeverity::Major);
    let mut labels = major.quarantined_collections.clone();
    labels.sort();
    assert_eq!(labels, vec!["coll_id=7".to_string(), "coll_id=9".to_string()]);
    assert_eq!(major.events.len(), 3);
    assert_eq!(major.events[0].kind, "quarantine");
    assert_eq!(major.events[0].detail, "Collection id=7 isolated due to corruption");
}

#[test]
fn memory_backend_read_after_write() {
    let mut b = MemoryBackend::new();
    b.write_at(10, b"abc").unwrap();
    assert_eq!(b.file_size().unwrap(), 13);
    assert_eq!(b.read_at(10, 3).unwrap(), b"abc".to_vec());
    assert_eq!(b.read_at(0, 2).unwrap(), vec![0u8, 0u8]);
    assert!(matches!(b.read_at(12, 5), Err(OvnError::UnexpectedEof(_))));
    assert_eq!(b.append(b"zz").unwrap(), 13);
    b.write_page(1, 8, b"PAGE").unwrap();
    assert_eq!(b.read_at(8, 4).unwrap(), b"PAGE".to_vec());
    assert!(b.read_page(5, 8).is_err());
    b.truncate(4).unwrap();
    assert_eq!(b.file_size().unwrap(), 4);
}

#[test]
fn trigger_event_names() {
    assert_eq!(TriggerEvent::parse_event("afterDelete").unwrap(), TriggerEvent::AfterDelete);
    assert_eq!(TriggerEvent::BeforeUpdate.to_display_string(), "beforeUpdate");
    assert_eq!(
        TriggerEvent::parse_event("onInsert").unwrap_err(),
        "Unknown trigger event: onInsert"
    );
    let t = TriggerDefinition::for_event("users", "beforeInsert").unwrap();
    assert_eq!(t.name, "users_beforeInsert");
    assert_eq!(t.timeout_ms, 500);
    let a = TriggerDefinition::for_event("users", "afterUpdate").unwrap();
    assert_eq!(a.timeout_ms, 5000);
    assert!(matches!(
        TriggerDefinition::for_event("users", "bogus"),
        Err(OvnError::ValidationError(_))
    ));
}

#[test]
fn file_key_provider_keys() {
    let p = FileKeyProvider::new("/keys/master.key");
    let k = p.get_master_key().unwrap();
    assert_eq!(&k[..16], b"/keys/master.key");
    assert!(k[16..].iter().all(|b| *b == 0));
    let c = p.derive_collection_key("orders").unwrap();
    assert_eq!(&c[..25], b"oblivinx3x-col-enc:orders");
    assert_eq!(c[25..], [0u8; 7]);
}

#[test]
fn default_worker_set() {
    let w = default_worker_configs();
    assert_eq!(w.len(), 6);
    assert_eq!(w[0].name, "compaction");
    assert_eq!(w[0].interval.as_secs(), 30);
    assert_eq!(w[3].interval.as_secs(), 120);
    assert!(!w[5].enabled);
}

#[test]
fn value_keys_sort_like_values() {
    let bytes_neg = value_to_bytes(&ObeValue::Int32(-10), "");
    let bytes_zero = value_to_bytes(&ObeValue::Int32(0), "");
    let bytes_pos = value_to_bytes(&ObeValue::Int32(10), "");
    assert!(bytes_neg < bytes_zero);
    assert!(bytes_zero < bytes_pos);
    assert_eq!(bytes_zero, vec![0x02, 0x80, 0, 0, 0]);
    let f_neg = value_to_bytes(&ObeValue::Float64((-1.5f64).to_bits()), "");
    let f_pos = value_to_bytes(&ObeValue::Float64(2.0f64.to_bits()), "");
    assert!(f_neg < f_pos);
    assert_eq!(value_to_bytes(&ObeValue::Array(Vec::new()), "[]"), vec![0xFF, b'[', b']']);
    assert!(value_to_bytes(&ObeValue::Null, "") < value_to_bytes(&ObeValue::Bool(false), ""));
}

#[test]
fn index_default_names() {
    let fields = vec![("age".to_string(), 1), ("name".to_string(), -1)];
    assert_eq!(IndexSpec::default_name(&fields), "age_1_name_-1");
    assert_eq!(IndexSpec::default_name(&[]), "");
    let spec = IndexSpec {
        name: "x".to_string(),
        collection: "c".to_string(),
        fields,
        unique: false,
        text: false,
        hidden: false,
    };
    assert!(spec.is_compound());
}

#[test]
fn filter_operator_names() {
    assert_eq!(FilterOp::parse_op("$gte").unwrap(), FilterOp::Gte);
    assert_eq!(FilterOp::parse_op("$geoNear").unwrap(), FilterOp::Near);
    assert!(matches!(FilterOp::parse_op("$foo"), Err(OvnError::UnknownOperator(s)) if s == "$foo"));
}

#[test]
fn timeseries_bucket_bounds() {
    assert_eq!(TimeBucket::calculate_bucket_bounds(1_234_567, &Some("seconds".to_string())), (1_234_000, 1_234_999));
    assert_eq!(TimeBucket::calculate_bucket_bounds(125_000, &Some("minutes".to_string())), (120_000, 179_999));
    assert_eq!(TimeBucket::calculate_bucket_bounds(-1_500, &Some("seconds".to_string())), (-1_000, -1));
    assert_eq!(TimeBucket::calculate_bucket_bounds(7_200_001, &None), (7_200_000, 10_799_999));
}

#[test]
fn timeseries_measurement_and_bucket_document() {
    let mut doc = ObeDocument::new();
    doc.set("ts".to_string(), ObeValue::Int64(1_000));
    doc.set("sensor".to_string(), ObeValue::String("s1".to_string()));
    let (meta, t) = TimeSeriesManager::process_measurement(&doc, "ts", &Some("sensor".to_string()), &None).unwrap();
    assert_eq!(t, 1_000);
    assert_eq!(meta, ObeValue::String("s1".to_string()));
    let (meta2, t2) = TimeSeriesManager::process_measurement(&doc, "missing", &None, &None).unwrap();
    assert_eq!(t2, 0);
    assert_eq!(meta2, ObeValue::Null);

    let bucket = TimeBucket { id: [1u8; 16], meta, min_time: 0, max_time: 999, measurements: vec![doc] };
    let stored = bucket.to_document().unwrap();
    assert_eq!(stored.id, [1u8; 16]);
    assert_eq!(stored.get("min_time"), Some(&ObeValue::Int64(0)));
    assert_eq!(stored.get("max_time"), Some(&ObeValue::Int64(999)));
    match stored.get("measurements") {
        Some(ObeValue::Array(a)) => assert_eq!(a.len(), 1),
        other => panic!("unexpected {:?}", other),
    }
}

#[test]
fn savepoint_rollback_returns_later_writes() {
    let mut s = SavepointState::new();
    s.record_write(b"a".to_vec(), SavepointOriginalValue::New, 1);
    s.create_savepoint("sp").unwrap();
    s.record_write(b"b".to_vec(), SavepointOriginalValue::Existing(b"old".to_vec()), 1);
    s.record_write(b"a".to_vec(), SavepointOriginalValue::Existing(b"x".to_vec()), 1);
    let undo = s.rollback_to_savepoint("sp").unwrap();
    assert_eq!(undo.len(), 1);
    assert_eq!(undo[0].0, b"b".to_vec());
    assert!(s.rollback_to_savepoint("nope").is_err());
}

#[test]
fn savepoint_errors_name_their_reason() {
    let mut s = SavepointState::new();
    match s.rollback_to_savepoint("nope") {
        Err(e) => assert_eq!(
            e,
            OvnError::SavepointError {
                name: "nope".to_string(),
                reason: "Savepoint not found".to_string(),
            }
        ),
        Ok(_) => panic!("rollback to an unknown savepoint succeeded"),
    }
    assert_eq!(
        s.release_savepoint("nope"),
        Err(OvnError::SavepointError {
            name: "nope".to_string(),
            reason: "Savepoint not found".to_string(),
        })
    );
    s.create_savepoint("sp").unwrap();
    assert_eq!(
        s.create_savepoint("sp"),
        Err(OvnError::SavepointError {
            name: "sp".to_string(),
            reason: "Savepoint name already exists".to_string(),
        })
    );
}

#[test]
fn quarantine_event_names_the_collection() {
    let mut engine = RecoveryEngine::new("/tmp/test.ovn2");
    engine.quarantine_collection(42);
    let report = engine.generate_report(0, 0, 0);
    assert_eq!(report.events[0].detail, "Collection id=42 isolated due to corruption");
}

#[test]
fn raft_leader_proposes() {
    let mut node = RaftNode::new(RaftConfig::default());
    assert_eq!(node.propose(b"x".to_vec()), None);
    node.start_election();
    assert_eq!(node.role, RaftRole::Candidate);
    assert_eq!(node.current_term, 1);
    node.become_leader();
    assert_eq!(node.propose(b"x".to_vec()), Some(1));
    assert_eq!(node.propose(b"y".to_vec()), Some(2));
}

#[test]
fn configuration_defaults() {
    let a = AuditConfig::default();
    assert_eq!(a.level, "write");
    assert_eq!(a.redact_fields.len(), 3);
    let v = VersioningConfig::default();
    assert_eq!(v.max_versions, 50);
    let c = OvnConfig::default();
    assert_eq!(c.page_size, 4096);
    assert!(OvnConfig::test().page_size > 0);
}

#[test]
fn apply_seccomp_is_noop_on_non_linux_or_no_feature() {
    let result = ovn_core::security::apply_seccomp_profile();
    assert!(result.is_ok());
}

#[test]
fn worker_backoff_doubles_to_cap() {
    assert_eq!(after_run(4000, false), (WorkerSleep::Interval, 1000));
    assert_eq!(after_run(1000, true), (WorkerSleep::BackoffMs(1000), 2000));
    assert_eq!(after_run(16000, true), (WorkerSleep::BackoffMs(16000), 30000));
    assert_eq!(after_run(30000, true), (WorkerSleep::BackoffMs(30000), 30000));
}

#[test]
fn iso_like_timestamps() {
    assert_eq!(iso_like_timestamp(0), "1970-01-01T00:00:00Z");
    assert_eq!(iso_like_timestamp(86_400 * 400 + 3_723), "1971-02-06T01:02:03Z");
    let now = chrono_like_timestamp();
    assert_eq!(now.len(), 20);
    assert!(now.ends_with('Z'));
}

#[test]
fn padded_decimal_text() {
    assert_eq!(padded_decimal(7, 3), "007");
    assert_eq!(padded_decimal(12345, 2), "12345");
    assert_eq!(decimal_i32(-2147483648), "-2147483648");
    assert_eq!(decimal_i32(0), "0");
}
