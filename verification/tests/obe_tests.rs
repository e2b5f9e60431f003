use ovn_core::format::obe::access::copy_value;
use ovn_core::format::obe::{decode_varint, encode_varint};
use ovn_core::format::obe::{FieldMap, ObeDocument, ObeValue};

#[test]
fn test_varint_roundtrip() {
    let values = [0u64, 1, 127, 128, 16383, 16384, u32::MAX as u64, u64::MAX];
    for &val in &values {
        let mut buf = Vec::new();
        encode_varint(val, &mut buf);
        let (decoded, consumed) = decode_varint(&buf).unwrap();
        assert_eq!(decoded, val, "Varint roundtrip failed for {val}");
        assert_eq!(consumed, buf.len());
    }
}

#[test]
fn test_document_encode_decode() {
    let mut doc = ObeDocument::new();
    doc.set("name".to_string(), ObeValue::String("Alice Kim".to_string()));
    doc.set("age".to_string(), ObeValue::Int32(28));
    doc.set("active".to_string(), ObeValue::Bool(true));
    doc.set("score".to_string(), ObeValue::Float64(99.5f64.to_bits()));
    doc.set(
        "tags".to_string(),
        ObeValue::Array(vec![
            ObeValue::String("admin".to_string()),
            ObeValue::String("developer".to_string()),
        ]),
    );

    let mut addr = FieldMap::new();
    addr.insert("city".to_string(), ObeValue::String("Jakarta".to_string()));
    addr.insert("country".to_string(), ObeValue::String("ID".to_string()));
    doc.set("address".to_string(), ObeValue::Document(addr));

    let encoded = doc.encode().unwrap();
    let decoded = ObeDocument::decode(&encoded).unwrap();

    assert_eq!(decoded.id, doc.id);
    assert_eq!(decoded.txid, doc.txid);
    assert_eq!(decoded.tombstone, doc.tombstone);
    assert_eq!(decoded.fields.len(), doc.fields.len());
    assert_eq!(decoded.get("name"), doc.get("name"));
    assert_eq!(decoded.get("age"), doc.get("age"));
    assert_eq!(decoded.get("active"), doc.get("active"));
    assert_eq!(decoded.get("tags"), doc.get("tags"));
    assert_eq!(decoded.get("address"), doc.get("address"));
}

#[test]
fn test_null_and_binary() {
    let mut doc = ObeDocument::new();
    doc.set("nothing".to_string(), ObeValue::Null);
    doc.set("data".to_string(), ObeValue::Binary(vec![0xDE, 0xAD, 0xBE, 0xEF]));

    let encoded = doc.encode().unwrap();
    let decoded = ObeDocument::decode(&encoded).unwrap();
    assert_eq!(decoded.get("nothing"), Some(&ObeValue::Null));
    assert_eq!(decoded.get("data"), Some(&ObeValue::Binary(vec![0xDE, 0xAD, 0xBE, 0xEF])));
}

#[test]
fn test_dot_notation_path() {
    let mut addr = FieldMap::new();
    addr.insert("city".to_string(), ObeValue::String("Jakarta".to_string()));

    let mut doc = ObeDocument::new();
    doc.set("address".to_string(), ObeValue::Document(addr));

    assert_eq!(
        doc.get_path("address.city"),
        Some(&ObeValue::String("Jakarta".to_string()))
    );
    assert_eq!(doc.get_path("address.zip"), None);
    assert_eq!(doc.get_path("nonexistent.field"), None);
}

// ── Further scenarios ────────────────────────────────────────────────────

#[test]
fn field_map_keeps_keys_in_byte_order() {
    let mut m = FieldMap::new();
    m.insert("b".to_string(), 2u32);
    m.insert("a".to_string(), 1u32);
    m.insert("c".to_string(), 3u32);
    m.insert("a".to_string(), 10u32);
    let keys: Vec<&str> = m.entries.iter().map(|(k, _)| k.as_str()).collect();
    assert_eq!(keys, vec!["a", "b", "c"]);
    assert_eq!(m.get("a"), Some(&10));
    assert_eq!(m.remove("b"), Some(2));
    assert_eq!(m.get("b"), None);
    assert_eq!(m.len(), 2);
}

#[test]
fn decode_truncated_document_fails() {
    let mut doc = ObeDocument::new();
    doc.set("k".to_string(), ObeValue::Int64(-5));
    let encoded = doc.encode().unwrap();
    assert!(ObeDocument::decode(&encoded[..encoded.len() - 1]).is_err());
}

#[test]
fn varint_overflow_is_rejected() {
    let buf = vec![0xFFu8; 11];
    assert!(decode_varint(&buf).is_err());
}

#[test]
fn array_index_path() {
    let mut doc = ObeDocument::new();
    doc.set(
        "tags".to_string(),
        ObeValue::Array(vec![ObeValue::Int32(7), ObeValue::Int32(9)]),
    );
    assert_eq!(doc.get_path("tags.1"), Some(&ObeValue::Int32(9)));
    assert_eq!(doc.get_path("tags.2"), None);
}

#[test]
fn copied_value_is_equal() {
    let mut inner = FieldMap::new();
    inner.insert("x".to_string(), ObeValue::Array(vec![ObeValue::Null, ObeValue::Bool(false)]));
    let v = ObeValue::Document(inner);
    let c = copy_value(&v);
    assert_eq!(c, v);
}

#[test]
fn document_id_string_is_hyphenated_hex() {
    let doc = ObeDocument::with_id([0xABu8; 16]);
    assert_eq!(doc.id_string(), "abababab-abab-abab-abab-abababababab");
}

#[test]
fn new_document_id_is_a_version_4_uuid() {
    for _ in 0..8 {
        let d = ObeDocument::new();
        assert_eq!(d.id[6] & 0xF0, 0x40);
        assert_eq!(d.id[8] & 0xC0, 0x80);
        assert_eq!(d.id_string().as_bytes()[14], b'4');
    }
}
