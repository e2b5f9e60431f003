use ovn_core::format::flags::HAS_COLUMNAR;
use ovn_core::format::header::{FileHeader, FileVersion, HEADER_SIZE, SHADOW_OFFSET};
use ovn_core::format::page::{
    Page, PageHeader, PageType, SlotEntry, PAGE_FLAG_COMPRESSED, PAGE_FLAG_IS_ROOT, PAGE_HEADER_SIZE,
    PAGE_MAGIC_BYTE,
};
use ovn_core::format::segment::{
    SegmentDirectory, SegmentEntry, ENTRY_FLAG_ACTIVE, ENTRY_FLAG_COMPRESSED,
};
use ovn_core::format::SegmentType;
use ovn_core::{OVN2_MAGIC, OVN_MAGIC_V1};

#[test]
fn test_v2_header_roundtrip() {
    let header = FileHeader::new(4096);
    assert_eq!(header.magic, OVN2_MAGIC);
    assert_eq!(header.version_major, 2);
    assert_eq!(header.file_version, FileVersion::V2);

    let bytes = header.to_bytes();
    assert_eq!(bytes.len(), HEADER_SIZE);

    let decoded = FileHeader::from_bytes(&bytes).unwrap();
    assert_eq!(decoded.magic, OVN2_MAGIC);
    assert_eq!(decoded.page_size, 4096);
    assert_eq!(decoded.version_major, 2);
    assert_eq!(decoded.version_minor, 0);
    assert_eq!(decoded.db_uuid, header.db_uuid);
    assert_eq!(decoded.file_version, FileVersion::V2);
    assert_eq!(decoded.hlc_state, header.hlc_state);
}

#[test]
fn test_v1_compat_detection() {
    let mut buf = vec![0u8; HEADER_SIZE];
    buf[0..4].copy_from_slice(&OVN_MAGIC_V1.to_le_bytes());
    buf[4..6].copy_from_slice(&1u16.to_le_bytes());
    buf[6..8].copy_from_slice(&1u16.to_le_bytes());
    buf[8..12].copy_from_slice(&4096u32.to_le_bytes());

    let decoded = FileHeader::from_bytes(&buf).unwrap();
    assert_eq!(decoded.file_version, FileVersion::V1);
    assert_eq!(decoded.magic, OVN_MAGIC_V1);
    assert_eq!(decoded.columnar_root_page, 0);
    assert_eq!(decoded.hlc_state, 0);
}

#[test]
fn test_invalid_magic() {
    let mut bytes = FileHeader::new(4096).to_bytes();
    bytes[0] = 0xFF;
    let result = FileHeader::from_bytes(&bytes);
    assert!(result.is_err());
}

#[test]
fn test_shadow_copy_present() {
    let header = FileHeader::new(4096);
    let bytes = header.to_bytes();
    let shadow_magic = u32::from_le_bytes([
        bytes[SHADOW_OFFSET],
        bytes[SHADOW_OFFSET + 1],
        bytes[SHADOW_OFFSET + 2],
        bytes[SHADOW_OFFSET + 3],
    ]);
    assert_eq!(shadow_magic, OVN2_MAGIC);
}

#[test]
fn test_flag_helpers() {
    let mut h = FileHeader::new(4096);
    assert!(h.is_wal_active());
    assert!(h.has_hlc());
    assert!(!h.has_columnar());

    h.flags |= HAS_COLUMNAR;
    assert!(h.has_columnar());

    h.set_wal_active(false);
    assert!(!h.is_wal_active());
}

#[test]
fn test_page_header_size_is_64() {
    let header = PageHeader::new(PageType::Leaf, 0);
    let bytes = header.to_bytes();
    assert_eq!(bytes.len(), 64, "Page header must be exactly 64 bytes");
}

#[test]
fn test_page_header_roundtrip() {
    let mut header = PageHeader::new(PageType::Leaf, 42);
    header.page_lsn_low = 0xDEADBEEF;
    header.next_page = 43;
    header.prev_page = 41;
    header.parent_page = 10;
    header.payload_len = 1024;
    header.free_offset = 512;
    header.record_count = 5;
    header.flags = PAGE_FLAG_COMPRESSED | PAGE_FLAG_IS_ROOT;
    header.full_lsn_high = 0x0000_0001;

    let bytes = header.to_bytes();
    assert_eq!(bytes.len(), PAGE_HEADER_SIZE);

    let decoded = PageHeader::from_bytes(&bytes).unwrap();
    assert_eq!(decoded.magic_byte, PAGE_MAGIC_BYTE);
    assert_eq!(decoded.page_type, PageType::Leaf);
    assert_eq!(decoded.page_id, 42);
    assert_eq!(decoded.next_page, 43);
    assert_eq!(decoded.prev_page, 41);
    assert_eq!(decoded.parent_page, 10);
    assert_eq!(decoded.payload_len, 1024);
    assert_eq!(decoded.free_offset, 512);
    assert_eq!(decoded.record_count, 5);
    assert_eq!(decoded.flags, PAGE_FLAG_COMPRESSED | PAGE_FLAG_IS_ROOT);
    assert_eq!(decoded.page_lsn_low, 0xDEADBEEF);
    assert_eq!(decoded.full_lsn_high, 1);
    assert_eq!(decoded.full_lsn(), 0x0000_0001_DEAD_BEEF);
}

#[test]
fn test_page_crc32c_verification() {
    let mut page = Page::new(PageType::Leaf, 0, 4096);
    page.payload[0..5].copy_from_slice(b"hello");
    page.dirty = true;

    let bytes = page.to_bytes();
    let decoded = Page::from_bytes(&bytes, 4096).unwrap();
    assert_eq!(&decoded.payload[0..5], b"hello");
}

#[test]
fn test_page_crc32c_corruption_detected() {
    let mut page = Page::new(PageType::Leaf, 1, 4096);
    page.payload[0..5].copy_from_slice(b"world");
    let mut bytes = page.to_bytes();
    bytes[PAGE_HEADER_SIZE + 3] ^= 0xFF;
    assert!(Page::from_bytes(&bytes, 4096).is_err());
}

#[test]
fn test_slot_entry_packed_roundtrip() {
    let slot = SlotEntry {
        doc_offset: 1024,
        doc_length: 256,
        tombstone: false,
    };
    let packed = slot.to_packed();
    let decoded = SlotEntry::from_packed(packed);
    assert_eq!(decoded.doc_offset, 1024);
    assert_eq!(decoded.doc_length, 256);
    assert!(!decoded.tombstone);

    let slot_tomb = SlotEntry {
        doc_offset: 512,
        doc_length: 128,
        tombstone: true,
    };
    let packed_t = slot_tomb.to_packed();
    let decoded_t = SlotEntry::from_packed(packed_t);
    assert_eq!(decoded_t.doc_offset, 512);
    assert_eq!(decoded_t.doc_length, 128);
    assert!(decoded_t.tombstone);
}

#[test]
fn test_slot_entry_bytes_roundtrip() {
    let slot = SlotEntry {
        doc_offset: 1024,
        doc_length: 256,
        tombstone: false,
    };
    let bytes = slot.to_bytes();
    let decoded = SlotEntry::from_bytes(&bytes);
    assert_eq!(decoded.doc_offset, 1024);
    assert_eq!(decoded.doc_length, 256);
}

#[test]
fn test_page_type_roundtrip() {
    let types = vec![
        PageType::Leaf,
        PageType::Interior,
        PageType::Overflow,
        PageType::FreelistLeaf,
        PageType::FreelistTrunk,
        PageType::DocumentHeap,
        PageType::Free,
        PageType::Unused,
        PageType::SegmentDirectory,
    ];
    for pt in types {
        let v = pt.code();
        assert_eq!(PageType::from_u8(v), Some(pt));
    }
}

#[test]
fn test_full_lsn() {
    let mut header = PageHeader::new(PageType::Leaf, 0);
    header.set_full_lsn(0x0000_0003_DEAD_BEEF);
    assert_eq!(header.page_lsn_low, 0xDEAD_BEEF);
    assert_eq!(header.full_lsn_high, 3);
    assert_eq!(header.full_lsn(), 0x0000_0003_DEAD_BEEF);
}

#[test]
fn test_segment_entry_roundtrip() {
    let entry = SegmentEntry {
        segment_type: SegmentType::Columnar,
        flags: ENTRY_FLAG_ACTIVE | ENTRY_FLAG_COMPRESSED,
        start_page: 1024,
        end_page: 2048,
        entry_count: 500,
    };

    let bytes = entry.to_bytes();
    let decoded = SegmentEntry::from_bytes(&bytes).unwrap();

    assert_eq!(decoded.segment_type, SegmentType::Columnar);
    assert_eq!(decoded.flags, entry.flags);
    assert_eq!(decoded.start_page, 1024);
    assert_eq!(decoded.end_page, 2048);
    assert_eq!(decoded.entry_count, 500);
}

#[test]
fn test_directory_roundtrip() {
    let mut dir = SegmentDirectory::new();

    let mut data_entry = SegmentEntry::new(SegmentType::Data);
    data_entry.activate();
    data_entry.start_page = 2;
    data_entry.end_page = 100;
    data_entry.entry_count = 50;
    dir.upsert(data_entry);

    let mut cdc_entry = SegmentEntry::new(SegmentType::CdcLog);
    cdc_entry.activate();
    cdc_entry.start_page = 200;
    cdc_entry.end_page = 300;
    cdc_entry.entry_count = 1000;
    dir.upsert(cdc_entry);

    let bytes = dir.to_bytes(4096).unwrap();
    assert_eq!(bytes.len(), 4096);

    let decoded = SegmentDirectory::from_bytes(&bytes).unwrap();
    let data = decoded.get(SegmentType::Data).unwrap();
    assert_eq!(data.start_page, 2);
    assert_eq!(data.entry_count, 50);

    let cdc = decoded.get(SegmentType::CdcLog).unwrap();
    assert_eq!(cdc.entry_count, 1000);
}

#[test]
fn test_with_defaults() {
    let dir = SegmentDirectory::with_defaults(2);
    assert!(dir.get(SegmentType::Header).is_some());
    assert!(dir.get(SegmentType::Wal).is_some());
    assert!(dir.get(SegmentType::Columnar).is_none());
}

// ── Further scenarios ────────────────────────────────────────────────────

#[test]
fn default_directory_holds_every_mandatory_segment() {
    let dir = SegmentDirectory::with_defaults(2);
    for t in [
        SegmentType::Header,
        SegmentType::Data,
        SegmentType::Index,
        SegmentType::Wal,
        SegmentType::Metadata,
    ] {
        assert!(dir.get(t).is_some());
        assert!(dir.get(t).unwrap().is_active());
    }
    assert_eq!(
        dir.get(SegmentType::Wal),
        Some(&SegmentEntry {
            segment_type: SegmentType::Wal,
            flags: ENTRY_FLAG_ACTIVE,
            start_page: 2,
            end_page: 2,
            entry_count: 0,
        })
    );
    assert_eq!(dir.get(SegmentType::Header).unwrap().entry_count, 1);
    assert!(dir.get(SegmentType::Columnar).is_none());
}

#[test]
fn header_checksum_detects_changed_page_size() {
    let mut bytes = FileHeader::new(4096).to_bytes();
    bytes[8..12].copy_from_slice(&100u32.to_le_bytes());
    assert!(FileHeader::from_bytes(&bytes).is_err());
}

#[test]
fn header_short_buffer_is_rejected() {
    let bytes = vec![0u8; 16];
    assert!(FileHeader::from_bytes(&bytes).is_err());
}

#[test]
fn page_header_magic_byte_is_read_back_unchecked() {
    let header = PageHeader::new(PageType::Leaf, 7);
    let mut bytes = header.to_bytes();
    bytes[0] = 0x12;
    let decoded = PageHeader::from_bytes(&bytes).unwrap();
    assert_eq!(decoded.magic_byte, 0x12);
    assert_eq!(decoded.page_id, 7);
    assert!(PageHeader::from_bytes(&bytes[..63]).is_err());
}

#[test]
fn page_type_unknown_code_is_none() {
    assert_eq!(PageType::from_u8(0xEE), None);
}

#[test]
fn segment_type_codes_roundtrip() {
    for t in [SegmentType::Header, SegmentType::Wal, SegmentType::Data, SegmentType::CdcLog, SegmentType::Columnar] {
        assert_eq!(SegmentType::from_byte(t.code()), Some(t));
    }
}

#[test]
fn test_crc32c_check_value() {
    assert_eq!(ovn_core::codec::crc32c(b"123456789"), 0xE306_9283);
    assert_eq!(ovn_core::codec::crc32c(b""), 0);
}
