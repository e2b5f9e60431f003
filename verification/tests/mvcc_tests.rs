use std::collections::HashSet;

use ovn_core::mvcc::hlc::{wall_clock_ms, HlcClock, HlcTimestamp, MonotonicClock};
use ovn_core::mvcc::session::{SessionManager, WriteResult};
use ovn_core::error::OvnError;
use ovn_core::mvcc::{MvccManager, Snapshot, TxIdGenerator, VersionEntry};

#[test]
fn test_hlc_timestamp_pack_unpack() {
    let ts = HlcTimestamp::new(1_700_000_000_000, 42);
    assert_eq!(ts.physical_ms(), 1_700_000_000_000);
    assert_eq!(ts.logical(), 42);
}

#[test]
fn test_hlc_now_monotonic() {
    let mut clock = HlcClock::new();
    let mut prev = clock.now();
    for _ in 0..1000 {
        let next = clock.now();
        assert!(next > prev, "{:?} should be > {:?}", next, prev);
        prev = next;
    }
}

#[test]
fn test_hlc_recv_advances_past_remote() {
    let mut clock = HlcClock::new();
    let current = clock.current();

    let remote = HlcTimestamp::new(current.physical_ms() + 10, 5);
    let merged = clock.recv(remote);
    assert!(merged > remote || merged.physical_ms() >= remote.physical_ms());
    let after = clock.now();
    assert!(after > remote);
}

#[test]
fn test_hlc_logical_increment_same_ms() {
    let mut clock = HlcClock::new();
    let mut prev = clock.now();
    for _ in 0..100 {
        let next = clock.now();
        assert!(next > prev);
        prev = next;
    }
}

#[test]
fn test_monotonic_clock() {
    let mut clock = MonotonicClock::new();
    let a = clock.next();
    let b = clock.next();
    assert!(b > a);
}

#[test]
fn test_hlc_from_persisted() {
    let future_ms = wall_clock_ms() + 5000;
    let persisted = HlcTimestamp::new(future_ms, 10).as_u64();
    let mut clock = HlcClock::from_persisted(persisted);
    let ts = clock.now();
    assert!(ts.physical_ms() >= future_ms);
}

#[test]
fn test_txid_monotonic() {
    let mut gen = TxIdGenerator::new();
    let id1 = gen.next();
    let id2 = gen.next();
    let id3 = gen.next();
    assert!(id1 < id2);
    assert!(id2 < id3);
}

#[test]
fn test_snapshot_visibility() {
    let snapshot = Snapshot {
        txid: 100,
        active_txids: HashSet::from([95, 98]),
    };

    assert!(snapshot.is_visible(50));
    assert!(snapshot.is_visible(100));
    assert!(!snapshot.is_visible(101));
    assert!(!snapshot.is_visible(95));
    assert!(!snapshot.is_visible(98));
    assert!(snapshot.is_visible(96));
}

#[test]
fn test_mvcc_basic_read_write() {
    let mut mvcc = MvccManager::new();

    let txid = mvcc.next_txid();
    mvcc.add_version(
        b"doc1".to_vec(),
        VersionEntry {
            txid,
            data: b"version1".to_vec(),
            tombstone: false,
        },
    );

    let txn = mvcc.begin_transaction();
    let version = mvcc.read_version(b"doc1", &txn.snapshot);
    assert!(version.is_some());
    assert_eq!(version.unwrap().data, b"version1");

    mvcc.commit(txn.txid).unwrap();
}

#[test]
fn test_mvcc_transaction_isolation() {
    let mut mvcc = MvccManager::new();

    let txid1 = mvcc.next_txid();
    mvcc.add_version(
        b"doc1".to_vec(),
        VersionEntry {
            txid: txid1,
            data: b"v1".to_vec(),
            tombstone: false,
        },
    );

    let reader = mvcc.begin_transaction();

    let txid2 = mvcc.next_txid();
    mvcc.add_version(
        b"doc1".to_vec(),
        VersionEntry {
            txid: txid2,
            data: b"v2".to_vec(),
            tombstone: false,
        },
    );

    let version = mvcc.read_version(b"doc1", &reader.snapshot);
    assert_eq!(version.unwrap().data, b"v1");

    mvcc.commit(reader.txid).unwrap();
}

// ── Further scenarios ────────────────────────────────────────────────────

#[test]
fn hlc_tick_with_stalled_wall_clock_increments_logical() {
    let mut clock = HlcClock::from_persisted_at(HlcTimestamp::new(1_000, 3).as_u64(), 0);
    let t = clock.now_at(500);
    assert_eq!(t.physical_ms(), 1_000);
    assert_eq!(t.logical(), 4);
    let u = clock.now_at(2_000);
    assert_eq!(u.physical_ms(), 2_000);
    assert_eq!(u.logical(), 0);
}

#[test]
fn hlc_recv_merges_remote_ahead() {
    let mut clock = HlcClock::from_persisted_at(HlcTimestamp::new(1_000, 0).as_u64(), 0);
    let remote = HlcTimestamp::new(5_000, 7);
    let merged = clock.recv_at(remote, 2_000);
    assert_eq!(merged.physical_ms(), 5_000);
    assert_eq!(merged.logical(), 8);
    assert!(merged > remote);
}

#[test]
fn hlc_restore_keeps_persisted_counter_at_same_millisecond() {
    let persisted = HlcTimestamp::new(1_000, 9).as_u64();
    let clock = HlcClock::from_persisted_at(persisted, 1_000);
    assert_eq!(clock.current().as_u64(), persisted);
    let clock = HlcClock::from_persisted_at(persisted, 1_001);
    assert_eq!(clock.current(), HlcTimestamp::new(1_001, 0));
    let clock = HlcClock::from_persisted_at(persisted, 999);
    assert_eq!(clock.current().as_u64(), persisted);
}

#[test]
fn hlc_restored_clock_never_reissues() {
    let persisted = HlcTimestamp::new(wall_clock_ms(), 40).as_u64();
    let mut clock = HlcClock::from_persisted(persisted);
    assert!(clock.current().as_u64() >= persisted);
    assert!(clock.now().as_u64() > persisted);
}

#[test]
fn hlc_recv_moves_to_next_millisecond_on_counter_overflow() {
    let far = wall_clock_ms() + 30_000;
    let mut clock = HlcClock::from_persisted_at(HlcTimestamp::new(far, 0xFFFF).as_u64(), 0);
    let before = clock.current();
    let remote = HlcTimestamp::new(far, 3);
    let t = clock.recv(remote);
    assert_eq!(t, HlcTimestamp::new(far + 1, 0));
    assert!(t > remote && t > before);
    assert_eq!(clock.current(), t);
    let r2 = HlcTimestamp::new(wall_clock_ms() + 10, 65535);
    let t2 = clock.recv(r2);
    assert!(t2 > r2 && t2 > t);
}

#[test]
fn hlc_display_text() {
    assert_eq!(HlcTimestamp::new(12, 3).to_display_string(), "HLC(12.3)");
}

#[test]
fn mvcc_recorded_read_detects_write_conflict() {
    let mut m = MvccManager::new();
    let t = m.begin_transaction();
    assert!(m.record_read(t.txid, b"doc1".to_vec()));
    let w = m.next_txid();
    m.add_version(
        b"doc1".to_vec(),
        VersionEntry {
            txid: w,
            data: b"new".to_vec(),
            tombstone: false,
        },
    );
    let a = m.active_count();
    assert_eq!(
        m.commit(t.txid),
        Err(OvnError::WriteConflict {
            doc_id: "doc1".to_string(),
            winner_txid: w,
            loser_txid: t.txid,
        })
    );
    assert_eq!(m.active_count(), a - 1);
}

#[test]
fn mvcc_record_read_needs_running_transaction() {
    let mut m = MvccManager::new();
    assert!(!m.record_read(77, b"k".to_vec()));
    let t = m.begin_transaction();
    m.abort(t.txid);
    assert!(!m.record_read(t.txid, b"k".to_vec()));
}

#[test]
fn mvcc_commit_unknown_transaction_fails() {
    let mut mvcc = MvccManager::new();
    assert!(mvcc.commit(123_456).is_err());
}

#[test]
fn mvcc_tombstone_hides_document() {
    let mut mvcc = MvccManager::new();
    let t1 = mvcc.next_txid();
    mvcc.add_version(b"k".to_vec(), VersionEntry { txid: t1, data: b"a".to_vec(), tombstone: false });
    let t2 = mvcc.next_txid();
    mvcc.add_version(b"k".to_vec(), VersionEntry { txid: t2, data: Vec::new(), tombstone: true });
    let txn = mvcc.begin_transaction();
    assert!(mvcc.read_version(b"k", &txn.snapshot).is_none());
}

#[test]
fn session_retry_answered_from_cache() {
    let mut sessions = SessionManager::new();
    let lsid = [7u8; 16];
    assert!(sessions.check_idempotent(&lsid, 1).is_none());
    sessions.record_result(lsid, 1, WriteResult::ModifiedCount(3));
    match sessions.check_idempotent(&lsid, 1) {
        Some(WriteResult::ModifiedCount(n)) => assert_eq!(n, 3),
        other => panic!("unexpected {:?}", other),
    }
    assert!(sessions.check_idempotent(&lsid, 2).is_none());
    assert!(sessions.check_idempotent(&[8u8; 16], 1).is_none());
}

#[test]
fn hlc_display_string_of_large_parts() {
    assert_eq!(HlcTimestamp::new(0, 0).to_display_string(), "HLC(0.0)");
    assert_eq!(HlcTimestamp::new(1_700_000_000_123, 65535).to_display_string(), "HLC(1700000000123.65535)");
}
