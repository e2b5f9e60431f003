use ovn_core::index::ahit::AccessCounter;
use ovn_core::index::art::{common_prefix, ArtIndex, ArtNode};

#[test]
fn test_art_insert_get() {
    let mut art = ArtIndex::new("test".to_string(), 32 * 1024 * 1024);
    art.insert(b"hello".to_vec(), b"world".to_vec(), 1);
    art.insert(b"help".to_vec(), b"desk".to_vec(), 2);
    art.insert(b"world".to_vec(), b"peace".to_vec(), 3);

    let (v, t) = art.get(b"hello").unwrap();
    assert_eq!(v, b"world");
    assert_eq!(t, 1);

    let (v2, _) = art.get(b"help").unwrap();
    assert_eq!(v2, b"desk");

    assert!(art.get(b"xyz").is_none());
    assert!(art.len() >= 2);
}

#[test]
fn test_art_update_existing() {
    let mut art = ArtIndex::new("test".to_string(), 32 * 1024 * 1024);
    art.insert(b"key".to_vec(), b"v1".to_vec(), 1);
    art.insert(b"key".to_vec(), b"v2".to_vec(), 2);
    let (v, t) = art.get(b"key").unwrap();
    assert_eq!(v, b"v2");
    assert_eq!(t, 2);
    assert_eq!(art.len(), 1);
}

#[test]
fn test_art_scan_all() {
    let mut art = ArtIndex::new("test".to_string(), 32 * 1024 * 1024);
    for i in 0..10u8 {
        art.insert(vec![i], vec![i * 10], i as u64);
    }
    let all = art.scan_all();
    assert_eq!(all.len(), 10);
}

#[test]
fn test_art_drain() {
    let mut art = ArtIndex::new("test".to_string(), 32 * 1024 * 1024);
    art.insert(b"a".to_vec(), b"1".to_vec(), 1);
    art.insert(b"b".to_vec(), b"2".to_vec(), 2);
    let drained = art.drain();
    assert_eq!(drained.len(), 2);
    assert_eq!(art.len(), 0);
    assert!(art.is_empty());
}

#[test]
fn test_art_is_full() {
    let mut art = ArtIndex::new("test".to_string(), 50);
    art.insert(b"key1".to_vec(), b"value1".to_vec(), 1);
    art.insert(b"key2".to_vec(), b"value2".to_vec(), 2);
    assert!(art.is_full());
}

// ── Further scenarios ────────────────────────────────────────────────────

#[test]
fn art_prefix_mismatch_splits_inner_node() {
    let mut art = ArtIndex::new("test".to_string(), 32 * 1024 * 1024);
    assert!(art.insert(b"hello".to_vec(), b"world".to_vec(), 1));
    assert!(art.insert(b"help".to_vec(), b"desk".to_vec(), 2));
    assert!(art.insert(b"world".to_vec(), b"peace".to_vec(), 3));
    assert_eq!(art.get(b"world"), Some((b"peace".to_vec(), 3)));
    assert_eq!(art.get(b"hello"), Some((b"world".to_vec(), 1)));
    assert_eq!(art.get(b"help"), Some((b"desk".to_vec(), 2)));
    assert_eq!(art.len(), 3);
}

#[test]
fn art_partial_prefix_split_keeps_both_branches() {
    let mut art = ArtIndex::new("t".to_string(), 1 << 20);
    art.insert(b"abcx".to_vec(), b"1".to_vec(), 1);
    art.insert(b"abcy".to_vec(), b"2".to_vec(), 2);
    // parts from the prefix "abc" after "ab"
    assert!(art.insert(b"abz".to_vec(), b"3".to_vec(), 3));
    // ends inside the prefix "ab": the split node holds it
    assert!(art.insert(b"a".to_vec(), b"4".to_vec(), 4));
    assert_eq!(art.get(b"abcx").unwrap().0, b"1".to_vec());
    assert_eq!(art.get(b"abcy").unwrap().0, b"2".to_vec());
    assert_eq!(art.get(b"abz").unwrap().0, b"3".to_vec());
    assert_eq!(art.get(b"a").unwrap().0, b"4".to_vec());
    assert_eq!(art.scan_all().len(), 4);
}

#[test]
fn art_remove_prunes_leaf() {
    let mut art = ArtIndex::new("t".to_string(), 1 << 20);
    art.insert(b"ab".to_vec(), b"1".to_vec(), 1);
    art.insert(b"ac".to_vec(), b"2".to_vec(), 2);
    assert_eq!(art.remove(b"ab"), Some(b"1".to_vec()));
    assert!(art.get(b"ab").is_none());
    assert_eq!(art.get(b"ac").unwrap().0, b"2".to_vec());
    assert_eq!(art.remove(b"zz"), None);
    assert_eq!(art.len(), 1);
}

#[test]
fn art_single_leaf_remove_empties_index() {
    let mut art = ArtIndex::new("t".to_string(), 1024);
    art.insert(b"a".to_vec(), b"1".to_vec(), 1);
    assert_eq!(art.remove(b"a"), Some(b"1".to_vec()));
    assert_eq!(art.get(b"a"), None);
    assert_eq!(art.len(), 0);
    assert!(art.is_empty());
    assert!(art.scan_all().is_empty());
    assert_eq!(art.remove(b"a"), None);
}

#[test]
fn art_insert_and_remove_keep_other_keys() {
    let mut art = ArtIndex::new("t".to_string(), 1 << 20);
    art.insert(b"apple".to_vec(), b"1".to_vec(), 1);
    art.insert(b"apply".to_vec(), b"2".to_vec(), 2);
    assert!(art.insert(b"applz".to_vec(), b"3".to_vec(), 3));
    assert_eq!(art.get(b"apple").unwrap().0, b"1".to_vec());
    assert_eq!(art.remove(b"apply"), Some(b"2".to_vec()));
    assert_eq!(art.get(b"apple").unwrap().0, b"1".to_vec());
    assert_eq!(art.get(b"applz").unwrap().0, b"3".to_vec());
}

#[test]
fn art_insert_past_a_shorter_key_keeps_it() {
    // "a" ends where "a" and "ab" part: the new node holds it as its own entry
    let mut n = *ArtNode::new_leaf(b"a".to_vec(), b"1".to_vec(), 1);
    assert!(n.insert(b"ab".to_vec(), b"2".to_vec(), 2, 0));
    assert_eq!(n.get(b"a", 0).unwrap(), (&b"1"[..], 1));
    assert_eq!(n.get(b"ab", 0).unwrap().1, 2);
    assert_eq!(n.count(), 2);
}

#[test]
fn art_prefix_keys_are_kept() {
    let mut art = ArtIndex::new("t".to_string(), 1 << 20);
    assert!(art.insert(b"abcd".to_vec(), b"1".to_vec(), 1));
    assert!(art.insert(b"abce".to_vec(), b"2".to_vec(), 2));
    // ends at the inner node "abc"
    assert!(art.insert(b"abc".to_vec(), b"3".to_vec(), 3));
    // ends inside the inner node's prefix
    assert!(art.insert(b"ab".to_vec(), b"4".to_vec(), 4));
    assert!(!art.insert(b"abc".to_vec(), b"5".to_vec(), 5));
    assert_eq!(art.get(b"abcd").unwrap(), (b"1".to_vec(), 1));
    assert_eq!(art.get(b"abce").unwrap(), (b"2".to_vec(), 2));
    assert_eq!(art.get(b"abc").unwrap(), (b"5".to_vec(), 5));
    assert_eq!(art.get(b"ab").unwrap(), (b"4".to_vec(), 4));
    assert!(art.get(b"a").is_none());
    assert_eq!(art.len(), 4);
    let keys: Vec<Vec<u8>> = art.scan_all().into_iter().map(|e| e.0).collect();
    assert_eq!(
        keys,
        vec![b"ab".to_vec(), b"abc".to_vec(), b"abcd".to_vec(), b"abce".to_vec()]
    );
    assert_eq!(art.remove(b"abc"), Some(b"5".to_vec()));
    assert!(art.get(b"abc").is_none());
    assert_eq!(art.get(b"abcd").unwrap().1, 1);
    assert_eq!(art.get(b"ab").unwrap().1, 4);
}

#[test]
fn art_node_count_and_prefix() {
    let mut n = *ArtNode::new_leaf(b"abc".to_vec(), b"1".to_vec(), 1);
    assert!(n.insert(b"abd".to_vec(), b"2".to_vec(), 2, 0));
    assert_eq!(n.count(), 2);
    assert_eq!(common_prefix(b"abcx", b"abdx"), 2);
    let mut out = Vec::new();
    n.collect_all(&mut out);
    assert_eq!(out.len(), 2);
}

#[test]
fn access_counter_window() {
    let mut c = AccessCounter::new_at(100);
    assert_eq!(c.increment(), 1);
    assert_eq!(c.increment(), 2);
    c.reset_if_expired_at(150, 60);
    assert_eq!(c.count(), 2);
    c.reset_if_expired_at(161, 60);
    assert_eq!(c.count(), 0);
}
