use ovn_core::index::fulltext::FullTextIndex;

#[test]
fn test_tokenize() {
    let tokens = FullTextIndex::tokenize("Hello, World! This is a test.");
    assert!(tokens.contains(&"hello".to_string()));
    assert!(tokens.contains(&"world".to_string()));
    assert!(tokens.contains(&"this".to_string()));
    assert!(tokens.contains(&"test".to_string()));
}

#[test]
fn tokenize_drops_short_pieces_and_keeps_order() {
    let tokens = FullTextIndex::tokenize("Hello, World! This is a test.");
    assert_eq!(tokens, vec!["hello", "world", "this", "is", "test"]);
    assert_eq!(FullTextIndex::tokenize(""), Vec::<String>::new());
    assert_eq!(FullTextIndex::tokenize("a b c"), Vec::<String>::new());
    // one non-ASCII char has two UTF-8 bytes, so it is kept
    assert_eq!(FullTextIndex::tokenize("é x"), vec!["é"]);
    assert_eq!(FullTextIndex::tokenize("x2y_z9"), vec!["x2y", "z9"]);
}

#[test]
fn stem_strips_suffixes() {
    assert_eq!(FullTextIndex::stem("Running"), "runn");
    assert_eq!(FullTextIndex::stem("sing"), "sing");
    assert_eq!(FullTextIndex::stem("nation"), "nation");
    assert_eq!(FullTextIndex::stem("creation"), "crea");
    assert_eq!(FullTextIndex::stem("kindness"), "kind");
    assert_eq!(FullTextIndex::stem("payment"), "pay");
    assert_eq!(FullTextIndex::stem("quickly"), "quick");
    assert_eq!(FullTextIndex::stem("boxes"), "box");
    assert_eq!(FullTextIndex::stem("jumped"), "jump");
    assert_eq!(FullTextIndex::stem("cats"), "cat");
    assert_eq!(FullTextIndex::stem("glass"), "glass");
    assert_eq!(FullTextIndex::stem("bus"), "bus");
}

#[test]
fn index_document_records_positions() {
    let mut fti = FullTextIndex::new("content_text".to_string(), vec!["content".to_string()]);
    let doc1 = [1u8; 16];
    let doc2 = [2u8; 16];
    fti.index_document(doc1, 0, "The quick brown fox jumps over the lazy dog").unwrap();
    fti.index_document(doc2, 3, "A quick red car drives fast").unwrap();
    assert_eq!(fti.doc_count(), 2);

    let the = fti.postings_of("the").unwrap();
    assert_eq!(the.len(), 1);
    assert_eq!(the[0].doc_id, doc1);
    assert_eq!(the[0].term_frequency, 2);
    assert_eq!(the[0].positions, vec![0, 6]);

    let quick = fti.postings_of("quick").unwrap();
    assert_eq!(quick.len(), 2);
    assert_eq!(quick[0].doc_id, doc1);
    assert_eq!(quick[0].positions, vec![1]);
    assert_eq!(quick[1].doc_id, doc2);
    assert_eq!(quick[1].field_id, 3);
    assert_eq!(quick[1].positions, vec![0]);

    // "jumps" is stored under its stem
    assert!(fti.postings_of("jumps").is_none());
    assert_eq!(fti.postings_of("jump").unwrap().len(), 1);
    assert!(fti.postings_of("missing").is_none());
}

#[test]
fn remove_document_drops_its_postings() {
    let mut fti = FullTextIndex::new("t".to_string(), vec![]);
    let doc1 = [1u8; 16];
    let doc2 = [2u8; 16];
    fti.index_document(doc1, 0, "quick fox").unwrap();
    fti.index_document(doc2, 0, "quick car").unwrap();
    fti.remove_document(&doc1);
    assert!(fti.postings_of("fox").is_none());
    let quick = fti.postings_of("quick").unwrap();
    assert_eq!(quick.len(), 1);
    assert_eq!(quick[0].doc_id, doc2);
    assert_eq!(fti.doc_count(), 2);
}

#[test]
fn remove_after_index_restores_postings() {
    let mut fti = FullTextIndex::new("t".to_string(), vec![]);
    fti.index_document([1u8; 16], 0, "alpha beta").unwrap();
    fti.index_document([2u8; 16], 0, "beta gamma").unwrap();
    fti.remove_document(&[2u8; 16]);
    assert_eq!(fti.postings_of("beta").unwrap().len(), 1);
    assert_eq!(fti.postings_of("alpha").unwrap().len(), 1);
    assert!(fti.postings_of("gamma").is_none());
}
