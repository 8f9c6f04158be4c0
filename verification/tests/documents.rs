use vector_index::documents::DocumentStore;

#[test]
fn new_store_is_empty() {
    let store: DocumentStore<String> = DocumentStore::new();
    assert!(store.get_doc(0).is_none());
}

#[test]
fn add_doc_returns_consecutive_ids() {
    let mut store = DocumentStore::new();
    assert_eq!(store.add_doc("first".to_string()), 0);
    assert_eq!(store.add_doc("second".to_string()), 1);
    assert_eq!(store.add_doc("third".to_string()), 2);
}

#[test]
fn get_doc_returns_what_was_added() {
    let mut store = DocumentStore::new();
    let a = store.add_doc(vec![1u8, 2, 3]);
    let b = store.add_doc(vec![9u8]);
    assert_eq!(store.get_doc(a), Some(&vec![1u8, 2, 3]));
    assert_eq!(store.get_doc(b), Some(&vec![9u8]));
}

#[test]
fn get_doc_out_of_range_is_none() {
    let mut store = DocumentStore::new();
    store.add_doc(7u32);
    assert_eq!(store.get_doc(1), None);
    assert_eq!(store.get_doc(usize::MAX), None);
}
