use zk::content::ContentStore;
use zk::error::ZkError;

#[test]
fn put_twice_keeps_one_record() {
    let mut store = ContentStore::new();
    let d1 = store.put(b"card body");
    assert_eq!(store.get(&d1).unwrap(), b"card body".to_vec());
    let d2 = store.put(b"card body");
    assert!(d1 == d2);
    assert_eq!(store.len(), 1);
    assert_eq!(store.records().len(), 1);
    assert_eq!(store.get(&d2).unwrap(), b"card body".to_vec());
}

#[test]
fn put_of_different_bytes_keeps_two_records() {
    let mut store = ContentStore::new();
    let d1 = store.put(b"first");
    let d2 = store.put(b"second");
    assert!(d1 != d2);
    assert_eq!(store.len(), 2);
    assert_eq!(store.get(&d1).unwrap(), b"first".to_vec());
    assert_eq!(store.get(&d2).unwrap(), b"second".to_vec());
}

#[test]
fn put_returns_the_sha256_digest() {
    let mut store = ContentStore::new();
    let d = store.put(b"abc");
    assert_eq!(
        d.to_string(),
        "ba7816bf8f01cfea414140de5dae2223b00361a396177a9cb410ff61f20015ad"
    );
}

#[test]
fn get_of_unknown_digest_is_not_found() {
    let store = ContentStore::new();
    let d = zk::hash::Hash::compute(b"missing");
    assert_eq!(store.get(&d), Err(ZkError::NotFound));
}

#[test]
fn truncated_blob_is_reported() {
    let mut store = ContentStore::new();
    let d = store.put(b"secret");
    assert_eq!(store.truncate(&d), Ok(()));
    assert_eq!(store.get(&d), Err(ZkError::Truncated));
    assert_eq!(store.len(), 1);
    let again = store.put(b"secret");
    assert!(again == d);
    assert_eq!(store.get(&d), Err(ZkError::Truncated));
    let other = zk::hash::Hash::compute(b"other");
    assert_eq!(store.truncate(&other), Err(ZkError::NotFound));
}

#[test]
fn first_writer_wins_on_insert_record() {
    let mut store = ContentStore::new();
    let d = zk::hash::Hash::compute(b"x");
    assert!(store.insert_record(d.clone(), None));
    assert!(!store.insert_record(d.clone(), Some(b"x".to_vec())));
    assert_eq!(store.get(&d), Err(ZkError::Truncated));
}
