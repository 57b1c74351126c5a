use zk::carddb::{cards, save_card_and_hash, save_cards, CardIndex};
use zk::cardface::CardFace;

#[test]
fn upsert_replaces_the_digest() {
    let mut index = CardIndex::new();
    let card = CardFace::from_name("4a").unwrap();
    let h1 = zk::hash::Hash::compute(b"v1");
    let h2 = zk::hash::Hash::compute(b"v2");
    save_card_and_hash(&mut index, &card, &h1);
    save_card_and_hash(&mut index, &card, &h1);
    assert_eq!(index.records().len(), 1);
    save_card_and_hash(&mut index, &card, &h2);
    assert_eq!(index.records().len(), 1);
    let stored = index.records()[0].content_sha256.as_ref().unwrap();
    assert!(*stored == h2);
    assert_eq!(index.records()[0].card_name, "4a");
}

#[test]
fn save_cards_inserts_missing_only() {
    let mut index = CardIndex::new();
    let h = zk::hash::Hash::compute(b"v");
    save_card_and_hash(&mut index, &CardFace::from_name("1").unwrap(), &h);
    let batch = vec![CardFace::from_name("1").unwrap(), CardFace::from_name("2").unwrap()];
    save_cards(&mut index, &batch);
    assert_eq!(index.records().len(), 2);
    assert!(index.records()[0].content_sha256.is_some());
    assert!(index.records()[1].content_sha256.is_none());
}

#[test]
fn unparsable_stored_names_are_dropped() {
    let mut index = CardIndex::new();
    assert!(index.insert_if_absent("3b", None));
    assert!(index.insert_if_absent("garbage", None));
    assert!(!index.insert_if_absent("3b", None));
    assert!(index.insert_if_absent("1", None));
    let names: Vec<String> = cards(&index).iter().map(|c| c.name()).collect();
    assert_eq!(names, vec!["3b".to_string(), "1".to_string()]);
}
