use zk::cardface::CardFace;
use zk::commands::{
    delete_tag_of_given_cards, delete_whole_tag, set_tag_to_given_cards, CreateTagHistoryBatch,
    DeleteTag, DeleteTagAll, DropLatestTagHistoryBatch, SetTag, ShowAllCardsHavingTag, ShowTag,
};
use zk::error::ZkError;
use zk::tag::{is_valid_tag, TagStore};

fn strings(v: &[&str]) -> Vec<String> {
    v.iter().map(|s| s.to_string()).collect()
}

#[test]
fn valid_tag_names() {
    assert!(is_valid_tag("DCN1"));
    assert!(is_valid_tag("to-read_2"));
    assert!(!is_valid_tag("1abc"));
    assert!(!is_valid_tag(""));
    assert!(!is_valid_tag("a b"));
    assert!(!is_valid_tag("_a"));
}

#[test]
fn set_then_unset() {
    let mut store = TagStore::new();
    assert_eq!(store.set_tag("foo", 1), Ok(()));
    assert!(store.is_set("foo", 1));
    store.unset_tag("foo", 1);
    assert!(!store.is_set("foo", 1));
    store.unset_tag("foo", 1);
    assert!(!store.is_set("foo", 1));
}

#[test]
fn set_tag_errors() {
    let mut store = TagStore::new();
    assert_eq!(store.set_tag("foo", 1), Ok(()));
    assert_eq!(store.set_tag("foo", 1), Err(ZkError::DuplicateKey));
    assert_eq!(store.set_tag("1foo", 2), Err(ZkError::InvalidFormat));
    assert_eq!(store.tags().len(), 1);
}

#[test]
fn listings_are_sorted_and_deduplicated() {
    let mut store = TagStore::new();
    for (t, c) in [("beta", 3), ("alpha", 7), ("beta", 1), ("Zed", 3), ("alpha", 3)] {
        store.set_tag(t, c).unwrap();
    }
    assert_eq!(store.all_tags(), strings(&["Zed", "alpha", "beta"]));
    assert_eq!(store.tags_of_cards(&vec![3]), strings(&["Zed", "alpha", "beta"]));
    assert_eq!(store.tags_of_cards(&vec![1, 9]), strings(&["beta"]));
    assert_eq!(store.cards_with_tags(&strings(&["beta", "alpha"])), vec![1, 3, 7]);
    assert_eq!(store.cards_with_tags(&strings(&["nothing"])), Vec::<usize>::new());
    assert!(store.tag_exists("alpha"));
    assert!(!store.tag_exists("gamma"));
}

#[test]
fn unset_everywhere() {
    let mut store = TagStore::new();
    store.set_tag("x", 1).unwrap();
    store.set_tag("x", 2).unwrap();
    store.set_tag("y", 2).unwrap();
    assert_eq!(store.unset_tag_everywhere("x"), Ok(()));
    assert!(!store.tag_exists("x"));
    assert!(store.is_set("y", 2));
    assert_eq!(store.unset_tag_everywhere("x"), Err(ZkError::NotFound));
}

#[test]
fn batch_ids_grow() {
    let mut store = TagStore::new();
    assert_eq!(store.latest_batch_id(), 0);
    assert_eq!(store.begin_batch(), 1);
    store.record_in_batch(4, "t", 1);
    store.record_in_batch(2, "t", 2);
    assert_eq!(store.latest_batch_id(), 4);
    assert_eq!(store.begin_batch(), 5);
    assert_eq!(store.history().len(), 2);
}

#[test]
fn undo_removes_exactly_the_latest_batch() {
    let mut store = TagStore::new();
    let first = store.tag_cards_in_batch("old", &vec![1, 2]).unwrap();
    assert_eq!(first, 1);
    let second = store.tag_cards_in_batch("new", &vec![1, 2, 3]).unwrap();
    assert_eq!(second, 2);
    assert!(store.is_set("new", 3));
    store.undo_latest_batch();
    for c in [1, 2, 3] {
        assert!(!store.is_set("new", c));
    }
    assert!(store.is_set("old", 1));
    assert!(store.is_set("old", 2));
    assert_eq!(store.latest_batch_id(), 1);
    assert_eq!(store.history().len(), 2);
}

#[test]
fn batch_skips_cards_that_carry_the_tag() {
    let mut store = TagStore::new();
    store.set_tag("t", 2).unwrap();
    let b = store.tag_cards_in_batch("t", &vec![1, 2]).unwrap();
    assert_eq!(store.history().len(), 1);
    store.undo_latest_batch();
    assert!(!store.is_set("t", 1));
    assert!(store.is_set("t", 2));
    assert_eq!(b, 1);
    assert_eq!(store.tag_cards_in_batch("9t", &vec![1]), Err(ZkError::InvalidFormat));
}

#[test]
fn commands_validate_then_act() {
    let mut store = TagStore::new();
    let face = CardFace::from_name("12a").unwrap();
    let cmd = SetTag::new(&store, "DCN1", face.clone()).unwrap().unwrap();
    assert_eq!(cmd.major_card_number, 12);
    assert_eq!(cmd.call_once(&mut store), Ok(()));
    assert!(SetTag::new(&store, "DCN1", face.clone()).unwrap().is_none());
    assert_eq!(SetTag::new(&store, "1DCN", face.clone()).err(), Some(ZkError::InvalidFormat));

    let show = ShowTag::new_show_all_tags();
    assert_eq!(show.call_once(&store), strings(&["DCN1"]));
    let show = ShowTag::new_show_card_tags(&vec![5]);
    assert!(show.call_once(&store).is_empty());
    let cards = ShowAllCardsHavingTag::new(&strings(&["DCN1"]));
    assert_eq!(cards.call_once(&store), vec![12]);

    DeleteTag::new("DCN1", face).call_once(&mut store);
    assert!(!store.is_set("DCN1", 12));
    assert_eq!(DeleteTagAll::new(&store, "DCN1").err(), Some(ZkError::NotFound));
    store.set_tag("DCN1", 3).unwrap();
    let all = DeleteTagAll::new(&store, "DCN1").unwrap();
    assert_eq!(all.call_once(&mut store), Ok(()));
    assert!(store.all_tags().is_empty());
}

#[test]
fn history_batch_commands() {
    let mut store = TagStore::new();
    let batch = CreateTagHistoryBatch::new(&store);
    assert_eq!(batch.batch_id, 1);
    store.set_tag("a", 1).unwrap();
    batch.call_once(&mut store, "a", 1);
    store.set_tag("a", 2).unwrap();
    batch.call_once(&mut store, "a", 2);
    store.set_tag("keep", 2).unwrap();
    let drop = DropLatestTagHistoryBatch::new(&store);
    assert_eq!(drop.batch_id, 1);
    drop.call_once(&mut store);
    assert!(!store.is_set("a", 1));
    assert!(!store.is_set("a", 2));
    assert!(store.is_set("keep", 2));
    assert!(store.history().is_empty());
}

#[test]
fn tagging_cards_by_name() {
    let mut store = TagStore::new();
    let b = set_tag_to_given_cards(&mut store, "DCN1", &strings(&["15", "101a", "bogus"])).unwrap();
    assert_eq!(b, 1);
    assert!(store.is_set("DCN1", 15));
    assert!(store.is_set("DCN1", 101));
    assert_eq!(store.tags().len(), 2);
    assert_eq!(
        set_tag_to_given_cards(&mut store, "1bad", &strings(&["15"])),
        Err(ZkError::InvalidFormat)
    );
    assert_eq!(
        delete_tag_of_given_cards(&mut store, "DCN1", &strings(&["15", "x"])),
        Err(ZkError::InvalidFormat)
    );
    assert!(store.is_set("DCN1", 15));
    assert_eq!(delete_tag_of_given_cards(&mut store, "DCN1", &strings(&["15"])), Ok(()));
    assert!(!store.is_set("DCN1", 15));
    assert_eq!(delete_whole_tag(&mut store, "DCN1"), Ok(()));
    assert_eq!(delete_whole_tag(&mut store, "DCN1"), Err(ZkError::NotFound));
}
