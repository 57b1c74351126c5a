use zk::cardface::CardFace;
use zk::cardfolder::{list_cards, next_available, next_major_card, CardFolder};
use zk::folder;

fn strings(v: &[&str]) -> Vec<String> {
    v.iter().map(|s| s.to_string()).collect()
}

#[test]
fn next_available_of_no_cards_is_one() {
    let next = next_available(&vec![]);
    assert!(next == CardFace::from_number(1));
    assert_eq!(next.name(), "1");
}

#[test]
fn next_available_follows_largest_major_number() {
    let cards = vec![
        CardFace::from_name("123").unwrap(),
        CardFace::from_name("124a").unwrap(),
        CardFace::from_name("99").unwrap(),
    ];
    let next = next_available(&cards);
    assert!(next == CardFace::from_number(125));
    assert!(next.is_major());
}

#[test]
fn next_major_card_skips_names_that_are_not_cards() {
    let names = strings(&["3", "12b", "notes.txt", "A7", "5x2"]);
    assert_eq!(next_major_card(&names).name(), "13");
    assert_eq!(list_cards(&names).len(), 3);
}

#[test]
fn card_folder_lists_parsable_names() {
    let folder = CardFolder::new("/tmp/cards".to_string(), strings(&["1", "1a", "README", "2"]));
    let cards = folder.cards();
    let names: Vec<String> = cards.iter().map(|c| c.name()).collect();
    assert_eq!(names, strings(&["1", "1a", "2"]));
    assert_eq!(folder.folder, "/tmp/cards");
}

#[test]
fn older_folder_scan_by_digits() {
    assert!(folder::is_major_card("123"));
    assert!(!folder::is_major_card("123a"));
    let files = strings(&["3", "10", "10a", "x", ""]);
    assert_eq!(folder::major_cards(&files), vec![3u64, 10]);
    assert_eq!(folder::get_next_major_card(&vec![3, 10], "/zk"), "/zk/11");
    assert_eq!(folder::get_next_major_card(&vec![], "/zk/"), "/zk/1");
    assert_eq!(folder::next_major_card("/zk", &files), "/zk/11");
}
