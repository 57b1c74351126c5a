use std::cmp::Ordering;
use std::path::PathBuf;

use zk::cardface::CardFace;

#[test]
fn test_create() {
    let cards = ["123", "123a", "123a1", "123a1b", "123a1b2"];
    for name in &cards {
        let card = CardFace::from_name(&name).unwrap();
        assert_eq!(card.major_number(), 123usize);
        assert_eq!(card.name(), *name);
    }
}

#[test]
fn test_number() {
    let numbers = [1usize, 123, 4_usize.pow(31)];
    for number in numbers.iter() {
        let name = number.to_string();
        let card = CardFace::from_name(name.as_str()).unwrap();
        assert_eq!(card.major_number(), *number);
    }
}

#[test]
fn cardface_test_negative() {
    let cards = ["", "a123", "a123a1", "123A", "123?"];
    for name in &cards {
        let card = CardFace::from_name(&name);
        assert!(card.is_none());
    }
}

#[test]
fn test_location_in() {
    let card = CardFace::from_name("123a").unwrap();
    let dir = PathBuf::from("./foo/bar");
    let location = PathBuf::from(card.location_in(dir.to_str().unwrap()));
    assert_eq!(location, PathBuf::from("./foo/bar/123a"));
}

#[test]
fn location_in_directory_with_trailing_slash() {
    let card = CardFace::from_name("7b").unwrap();
    assert_eq!(card.location_in("/tmp/zk/"), "/tmp/zk/7b");
    assert_eq!(card.location_in(""), "7b");
}

#[test]
fn name_round_trip() {
    let x = CardFace::from_name("123a1b2").unwrap();
    assert_eq!(x.name(), "123a1b2");
    let y = CardFace::from_name(&x.name()).unwrap();
    assert!(x == y);
}

#[test]
fn leading_zeros_take_the_canonical_name() {
    let x = CardFace::from_name("007a01").unwrap();
    assert_eq!(x.name(), "7a1");
    assert_eq!(x.major_number(), 7);
    assert!(x == CardFace::from_name("7a1").unwrap());
}

#[test]
fn major_number_of_sub_card() {
    assert_eq!(CardFace::from_name("123").unwrap().major_number(), 123);
    assert_eq!(CardFace::from_name("123a5").unwrap().major_number(), 123);
}

#[test]
fn is_major_only_for_single_component() {
    assert!(CardFace::from_name("42").unwrap().is_major());
    assert!(!CardFace::from_name("42x").unwrap().is_major());
    assert!(CardFace::from_number(9).is_major());
    assert_eq!(CardFace::from_number(9).name(), "9");
}

#[test]
fn number_too_large_is_rejected() {
    assert!(CardFace::from_name("99999999999999999999999").is_none());
    let max = usize::MAX.to_string();
    assert_eq!(CardFace::from_name(&max).unwrap().major_number(), usize::MAX);
}

#[test]
fn order_is_lexicographic_over_components() {
    let a = CardFace::from_name("12").unwrap();
    let b = CardFace::from_name("12a").unwrap();
    let c = CardFace::from_name("12b").unwrap();
    let d = CardFace::from_name("12b3").unwrap();
    let e = CardFace::from_name("12b10").unwrap();
    let f = CardFace::from_name("13").unwrap();
    assert_eq!(a.compare(&b), Ordering::Less);
    assert_eq!(b.compare(&c), Ordering::Less);
    assert_eq!(c.compare(&d), Ordering::Less);
    assert_eq!(d.compare(&e), Ordering::Less);
    assert_eq!(e.compare(&f), Ordering::Less);
    assert_eq!(f.compare(&a), Ordering::Greater);
    assert_eq!(d.compare(&CardFace::from_name("12b3").unwrap()), Ordering::Equal);
    assert!(b < c);
    assert!(f > e);
    assert!(a != b);
}
