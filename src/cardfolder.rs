use vstd::prelude::*;

use crate::cardface::{major_of, parse_name, CardFace, Segment};

verus! {

/// The views of a sequence of card identifiers.
pub open spec fn card_views(cards: Seq<CardFace>) -> Seq<Seq<Segment>> {
    cards.map_values(|c: CardFace| c@)
}

/// The views of a sequence of strings.
pub open spec fn text_views(names: Seq<String>) -> Seq<Seq<char>> {
    names.map_values(|t: String| t@)
}

/// The largest major number among `cards`, or 0 where there is none.
pub open spec fn max_major(cards: Seq<Seq<Segment>>) -> nat
    decreases cards.len(),
{
    if cards.len() == 0 {
        0
    } else {
        let m = max_major(cards.drop_last());
        let x = major_of(cards.last());
        if x > m {
            x
        } else {
            m
        }
    }
}

/// The identifiers that the names which parse stand for, in order; names that
/// do not parse are left out.
pub open spec fn parsed_cards(names: Seq<Seq<char>>) -> Seq<Seq<Segment>>
    decreases names.len(),
{
    if names.len() == 0 {
        seq![]
    } else {
        let rest = parsed_cards(names.drop_last());
        match parse_name(names.last()) {
            Some(c) => rest.push(c),
            None => rest,
        }
    }
}

/// The first major identifier after every identifier of `cards`: one more
/// than the largest major number, or 1 where `cards` is empty.
pub open spec fn next_available_spec(cards: Seq<Seq<Segment>>) -> Seq<Segment> {
    seq![Segment::Number(max_major(cards) + 1)]
}

/// The folder of open cards, with the names of the files in it.
pub struct CardFolder {
    pub folder: String,
    pub file_names: Vec<String>,
}

impl CardFolder {
    /// A folder at `folder` that holds files named `file_names`.
    pub fn new(folder: String, file_names: Vec<String>) -> (r: CardFolder)
        ensures
            r.folder == folder,
            r.file_names == file_names,
    {
        CardFolder { folder, file_names }
    }

    /// The cards in the folder: the file names that parse as card names.
    pub fn cards(&self) -> (r: Vec<CardFace>)
        ensures
            card_views(r@) == parsed_cards(text_views(self.file_names@)),
    {
        list_cards(&self.file_names)
    }
}

/// The cards that `file_names` stand for; names that do not parse are
/// dropped.
pub fn list_cards(file_names: &Vec<String>) -> (r: Vec<CardFace>)
    ensures
        card_views(r@) == parsed_cards(text_views(file_names@)),
{
    let mut cards: Vec<CardFace> = Vec::new();
    let n = file_names.len();
    for i in 0..n
        invariant
            n == file_names@.len(),
            card_views(cards@) == parsed_cards(text_views(file_names@.take(i as int))),
    {
        let ghost names = text_views(file_names@.take(i + 1));
        assert(names.drop_last() =~= text_views(file_names@.take(i as int)));
        assert(names.last() == file_names@[i as int]@);
        match CardFace::from_name(file_names[i].as_str()) {
            Some(card) => {
                cards.push(card);
                assert(card_views(cards@) =~= parsed_cards(names));
            },
            None => {},
        }
    }
    assert(file_names@.take(n as int) =~= file_names@);
    cards
}

/// The next free major card: one more than the largest major number among
/// `cards`, or 1 where there are none.
pub fn next_available(cards: &Vec<CardFace>) -> (r: CardFace)
    requires
        max_major(card_views(cards@)) < usize::MAX,
    ensures
        r@ == next_available_spec(card_views(cards@)),
{
    let mut latest_number: usize = 0;
    let n = cards.len();
    for i in 0..n
        invariant
            n == cards@.len(),
            latest_number as nat == max_major(card_views(cards@.take(i as int))),
            max_major(card_views(cards@)) < usize::MAX,
    {
        let ghost v = card_views(cards@.take(i + 1));
        assert(v.drop_last() =~= card_views(cards@.take(i as int)));
        assert(v.last() == cards@[i as int]@);
        let x = cards[i].major_number();
        if x > latest_number {
            latest_number = x;
        }
    }
    assert(cards@.take(n as int) =~= cards@);
    CardFace::from_number(latest_number + 1)
}

/// The next free major card among the files named `file_names`.
pub fn next_major_card(file_names: &Vec<String>) -> (r: CardFace)
    requires
        max_major(parsed_cards(text_views(file_names@))) < usize::MAX,
    ensures
        r@ == next_available_spec(parsed_cards(text_views(file_names@))),
{
    let cards = list_cards(file_names);
    next_available(&cards)
}

} // verus!
