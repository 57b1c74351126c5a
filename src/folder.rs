use vstd::prelude::*;
use vstd::string::*;

use crate::cardface::{path_in, path_join};
use crate::cardfolder::text_views;
use crate::text::{decimal_string, decimal_text, decimal_value, is_digit, parse_decimal};

verus! {

/// Whether every character of `s` is a decimal digit.
pub open spec fn all_digits(s: Seq<char>) -> bool {
    forall|i: int| 0 <= i < s.len() ==> is_digit(#[trigger] s[i])
}

/// The numbers of the major card files among `names`, in order: the names
/// made of digits alone whose number fits in `usize`.
pub open spec fn major_numbers(names: Seq<Seq<char>>) -> Seq<u64>
    decreases names.len(),
{
    if names.len() == 0 {
        seq![]
    } else {
        let rest = major_numbers(names.drop_last());
        let t = names.last();
        if t.len() > 0 && all_digits(t) && decimal_value(t) <= usize::MAX {
            rest.push(decimal_value(t) as u64)
        } else {
            rest
        }
    }
}

/// The largest of `v`, or 0 where it is empty.
pub open spec fn max_of(v: Seq<u64>) -> nat
    decreases v.len(),
{
    if v.len() == 0 {
        0
    } else if v.last() as nat > max_of(v.drop_last()) {
        v.last() as nat
    } else {
        max_of(v.drop_last())
    }
}

/// Whether the file name `file` is made of digits alone.
pub fn is_major_card(file: &str) -> (r: bool)
    ensures
        r == all_digits(file@),
{
    let n = file.unicode_len();
    for i in 0..n
        invariant
            n == file@.len(),
            forall|k: int| 0 <= k < i ==> is_digit(#[trigger] file@[k]),
    {
        let ch = file.get_char(i);
        if !('0' <= ch && ch <= '9') {
            return false;
        }
    }
    true
}

/// The numbers of the major card files among `files`.
pub fn major_cards(files: &Vec<String>) -> (r: Vec<u64>)
    ensures
        r@ == major_numbers(text_views(files@)),
{
    let mut major_cards: Vec<u64> = Vec::new();
    let n = files.len();
    for i in 0..n
        invariant
            n == files@.len(),
            major_cards@ == major_numbers(text_views(files@.take(i as int))),
    {
        let ghost names = text_views(files@.take(i + 1));
        assert(names.drop_last() =~= text_views(files@.take(i as int)));
        assert(names.last() == files@[i as int]@);
        let name = files[i].as_str();
        if name.unicode_len() > 0 && is_major_card(name) {
            match parse_decimal(name) {
                Some(card_number) => {
                    major_cards.push(card_number as u64);
                },
                None => {},
            }
        }
    }
    assert(files@.take(n as int) =~= files@);
    major_cards
}

/// The path, inside `path`, of the major card after the largest of
/// `major_cards`.
pub fn get_next_major_card(major_cards: &Vec<u64>, path: &str) -> (r: String)
    requires
        max_of(major_cards@) < u64::MAX,
    ensures
        r@ == path_in(path@, decimal_text(max_of(major_cards@) + 1)),
{
    let mut latest_major_card: u64 = 0;
    let n = major_cards.len();
    for i in 0..n
        invariant
            n == major_cards@.len(),
            latest_major_card as nat == max_of(major_cards@.take(i as int)),
    {
        assert(major_cards@.take(i + 1).drop_last() =~= major_cards@.take(i as int));
        if major_cards[i] > latest_major_card {
            latest_major_card = major_cards[i];
        }
    }
    assert(major_cards@.take(n as int) =~= major_cards@);
    let next = decimal_string(latest_major_card + 1);
    path_join(path, next.as_str())
}

/// The path of the next major card file in the folder `folder`, whose files
/// are named `file_names`.
pub fn next_major_card(folder: &str, file_names: &Vec<String>) -> (r: String)
    requires
        max_of(major_numbers(text_views(file_names@))) < u64::MAX,
    ensures
        r@ == path_in(folder@, decimal_text(max_of(major_numbers(text_views(file_names@))) + 1)),
{
    let all_cards = major_cards(file_names);
    get_next_major_card(&all_cards, folder)
}

} // verus!
