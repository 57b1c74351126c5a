use vstd::prelude::*;

use crate::cardface::{major_of, parse_name, CardFace, Segment};
use crate::cardfolder::{list_cards, card_views, parsed_cards, text_views};
use crate::error::ZkError;
use crate::sorted::{sorted_numbers, sorted_texts, string_views};
use crate::tag::{
    cards_of, is_valid_tag, max_batch, tag_batch_spec, tag_exists, tag_names, tags_of, valid_tag,
    TagPair, TagStore,
};

verus! {

/// A command to set a tag on a card, made only where the card does not carry
/// the tag yet.
pub struct SetTag {
    pub tag_name: String,
    pub major_card_number: usize,
}

/// A command to remove a tag from a card.
pub struct DeleteTag {
    pub tag_name: String,
    pub major_card_number: usize,
}

/// A command to remove a tag from every card, made only where some card
/// carries it.
pub struct DeleteTagAll {
    pub tag_name: String,
}

/// A new batch of the tagging history.
pub struct CreateTagHistoryBatch {
    pub batch_id: usize,
}

/// A command to undo the latest batch of the tagging history.
pub struct DropLatestTagHistoryBatch {
    pub batch_id: usize,
}

/// A query of tag names: of all tags, or of the tags on the given cards.
pub struct ShowTag {
    pub major_card_numbers: Option<Vec<usize>>,
}

/// A query of the cards that carry any of the given tags.
pub struct ShowAllCardsHavingTag {
    pub tag_names: Vec<String>,
}

fn copy_numbers(v: &Vec<usize>) -> (r: Vec<usize>)
    ensures
        r@ == v@,
{
    let mut r: Vec<usize> = Vec::new();
    for i in 0..v.len()
        invariant
            r@ =~= v@.take(i as int),
    {
        r.push(v[i]);
    }
    assert(r@ =~= v@);
    r
}

fn copy_texts(v: &Vec<String>) -> (r: Vec<String>)
    ensures
        string_views(r@) == string_views(v@),
{
    let mut r: Vec<String> = Vec::new();
    for i in 0..v.len()
        invariant
            string_views(r@) =~= string_views(v@).take(i as int),
    {
        let ghost before = r@;
        r.push(v[i].clone());
        assert(string_views(r@) =~= string_views(before).push(v@[i as int]@));
        assert(string_views(v@).take(i + 1) =~= string_views(v@).take(i as int).push(v@[i as int]@));
    }
    assert(string_views(r@) =~= string_views(v@));
    r
}

impl ShowTag {
    /// A query of all tags.
    pub fn new_show_all_tags() -> (r: ShowTag)
        ensures
            r.major_card_numbers is None,
    {
        ShowTag { major_card_numbers: None }
    }

    /// A query of the tags on `major_card_numbers`.
    pub fn new_show_card_tags(major_card_numbers: &Vec<usize>) -> (r: ShowTag)
        ensures
            r.major_card_numbers matches Some(v) && v@ == major_card_numbers@,
    {
        ShowTag { major_card_numbers: Some(copy_numbers(major_card_numbers)) }
    }

    /// The tag names asked for, sorted, each once.
    pub fn call_once(&self, store: &TagStore) -> (r: Vec<String>)
        ensures
            sorted_texts(string_views(r@)),
            string_views(r@).to_set() == match self.major_card_numbers {
                Some(v) => tags_of(store@.tags, v@),
                None => tag_names(store@.tags),
            },
    {
        match &self.major_card_numbers {
            Some(v) => store.tags_of_cards(v),
            None => store.all_tags(),
        }
    }
}

impl SetTag {
    /// Validates the setting of `tag_name` on the major card of `face`:
    /// `InvalidFormat` on an invalid tag name, `None` where the card carries
    /// the tag already, else the command.
    pub fn new(store: &TagStore, tag_name: &str, face: CardFace) -> (r: Result<
        Option<SetTag>,
        ZkError,
    >)
        ensures
            match r {
                Err(e) => e == ZkError::InvalidFormat && !valid_tag(tag_name@),
                Ok(None) => valid_tag(tag_name@) && store@.tags.contains(
                    (tag_name@, major_of(face@) as usize),
                ),
                Ok(Some(c)) => valid_tag(tag_name@) && !store@.tags.contains(
                    (tag_name@, major_of(face@) as usize),
                ) && c.tag_name@ == tag_name@ && c.major_card_number as nat == major_of(face@),
            },
    {
        if !is_valid_tag(tag_name) {
            return Err(ZkError::InvalidFormat);
        }
        let major_card_number = face.major_number();
        if store.is_set(tag_name, major_card_number) {
            Ok(None)
        } else {
            Ok(Some(SetTag { tag_name: String::from_str(tag_name), major_card_number }))
        }
    }

    /// Sets the tag.
    pub fn call_once(self, store: &mut TagStore) -> (r: Result<(), ZkError>)
        ensures
            r is Ok <==> valid_tag(self.tag_name@) && !old(store)@.tags.contains(
                (self.tag_name@, self.major_card_number),
            ),
            final(store)@.tags == if r is Ok {
                old(store)@.tags.insert((self.tag_name@, self.major_card_number))
            } else {
                old(store)@.tags
            },
            final(store)@.history == old(store)@.history,
    {
        store.set_tag(self.tag_name.as_str(), self.major_card_number)
    }
}

impl DeleteTag {
    /// The removal of `tag` from the major card of `face`.
    pub fn new(tag: &str, face: CardFace) -> (r: DeleteTag)
        ensures
            r.tag_name@ == tag@,
            r.major_card_number as nat == major_of(face@),
    {
        let major_card_number = face.major_number();
        DeleteTag { tag_name: String::from_str(tag), major_card_number }
    }

    /// Removes the tag; nothing happens where the card does not carry it.
    pub fn call_once(self, store: &mut TagStore)
        ensures
            final(store)@.tags == old(store)@.tags.remove(
                (self.tag_name@, self.major_card_number),
            ),
            final(store)@.history == old(store)@.history,
    {
        store.unset_tag(self.tag_name.as_str(), self.major_card_number)
    }
}

impl DeleteTagAll {
    /// Validates the removal of `tag_name` from every card: `NotFound` where
    /// no card carries it.
    pub fn new(store: &TagStore, tag_name: &str) -> (r: Result<DeleteTagAll, ZkError>)
        ensures
            match r {
                Ok(c) => tag_exists(store@.tags, tag_name@) && c.tag_name@ == tag_name@,
                Err(e) => !tag_exists(store@.tags, tag_name@) && e == ZkError::NotFound,
            },
    {
        if store.tag_exists(tag_name) {
            Ok(DeleteTagAll { tag_name: String::from_str(tag_name) })
        } else {
            Err(ZkError::NotFound)
        }
    }

    /// Removes the tag from every card; `NotFound` where no card carries it.
    pub fn call_once(&self, store: &mut TagStore) -> (r: Result<(), ZkError>)
        ensures
            r is Ok <==> tag_exists(old(store)@.tags, self.tag_name@),
            r is Err ==> r == Err::<(), ZkError>(ZkError::NotFound) && final(store)@ == old(
                store,
            )@,
            r is Ok ==> final(store)@.tags == old(store)@.tags.filter(
                |p: (Seq<char>, usize)| p.0 != self.tag_name@,
            ) && final(store)@.history == old(store)@.history,
    {
        store.unset_tag_everywhere(self.tag_name.as_str())
    }
}

impl CreateTagHistoryBatch {
    /// A new batch, one after the latest.
    pub fn new(store: &TagStore) -> (r: CreateTagHistoryBatch)
        requires
            max_batch(store@.history) < usize::MAX,
        ensures
            r.batch_id as nat == max_batch(store@.history) + 1,
    {
        CreateTagHistoryBatch { batch_id: store.begin_batch() }
    }

    /// Records in this batch that `tag_name` was set on `major_card_number`.
    pub fn call_once(&self, store: &mut TagStore, tag_name: &str, major_card_number: usize)
        ensures
            final(store)@.tags == old(store)@.tags,
            final(store)@.history == old(store)@.history.push(
                (self.batch_id, tag_name@, major_card_number),
            ),
    {
        store.record_in_batch(self.batch_id, tag_name, major_card_number)
    }
}

impl DropLatestTagHistoryBatch {
    /// The undoing of the latest batch.
    pub fn new(store: &TagStore) -> (r: DropLatestTagHistoryBatch)
        ensures
            r.batch_id as nat == max_batch(store@.history),
    {
        DropLatestTagHistoryBatch { batch_id: store.latest_batch_id() }
    }

    /// Removes the tag pairs that the batch recorded, then its rows.
    pub fn call_once(self, store: &mut TagStore)
        ensures
            final(store)@ == crate::tag::undo_batch_spec(old(store)@, self.batch_id as nat),
    {
        store.undo_batch(self.batch_id)
    }
}

impl ShowAllCardsHavingTag {
    /// A query of the cards that carry any of `tag_names`.
    pub fn new(tag_names: &Vec<String>) -> (r: ShowAllCardsHavingTag)
        ensures
            string_views(r.tag_names@) == string_views(tag_names@),
    {
        ShowAllCardsHavingTag { tag_names: copy_texts(tag_names) }
    }

    /// The cards asked for, in increasing order, each once.
    pub fn call_once(&self, store: &TagStore) -> (r: Vec<usize>)
        ensures
            sorted_numbers(r@),
            r@.to_set() == cards_of(store@.tags, string_views(self.tag_names@)),
    {
        store.cards_with_tags(&self.tag_names)
    }
}

/// The major numbers of a sequence of card identifiers.
pub open spec fn majors_of(cards: Seq<Seq<Segment>>) -> Seq<usize> {
    cards.map_values(|c: Seq<Segment>| major_of(c) as usize)
}

fn major_numbers(cards: &Vec<CardFace>) -> (r: Vec<usize>)
    ensures
        r@ == majors_of(card_views(cards@)),
{
    let mut r: Vec<usize> = Vec::new();
    for i in 0..cards.len()
        invariant
            r@ =~= majors_of(card_views(cards@)).take(i as int),
    {
        r.push(cards[i].major_number());
    }
    assert(r@ =~= majors_of(card_views(cards@)));
    r
}

/// Sets `tag_name`, in one new batch, on the major card of each name of
/// `card_names` that parses as a card name and does not carry the tag yet;
/// other names are passed over. Returns the batch id, or `InvalidFormat`,
/// with no change, on an invalid tag name.
pub fn set_tag_to_given_cards(store: &mut TagStore, tag_name: &str, card_names: &Vec<String>) -> (r:
    Result<usize, ZkError>)
    requires
        max_batch(old(store)@.history) < usize::MAX,
    ensures
        match r {
            Ok(b) => valid_tag(tag_name@) && b as nat == max_batch(old(store)@.history) + 1
                && final(store)@ == tag_batch_spec(
                old(store)@,
                tag_name@,
                majors_of(parsed_cards(text_views(card_names@))),
                b,
            ),
            Err(e) => !valid_tag(tag_name@) && e == ZkError::InvalidFormat && final(store)@ == old(
                store,
            )@,
        },
{
    if !is_valid_tag(tag_name) {
        return Err(ZkError::InvalidFormat);
    }
    let cards = list_cards(card_names);
    let majors = major_numbers(&cards);
    store.tag_cards_in_batch(tag_name, &majors)
}

/// The pairs of tag `t` on any card of `cards`.
pub open spec fn pairs_on(t: Seq<char>, cards: Seq<usize>) -> Set<TagPair> {
    Set::new(|p: TagPair| p.0 == t && cards.contains(p.1))
}

/// Removes `tag` from the major card of each name of `cards`. Fails with
/// `InvalidFormat`, before any change, where a name is not a card name.
pub fn delete_tag_of_given_cards(store: &mut TagStore, tag: &str, cards: &Vec<String>) -> (r: Result<
    (),
    ZkError,
>)
    ensures
        r is Ok <==> forall|i: int| 0 <= i < cards@.len() ==> parse_name(#[trigger] cards@[i]@) is Some,
        r is Err ==> r == Err::<(), ZkError>(ZkError::InvalidFormat) && final(store)@ == old(store)@,
        r is Ok ==> final(store)@.tags == old(store)@.tags.difference(
            pairs_on(tag@, majors_of(parsed_cards(text_views(cards@)))),
        ) && final(store)@.history == old(store)@.history,
{
    let mut cmds: Vec<DeleteTag> = Vec::new();
    let n = cards.len();
    for i in 0..n
        invariant
            n == cards@.len(),
            forall|j: int| 0 <= j < i ==> parse_name(#[trigger] cards@[j]@) is Some,
            parsed_cards(text_views(cards@.take(i as int))).len() == cmds@.len(),
            forall|j: int|
                0 <= j < cmds@.len() ==> (#[trigger] cmds@[j]).tag_name@ == tag@
                    && cmds@[j].major_card_number == majors_of(
                    parsed_cards(text_views(cards@.take(i as int))),
                )[j],
    {
        let ghost names = text_views(cards@.take(i + 1));
        assert(names.drop_last() =~= text_views(cards@.take(i as int)));
        assert(names.last() == cards@[i as int]@);
        match CardFace::from_name(cards[i].as_str()) {
            Some(face) => {
                cmds.push(DeleteTag::new(tag, face));
            },
            None => {
                return Err(ZkError::InvalidFormat);
            },
        }
    }
    assert(cards@.take(n as int) =~= cards@);
    let ghost majors = majors_of(parsed_cards(text_views(cards@)));
    let ghost t0 = store@.tags;
    let m = cmds.len();
    assert(t0.difference(pairs_on(tag@, majors.take(0))) =~= t0);
    let mut k: usize = 0;
    while k < m
        invariant
            m == cmds@.len() == majors.len(),
            k <= m,
            forall|j: int|
                0 <= j < m ==> (#[trigger] cmds@[j]).tag_name@ == tag@
                    && cmds@[j].major_card_number == majors[j],
            store@.tags == t0.difference(pairs_on(tag@, majors.take(k as int))),
            store@.history == old(store)@.history,
            t0 == old(store)@.tags,
        decreases m - k,
    {
        let c = &cmds[k];
        store.unset_tag(c.tag_name.as_str(), c.major_card_number);
        assert forall|p: TagPair| #[trigger] pairs_on(tag@, majors.take(k + 1)).contains(p) == (
        pairs_on(tag@, majors.take(k as int)).contains(p) || p == (tag@, majors[k as int])) by {
            if pairs_on(tag@, majors.take(k + 1)).contains(p) {
                let j = choose|j: int| 0 <= j < k + 1 && #[trigger] majors.take(k + 1)[j] == p.1;
                if j < k {
                    assert(majors.take(k as int)[j] == p.1);
                }
            }
            if pairs_on(tag@, majors.take(k as int)).contains(p) {
                let j = choose|j: int| 0 <= j < k && #[trigger] majors.take(k as int)[j] == p.1;
                assert(majors.take(k + 1)[j] == p.1);
            }
            if p == (tag@, majors[k as int]) {
                assert(majors.take(k + 1)[k as int] == p.1);
            }
        }
        assert(store@.tags =~= t0.difference(pairs_on(tag@, majors.take(k + 1))));
        k = k + 1;
    }
    assert(majors.take(m as int) =~= majors);
    Ok(())
}

/// Removes `tag` from every card; `NotFound`, with no change, where no card
/// carries it.
pub fn delete_whole_tag(store: &mut TagStore, tag: &str) -> (r: Result<(), ZkError>)
    ensures
        r is Ok <==> tag_exists(old(store)@.tags, tag@),
        r is Err ==> r == Err::<(), ZkError>(ZkError::NotFound) && final(store)@ == old(store)@,
        r is Ok ==> final(store)@.tags == old(store)@.tags.filter(|p: TagPair| p.0 != tag@)
            && final(store)@.history == old(store)@.history,
{
    match DeleteTagAll::new(store, tag) {
        Ok(cmd) => cmd.call_once(store),
        Err(e) => Err(e),
    }
}

} // verus!
