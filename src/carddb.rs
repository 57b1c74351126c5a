use vstd::prelude::*;

use crate::cardface::{name_text, CardFace};
use crate::cardfolder::{card_views, parsed_cards};
use crate::keyed::{lemma_lookup_exists, lemma_lookup_update, lemma_push_unique, lookup, unique_keys};

verus! {

/// A card record as a value: the card name and the digest of its content,
/// where one was stored.
pub type CardEntry = (Seq<char>, Option<Seq<u8>>);

/// A card record: the name of a card and the digest of its content.
pub struct CardRecord {
    pub card_name: String,
    pub content_sha256: Option<crate::hash::Hash>,
}

impl View for CardRecord {
    type V = CardEntry;

    open spec fn view(&self) -> CardEntry {
        (
            self.card_name@,
            match self.content_sha256 {
                Some(h) => Some(h@),
                None => None,
            },
        )
    }
}

pub open spec fn entry_views(v: Seq<CardRecord>) -> Seq<CardEntry> {
    v.map_values(|r: CardRecord| r@)
}

/// The names of the entries, in order.
pub open spec fn entry_names(s: Seq<CardEntry>) -> Seq<Seq<char>> {
    s.map_values(|e: CardEntry| e.0)
}

/// The index of cards: at most one record per card name.
pub struct CardIndex {
    records: Vec<CardRecord>,
}

impl View for CardIndex {
    type V = Seq<CardEntry>;

    closed spec fn view(&self) -> Seq<CardEntry> {
        entry_views(self.records@)
    }
}

impl CardIndex {
    #[verifier::type_invariant]
    spec fn names_unique(&self) -> bool {
        unique_keys(self@)
    }

    /// An empty index.
    pub fn new() -> (r: CardIndex)
        ensures
            r@ == Seq::<CardEntry>::empty(),
    {
        let r = CardIndex { records: Vec::new() };
        assert(r@ =~= Seq::<CardEntry>::empty());
        r
    }

    fn find(&self, name: &str) -> (r: Option<usize>)
        ensures
            match r {
                Some(i) => i < self@.len() && self@[i as int].0 == name@,
                None => lookup(self@, name@) is None,
            },
    {
        let n = self.records.len();
        let mut k: usize = n;
        assert(self@.take(n as int) =~= self@);
        while k > 0
            invariant
                k <= n == self@.len(),
                lookup(self@, name@) == lookup(self@.take(k as int), name@),
            decreases k,
        {
            let ghost t = self@.take(k as int);
            assert(t.drop_last() =~= self@.take(k - 1));
            assert(t.last() == self@[k - 1]);
            if crate::text::same_text(self.records[k - 1].card_name.as_str(), name) {
                return Some(k - 1);
            }
            k = k - 1;
        }
        None
    }

    /// Adds the record `(name, digest)` where no record for `name` exists;
    /// returns whether it was added.
    pub fn insert_if_absent(&mut self, name: &str, digest: Option<crate::hash::Hash>) -> (r: bool)
        ensures
            r == (lookup(old(self)@, name@) is None),
            final(self)@ == if r {
                old(self)@.push(
                    (
                        name@,
                        match digest {
                            Some(h) => Some(h@),
                            None => None,
                        },
                    ),
                )
            } else {
                old(self)@
            },
    {
        proof {
            use_type_invariant(&*self);
        }
        match self.find(name) {
            Some(i) => {
                proof {
                    lemma_lookup_exists(self@, name@);
                }
                false
            },
            None => {
                let mut records: Vec<CardRecord> = Vec::new();
                std::mem::swap(&mut records, &mut self.records);
                records.push(CardRecord { card_name: String::from_str(name), content_sha256: digest });
                assert(entry_views(records@) =~= old(self)@.push(records@.last()@));
                proof {
                    lemma_push_unique(old(self)@, name@, records@.last()@.1);
                }
                self.records = records;
                true
            },
        }
    }

    /// Sets the digest of the card named `name`, adding a record for it where
    /// there is none.
    pub fn upsert(&mut self, name: &str, digest: &crate::hash::Hash)
        ensures
            forall|k: Seq<char>|
                #[trigger] lookup(final(self)@, k) == if k == name@ {
                    Some(Some(digest@))
                } else {
                    lookup(old(self)@, k)
                },
            final(self)@.len() == old(self)@.len() + if lookup(old(self)@, name@) is Some {
                0int
            } else {
                1int
            },
    {
        proof {
            use_type_invariant(&*self);
            lemma_lookup_exists(self@, name@);
        }
        match self.find(name) {
            Some(i) => {
                let mut records: Vec<CardRecord> = Vec::new();
                std::mem::swap(&mut records, &mut self.records);
                let old_record = records.remove(i);
                records.insert(
                    i,
                    CardRecord { card_name: old_record.card_name, content_sha256: Some(digest.clone()) },
                );
                assert(entry_views(records@) =~= old(self)@.update(
                    i as int,
                    (old(self)@[i as int].0, Some(digest@)),
                ));
                proof {
                    lemma_lookup_update(old(self)@, i as int, Some(digest@));
                }
                self.records = records;
            },
            None => {
                let d = digest.clone();
                self.insert_if_absent(name, Some(d));
                assert(self@.drop_last() =~= old(self)@);
            },
        }
    }

    /// All records, in the order they were added.
    pub fn records(&self) -> (r: &Vec<CardRecord>)
        ensures
            entry_views(r@) == self@,
    {
        &self.records
    }
}

/// Records `hash` as the content digest of `card`, replacing any digest
/// recorded for it before.
pub fn save_card_and_hash(index: &mut CardIndex, card: &CardFace, hash: &crate::hash::Hash)
    ensures
        forall|k: Seq<char>|
            #[trigger] lookup(final(index)@, k) == if k == name_text(card@) {
                Some(Some(hash@))
            } else {
                lookup(old(index)@, k)
            },
{
    let name = card.name();
    index.upsert(name.as_str(), hash);
}

/// Adds a record without digest for each card of `cards` that has none.
pub fn save_cards(index: &mut CardIndex, cards: &Vec<CardFace>)
    ensures
        forall|k: Seq<char>|
            #[trigger] lookup(final(index)@, k) == if lookup(old(index)@, k) is Some {
                lookup(old(index)@, k)
            } else if exists|i: int| 0 <= i < cards@.len() && name_text(#[trigger] cards@[i]@) == k {
                Some(None)
            } else {
                None
            },
{
    let n = cards.len();
    for j in 0..n
        invariant
            n == cards@.len(),
            forall|k: Seq<char>|
                #[trigger] lookup(index@, k) == if lookup(old(index)@, k) is Some {
                    lookup(old(index)@, k)
                } else if exists|i: int| 0 <= i < j && name_text(#[trigger] cards@[i]@) == k {
                    Some(None)
                } else {
                    None
                },
    {
        let name = cards[j].name();
        let ghost before = index@;
        index.insert_if_absent(name.as_str(), None);
        assert forall|k: Seq<char>|
            #[trigger] lookup(index@, k) == if lookup(old(index)@, k) is Some {
                lookup(old(index)@, k)
            } else if exists|i: int| 0 <= i < j + 1 && name_text(#[trigger] cards@[i]@) == k {
                Some(None)
            } else {
                None
            } by {
            if exists|i: int| 0 <= i < j + 1 && name_text(#[trigger] cards@[i]@) == k {
                let i = choose|i: int| 0 <= i < j + 1 && name_text(#[trigger] cards@[i]@) == k;
                if i < j {
                    assert(exists|i: int| 0 <= i < j && name_text(#[trigger] cards@[i]@) == k);
                }
            }
            assert(before.push((name@, None)).drop_last() =~= before);
            assert(name_text(cards@[j as int]@) == name@);
            let prev = lookup(before, k);
            if k == name@ && prev is None {
                assert(lookup(index@, k) == Some::<Option<Seq<u8>>>(None));
            }
            if k == name@ {
                assert(exists|i: int| 0 <= i < j + 1 && name_text(#[trigger] cards@[i]@) == k);
            }
        }
    }
}

/// The cards that the stored names stand for, in order; names that do not
/// parse are dropped.
pub fn cards(index: &CardIndex) -> (r: Vec<CardFace>)
    ensures
        card_views(r@) == parsed_cards(entry_names(index@)),
{
    let records = index.records();
    let mut names: Vec<String> = Vec::new();
    for i in 0..records.len()
        invariant
            entry_views(records@) == index@,
            crate::cardfolder::text_views(names@) =~= entry_names(index@).take(i as int),
    {
        let ghost before = names@;
        names.push(records[i].card_name.clone());
        assert(crate::cardfolder::text_views(names@) =~= crate::cardfolder::text_views(before).push(
            records@[i as int].card_name@,
        ));
        assert(entry_names(index@).take(i + 1) =~= entry_names(index@).take(i as int).push(
            records@[i as int].card_name@,
        ));
    }
    assert(entry_names(index@).take(records@.len() as int) =~= entry_names(index@));
    crate::cardfolder::list_cards(&names)
}

} // verus!
