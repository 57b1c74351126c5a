use core::cmp::Ordering;
use vstd::prelude::*;

use crate::cardface::{CardFace, Segment};
use crate::text::same_text;

verus! {

/// A placeholder for a creation or modification time: it carries no value,
/// so any two timestamps are equal.
pub struct Timestamp {}

impl PartialEq for Timestamp {
    fn eq(&self, other: &Timestamp) -> (r: bool) {
        true
    }
}

impl vstd::std_specs::cmp::PartialEqSpecImpl for Timestamp {
    open spec fn obeys_eq_spec() -> bool {
        true
    }

    open spec fn eq_spec(&self, other: &Timestamp) -> bool {
        true
    }
}

impl Eq for Timestamp {
}

impl PartialOrd for Timestamp {
    fn partial_cmp(&self, other: &Timestamp) -> (r: Option<Ordering>) {
        Some(Ordering::Equal)
    }
}

impl vstd::std_specs::cmp::PartialOrdSpecImpl for Timestamp {
    open spec fn obeys_partial_cmp_spec() -> bool {
        true
    }

    open spec fn partial_cmp_spec(&self, other: &Timestamp) -> Option<Ordering> {
        Some(Ordering::Equal)
    }
}

/// What is known of a card: its identifier, timestamps, the digest text of
/// its content and who committed it.
pub struct CardMeta {
    pub face: CardFace,
    pub create_time: Timestamp,
    pub modify_time: Timestamp,
    pub content_sha256: String,
    pub commit_user: String,
    pub commit_email: String,
}

/// Same as `CardMeta`.
pub type Meta = CardMeta;

/// A card and the digest text of its content, as a value.
pub type CardVersion = (Seq<Segment>, Seq<char>);

pub open spec fn version_of(m: CardMeta) -> CardVersion {
    (m.face@, m.content_sha256@)
}

pub open spec fn versions(v: Seq<CardMeta>) -> Seq<CardVersion> {
    v.map_values(|m: CardMeta| version_of(m))
}

impl CardMeta {
    /// The identifier of the card.
    pub fn face(&self) -> (r: &CardFace)
        ensures
            r == &self.face,
    {
        &self.face
    }
}

fn has_version(v: &Vec<CardMeta>, face: &CardFace, sha: &str) -> (r: bool)
    ensures
        r == versions(v@).contains((face@, sha@)),
{
    let n = v.len();
    for k in 0..n
        invariant
            n == v@.len(),
            forall|j: int| 0 <= j < k ==> #[trigger] versions(v@)[j] != (face@, sha@),
    {
        assert(versions(v@)[k as int] == (v@[k as int].face@, v@[k as int].content_sha256@));
        if v[k].face == *face && same_text(v[k].content_sha256.as_str(), sha) {
            return true;
        }
    }
    false
}

/// The cards of `open` whose identifier and content digest do not appear
/// together in `timeline`: new cards and changed ones, each once, in the
/// order of `open`.
pub fn modified_cards(open: &Vec<CardMeta>, timeline: &Vec<CardMeta>) -> (r: Vec<CardMeta>)
    ensures
        versions(r@).no_duplicates(),
        versions(r@).to_set() == versions(open@).to_set().difference(versions(timeline@).to_set()),
{
    let mut modified: Vec<CardMeta> = Vec::new();
    let n = open.len();
    for k in 0..n
        invariant
            n == open@.len(),
            versions(modified@).no_duplicates(),
            forall|x: CardVersion|
                #[trigger] versions(modified@).contains(x) <==> (exists|j: int|
                    0 <= j < k && versions(open@)[j] == x) && !versions(timeline@).contains(x),
    {
        let card = &open[k];
        let ghost x = version_of(*card);
        assert(versions(open@)[k as int] == x);
        let sha = card.content_sha256.as_str();
        if !has_version(timeline, &card.face, sha) && !has_version(&modified, &card.face, sha) {
            let ghost before = modified@;
            modified.push(
                CardMeta {
                    face: card.face.clone(),
                    create_time: Timestamp {  },
                    modify_time: Timestamp {  },
                    content_sha256: card.content_sha256.clone(),
                    commit_user: String::new(),
                    commit_email: String::new(),
                },
            );
            assert(versions(modified@) =~= versions(before).push(x));
            assert forall|a: int, b: int|
                0 <= a < versions(modified@).len() && 0 <= b < versions(modified@).len() && a
                    != b implies versions(modified@)[a] != versions(modified@)[b] by {
                if a < before.len() {
                    assert(versions(modified@)[a] == versions(before)[a]);
                }
                if b < before.len() {
                    assert(versions(modified@)[b] == versions(before)[b]);
                }
            }
            assert forall|y: CardVersion|
                #[trigger] versions(modified@).contains(y) <==> (exists|j: int|
                    0 <= j < k + 1 && versions(open@)[j] == y) && !versions(timeline@).contains(
                    y,
                ) by {
                if versions(modified@).contains(y) && y != x {
                    let i = choose|i: int|
                        0 <= i < versions(modified@).len() && versions(modified@)[i] == y;
                    assert(versions(before)[i] == y);
                }
                if (exists|j: int| 0 <= j < k + 1 && versions(open@)[j] == y) && y != x {
                    let j = choose|j: int| 0 <= j < k + 1 && versions(open@)[j] == y;
                    assert(j < k);
                }
                if y == x {
                    assert(versions(modified@)[before.len() as int] == y);
                }
                if versions(before).contains(y) {
                    let i = choose|i: int| 0 <= i < before.len() && versions(before)[i] == y;
                    assert(versions(modified@)[i] == y);
                }
            }
        } else {
            assert forall|y: CardVersion|
                #[trigger] versions(modified@).contains(y) <==> (exists|j: int|
                    0 <= j < k + 1 && versions(open@)[j] == y) && !versions(timeline@).contains(
                    y,
                ) by {
                if (exists|j: int| 0 <= j < k + 1 && versions(open@)[j] == y) && y != x {
                    let j = choose|j: int| 0 <= j < k + 1 && versions(open@)[j] == y;
                    assert(j < k);
                }
            }
        }
    }
    assert forall|y: CardVersion| #[trigger]
        versions(modified@).to_set().contains(y) == versions(open@).to_set().difference(
            versions(timeline@).to_set(),
        ).contains(y) by {
        if versions(open@).contains(y) {
            let j = choose|j: int| 0 <= j < n && versions(open@)[j] == y;
        }
    }
    assert(versions(modified@).to_set() =~= versions(open@).to_set().difference(
        versions(timeline@).to_set(),
    ));
    modified
}

} // verus!
