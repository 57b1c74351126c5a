use vstd::prelude::*;
use vstd::string::*;

use crate::error::ZkError;
use crate::sorted::{insert_number, insert_text, sorted_numbers, sorted_texts, string_views};
use crate::text::{is_digit, is_lower, same_text};

verus! {

pub open spec fn is_upper(c: char) -> bool {
    'A' <= c && c <= 'Z'
}

/// Whether `s` is a tag name: an ASCII letter, then ASCII letters, digits,
/// `_` and `-`.
pub open spec fn valid_tag(s: Seq<char>) -> bool {
    &&& s.len() > 0
    &&& (is_lower(s[0]) || is_upper(s[0]))
    &&& forall|i: int|
        0 <= i < s.len() ==> is_lower(#[trigger] s[i]) || is_upper(s[i]) || is_digit(s[i]) || s[i]
            == '_' || s[i] == '-'
}

/// Whether `name` is a valid tag name, as in `DCN1` or `to-read`.
pub fn is_valid_tag(name: &str) -> (r: bool)
    ensures
        r == valid_tag(name@),
{
    let n = name.unicode_len();
    if n == 0 {
        return false;
    }
    let first = name.get_char(0);
    let first_char_letter = ('a' <= first && first <= 'z') || ('A' <= first && first <= 'Z');
    let mut valid_letters = true;
    for i in 0..n
        invariant
            n == name@.len(),
            valid_letters == forall|k: int|
                0 <= k < i ==> is_lower(#[trigger] name@[k]) || is_upper(name@[k]) || is_digit(
                    name@[k],
                ) || name@[k] == '_' || name@[k] == '-',
    {
        let ch = name.get_char(i);
        let valid = ('a' <= ch && ch <= 'z') || ('A' <= ch && ch <= 'Z') || ('0' <= ch && ch <= '9')
            || ch == '_' || ch == '-';
        if !valid {
            valid_letters = false;
        }
    }
    first_char_letter && valid_letters
}

/// A tag on a major card, as a value.
pub type TagPair = (Seq<char>, usize);

/// A row of tagging history, as a value: batch, tag name, major card number.
pub type HistoryRow = (usize, Seq<char>, usize);

/// A tag set on a major card.
pub struct Tag {
    pub tag_name: String,
    pub major_card_number: usize,
}

impl View for Tag {
    type V = TagPair;

    open spec fn view(&self) -> TagPair {
        (self.tag_name@, self.major_card_number)
    }
}

/// One row of the tagging history.
pub struct TagHistoryEntry {
    pub batch_id: usize,
    pub tag_name: String,
    pub major_card_number: usize,
}

impl View for TagHistoryEntry {
    type V = HistoryRow;

    open spec fn view(&self) -> HistoryRow {
        (self.batch_id, self.tag_name@, self.major_card_number)
    }
}

pub open spec fn tag_views(v: Seq<Tag>) -> Seq<TagPair> {
    v.map_values(|t: Tag| t@)
}

pub open spec fn history_views(v: Seq<TagHistoryEntry>) -> Seq<HistoryRow> {
    v.map_values(|h: TagHistoryEntry| h@)
}

/// The state of a tag store: the set of tags, and the tagging history in the
/// order it was recorded.
pub struct TagState {
    pub tags: Set<TagPair>,
    pub history: Seq<HistoryRow>,
}

/// Whether the tag pair `p` is one that a removal of `name` (on card `card`,
/// or on every card where `card` is `None`) takes away.
pub open spec fn removed_by(p: TagPair, name: Seq<char>, card: Option<usize>) -> bool {
    p.0 == name && match card {
        Some(c) => p.1 == c,
        None => true,
    }
}

/// Whether some card carries the tag `name`.
pub open spec fn tag_exists(tags: Set<TagPair>, name: Seq<char>) -> bool {
    exists|c: usize| tags.contains((name, c))
}

/// The tags and their history, with at most one pair per tag and card.
pub struct TagStore {
    tags: Vec<Tag>,
    history: Vec<TagHistoryEntry>,
}

impl View for TagStore {
    type V = TagState;

    closed spec fn view(&self) -> TagState {
        TagState { tags: tag_views(self.tags@).to_set(), history: history_views(self.history@) }
    }
}

/// The tags of `v` but those that a removal of `name` (on `card`, or on every
/// card) takes away.
fn without(v: &Vec<Tag>, name: &str, card: Option<usize>) -> (r: Vec<Tag>)
    requires
        tag_views(v@).no_duplicates(),
    ensures
        tag_views(r@).no_duplicates(),
        tag_views(r@).to_set() == tag_views(v@).to_set().filter(
            |p: TagPair| !removed_by(p, name@, card),
        ),
{
    let mut r: Vec<Tag> = Vec::new();
    let n = v.len();
    for k in 0..n
        invariant
            n == v@.len(),
            tag_views(v@).no_duplicates(),
            tag_views(r@).no_duplicates(),
            forall|p: TagPair|
                tag_views(r@).contains(p) <==> (exists|j: int| 0 <= j < k && v@[j]@ == p)
                    && !removed_by(p, name@, card),
    {
        let t = &v[k];
        let same_name = same_text(t.tag_name.as_str(), name);
        let hit = same_name && match card {
            Some(c) => t.major_card_number == c,
            None => true,
        };
        if !hit {
            let ghost old_r = r@;
            r.push(Tag { tag_name: t.tag_name.clone(), major_card_number: t.major_card_number });
            proof {
                assert(r@.last()@ == v@[k as int]@);
                assert(!tag_views(old_r).contains(v@[k as int]@)) by {
                    if tag_views(old_r).contains(v@[k as int]@) {
                        let j = choose|j: int| 0 <= j < k && v@[j]@ == v@[k as int]@;
                        assert(tag_views(v@)[j] == v@[j]@);
                        assert(tag_views(v@)[k as int] == v@[k as int]@);
                    }
                }
                assert forall|i: int| 0 <= i < old_r.len() implies old_r[i]@ != v@[k as int]@ by {
                    assert(tag_views(old_r)[i] == old_r[i]@);
                }
                assert forall|a: int, b: int|
                    0 <= a < r@.len() && 0 <= b < r@.len() && a != b implies tag_views(r@)[a]
                    != tag_views(r@)[b] by {
                    if a < old_r.len() && b < old_r.len() {
                        assert(tag_views(r@)[a] == tag_views(old_r)[a]);
                        assert(tag_views(r@)[b] == tag_views(old_r)[b]);
                    }
                }
                assert forall|p: TagPair|
                    tag_views(r@).contains(p) <==> (exists|j: int| 0 <= j < k + 1 && v@[j]@ == p)
                        && !removed_by(p, name@, card) by {
                    if tag_views(r@).contains(p) {
                        let i = choose|i: int| 0 <= i < r@.len() && tag_views(r@)[i] == p;
                        if i < old_r.len() {
                            assert(tag_views(old_r)[i] == p);
                        }
                    }
                    if (exists|j: int| 0 <= j < k + 1 && v@[j]@ == p) && !removed_by(p, name@, card) {
                        let j = choose|j: int| 0 <= j < k + 1 && v@[j]@ == p;
                        if j < k {
                            assert(tag_views(old_r).contains(p));
                            let i = choose|i: int| 0 <= i < old_r.len() && tag_views(old_r)[i] == p;
                            assert(tag_views(r@)[i] == p);
                        } else {
                            assert(tag_views(r@)[old_r.len() as int] == p);
                        }
                    }
                }
            }
        } else {
            proof {
                assert forall|p: TagPair|
                    tag_views(r@).contains(p) <==> (exists|j: int| 0 <= j < k + 1 && v@[j]@ == p)
                        && !removed_by(p, name@, card) by {
                    if (exists|j: int| 0 <= j < k + 1 && v@[j]@ == p) && !removed_by(p, name@, card) {
                        let j = choose|j: int| 0 <= j < k + 1 && v@[j]@ == p;
                        assert(j < k);
                    }
                }
            }
        }
    }
    proof {
        assert forall|p: TagPair|
            #[trigger] tag_views(r@).to_set().contains(p) == tag_views(v@).to_set().filter(
                |p: TagPair| !removed_by(p, name@, card),
            ).contains(p) by {
            if exists|j: int| 0 <= j < n && v@[j]@ == p {
                let j = choose|j: int| 0 <= j < n && v@[j]@ == p;
                assert(tag_views(v@)[j] == p);
            }
            if tag_views(v@).contains(p) {
                let j = choose|j: int| 0 <= j < v@.len() && tag_views(v@)[j] == p;
                assert(v@[j]@ == p);
            }
        }
        assert(tag_views(r@).to_set() =~= tag_views(v@).to_set().filter(
            |p: TagPair| !removed_by(p, name@, card),
        ));
    }
    r
}

} // verus!

verus! {

/// The largest batch id of the history, or 0 where it is empty.
pub open spec fn max_batch(h: Seq<HistoryRow>) -> nat
    decreases h.len(),
{
    if h.len() == 0 {
        0
    } else {
        let m = max_batch(h.drop_last());
        if h.last().0 as nat > m {
            h.last().0 as nat
        } else {
            m
        }
    }
}

/// The tag pairs that the rows of batch `b` recorded.
pub open spec fn batch_pairs(h: Seq<HistoryRow>, b: nat) -> Set<TagPair> {
    Set::new(|p: TagPair| exists|k: int| 0 <= k < h.len() && h[k].0 == b && (h[k].1, h[k].2) == p)
}

/// Whether a history row belongs to a batch other than `b`.
pub open spec fn other_batch(b: nat) -> spec_fn(HistoryRow) -> bool {
    |r: HistoryRow| r.0 != b
}

/// The state after batch `b` is undone: the pairs that its rows recorded
/// are unset, and its rows leave the history.
pub open spec fn undo_batch_spec(m: TagState, b: nat) -> TagState {
    TagState {
        tags: m.tags.difference(batch_pairs(m.history, b)),
        history: m.history.filter(other_batch(b)),
    }
}

/// The state after the latest batch is undone.
pub open spec fn undo_spec(m: TagState) -> TagState {
    undo_batch_spec(m, max_batch(m.history))
}

pub open spec fn all_valid(tags: Set<TagPair>) -> bool {
    forall|p: TagPair| tags.contains(p) ==> valid_tag(p.0)
}

proof fn lemma_max_batch(h: Seq<HistoryRow>)
    ensures
        forall|k: int| 0 <= k < h.len() ==> #[trigger] h[k].0 as nat <= max_batch(h),
        h.len() > 0 ==> exists|k: int| 0 <= k < h.len() && #[trigger] h[k].0 as nat == max_batch(h),
    decreases h.len(),
{
    if h.len() > 0 {
        lemma_max_batch(h.drop_last());
        assert forall|k: int| 0 <= k < h.len() implies #[trigger] h[k].0 as nat <= max_batch(h) by {
            if k < h.len() - 1 {
                assert(h[k] == h.drop_last()[k]);
            }
        }
        if h.last().0 as nat <= max_batch(h.drop_last()) && h.len() > 1 {
            let k = choose|k: int|
                0 <= k < h.len() - 1 && #[trigger] h.drop_last()[k].0 as nat == max_batch(
                    h.drop_last(),
                );
            assert(h[k] == h.drop_last()[k]);
        } else {
            assert(h[h.len() - 1].0 as nat == max_batch(h));
        }
    }
}

impl TagStore {
    #[verifier::type_invariant]
    spec fn well_formed(&self) -> bool {
        &&& tag_views(self.tags@).no_duplicates()
        &&& all_valid(tag_views(self.tags@).to_set())
    }

    /// An empty store.
    pub fn new() -> (r: TagStore)
        ensures
            r@.tags == Set::<TagPair>::empty(),
            r@.history == Seq::<HistoryRow>::empty(),
    {
        let r = TagStore { tags: Vec::new(), history: Vec::new() };
        assert(r@.tags =~= Set::<TagPair>::empty());
        assert(r@.history =~= Seq::<HistoryRow>::empty());
        r
    }

    /// Whether card `major_card_number` carries the tag `tag_name`.
    pub fn is_set(&self, tag_name: &str, major_card_number: usize) -> (r: bool)
        ensures
            r == self@.tags.contains((tag_name@, major_card_number)),
    {
        let n = self.tags.len();
        for k in 0..n
            invariant
                n == self.tags@.len(),
                forall|j: int| 0 <= j < k ==> self.tags@[j]@ != (tag_name@, major_card_number),
        {
            let t = &self.tags[k];
            if t.major_card_number == major_card_number && same_text(t.tag_name.as_str(), tag_name) {
                assert(tag_views(self.tags@)[k as int] == (tag_name@, major_card_number));
                return true;
            }
        }
        proof {
            if tag_views(self.tags@).contains((tag_name@, major_card_number)) {
                let j = choose|j: int|
                    0 <= j < n && tag_views(self.tags@)[j] == (tag_name@, major_card_number);
                assert(self.tags@[j]@ == tag_views(self.tags@)[j]);
            }
        }
        false
    }

    /// Whether some card carries the tag `tag_name`.
    pub fn tag_exists(&self, tag_name: &str) -> (r: bool)
        ensures
            r == tag_exists(self@.tags, tag_name@),
    {
        let n = self.tags.len();
        for k in 0..n
            invariant
                n == self.tags@.len(),
                forall|j: int| 0 <= j < k ==> self.tags@[j].tag_name@ != tag_name@,
        {
            let t = &self.tags[k];
            if same_text(t.tag_name.as_str(), tag_name) {
                assert(tag_views(self.tags@)[k as int] == (tag_name@, t.major_card_number));
                assert(self@.tags.contains((tag_name@, t.major_card_number)));
                return true;
            }
        }
        proof {
            if tag_exists(self@.tags, tag_name@) {
                let c = choose|c: usize| self@.tags.contains((tag_name@, c));
                let j = choose|j: int| 0 <= j < n && tag_views(self.tags@)[j] == (tag_name@, c);
                assert(self.tags@[j]@ == tag_views(self.tags@)[j]);
            }
        }
        false
    }

    /// Sets the tag `tag_name` on card `major_card_number`. Fails with
    /// `InvalidFormat` on an invalid tag name and with `DuplicateKey` where the
    /// card carries the tag already; the store is then unchanged.
    pub fn set_tag(&mut self, tag_name: &str, major_card_number: usize) -> (r: Result<
        (),
        ZkError,
    >)
        ensures
            !valid_tag(tag_name@) ==> r == Err::<(), ZkError>(ZkError::InvalidFormat),
            valid_tag(tag_name@) && old(self)@.tags.contains((tag_name@, major_card_number)) ==> r
                == Err::<(), ZkError>(ZkError::DuplicateKey),
            r is Ok <==> valid_tag(tag_name@) && !old(self)@.tags.contains(
                (tag_name@, major_card_number),
            ),
            final(self)@.tags == if r is Ok {
                old(self)@.tags.insert((tag_name@, major_card_number))
            } else {
                old(self)@.tags
            },
            final(self)@.history == old(self)@.history,
    {
        proof {
            use_type_invariant(&*self);
        }
        if !is_valid_tag(tag_name) {
            return Err(ZkError::InvalidFormat);
        }
        if self.is_set(tag_name, major_card_number) {
            return Err(ZkError::DuplicateKey);
        }
        let mut tags: Vec<Tag> = Vec::new();
        std::mem::swap(&mut tags, &mut self.tags);
        let ghost old_tags = tags@;
        tags.push(Tag { tag_name: String::from_str(tag_name), major_card_number });
        proof {
            let p = (tag_name@, major_card_number);
            assert(tag_views(tags@) =~= tag_views(old_tags).push(p));
            assert forall|q: TagPair| #[trigger]
                tag_views(tags@).to_set().contains(q) == tag_views(old_tags).to_set().insert(
                    p,
                ).contains(q) by {
                if tag_views(tags@).contains(q) && q != p {
                    let j = choose|j: int| 0 <= j < tags@.len() && tag_views(tags@)[j] == q;
                    assert(tag_views(old_tags)[j] == q);
                }
                if tag_views(old_tags).contains(q) {
                    let j = choose|j: int| 0 <= j < old_tags.len() && tag_views(old_tags)[j] == q;
                    assert(tag_views(tags@)[j] == q);
                }
                if q == p {
                    assert(tag_views(tags@)[old_tags.len() as int] == q);
                }
            }
            assert(tag_views(tags@).to_set() =~= tag_views(old_tags).to_set().insert(p));
            assert forall|a: int, b: int|
                0 <= a < tags@.len() && 0 <= b < tags@.len() && a != b implies tag_views(tags@)[a]
                != tag_views(tags@)[b] by {
                if a < old_tags.len() && b < old_tags.len() {
                    assert(tag_views(tags@)[a] == tag_views(old_tags)[a]);
                    assert(tag_views(tags@)[b] == tag_views(old_tags)[b]);
                } else if a < old_tags.len() {
                    assert(tag_views(tags@)[a] == tag_views(old_tags)[a]);
                    assert(tag_views(old_tags).contains(tag_views(old_tags)[a]));
                } else if b < old_tags.len() {
                    assert(tag_views(tags@)[b] == tag_views(old_tags)[b]);
                    assert(tag_views(old_tags).contains(tag_views(old_tags)[b]));
                }
            }
        }
        self.tags = tags;
        Ok(())
    }

    /// Removes the tag `tag_name` from card `major_card_number`; nothing
    /// happens where the card does not carry it.
    pub fn unset_tag(&mut self, tag_name: &str, major_card_number: usize)
        ensures
            final(self)@.tags == old(self)@.tags.remove((tag_name@, major_card_number)),
            final(self)@.history == old(self)@.history,
    {
        proof {
            use_type_invariant(&*self);
        }
        let tags = without(&self.tags, tag_name, Some(major_card_number));
        assert(tag_views(tags@).to_set() =~= old(self)@.tags.remove(
            (tag_name@, major_card_number),
        ));
        self.tags = tags;
    }

    /// Removes the tag `tag_name` from every card; `NotFound`, with the store
    /// unchanged, where no card carries it.
    pub fn unset_tag_everywhere(&mut self, tag_name: &str) -> (r: Result<(), ZkError>)
        ensures
            r is Ok <==> tag_exists(old(self)@.tags, tag_name@),
            r is Err ==> r == Err::<(), ZkError>(ZkError::NotFound) && final(self)@ == old(self)@,
            r is Ok ==> final(self)@.tags == old(self)@.tags.filter(|p: TagPair| p.0 != tag_name@)
                && final(self)@.history == old(self)@.history,
    {
        proof {
            use_type_invariant(&*self);
        }
        if !self.tag_exists(tag_name) {
            return Err(ZkError::NotFound);
        }
        let tags = without(&self.tags, tag_name, None);
        assert(tag_views(tags@).to_set() =~= old(self)@.tags.filter(
            |p: TagPair| p.0 != tag_name@,
        ));
        self.tags = tags;
        Ok(())
    }

    /// The largest batch id of the history, or 0 where it is empty.
    pub fn latest_batch_id(&self) -> (r: usize)
        ensures
            r as nat == max_batch(self@.history),
    {
        let n = self.history.len();
        let mut latest: usize = 0;
        for k in 0..n
            invariant
                n == self.history@.len(),
                latest as nat == max_batch(history_views(self.history@.take(k as int))),
        {
            let ghost h = history_views(self.history@.take(k + 1));
            assert(h.drop_last() =~= history_views(self.history@.take(k as int)));
            assert(h.last() == self.history@[k as int]@);
            if self.history[k].batch_id > latest {
                latest = self.history[k].batch_id;
            }
        }
        assert(self.history@.take(n as int) =~= self.history@);
        latest
    }

    /// The id of a new batch: one more than the latest.
    pub fn begin_batch(&self) -> (r: usize)
        requires
            max_batch(self@.history) < usize::MAX,
        ensures
            r as nat == max_batch(self@.history) + 1,
    {
        self.latest_batch_id() + 1
    }

    /// Appends the row `(batch_id, tag_name, major_card_number)` to the
    /// history.
    pub fn record_in_batch(&mut self, batch_id: usize, tag_name: &str, major_card_number: usize)
        ensures
            final(self)@.tags == old(self)@.tags,
            final(self)@.history == old(self)@.history.push(
                (batch_id, tag_name@, major_card_number),
            ),
    {
        proof {
            use_type_invariant(&*self);
        }
        let mut history: Vec<TagHistoryEntry> = Vec::new();
        std::mem::swap(&mut history, &mut self.history);
        let ghost old_h = history@;
        history.push(
            TagHistoryEntry { batch_id, tag_name: String::from_str(tag_name), major_card_number },
        );
        assert(history_views(history@) =~= history_views(old_h).push(
            (batch_id, tag_name@, major_card_number),
        ));
        self.history = history;
    }
}

impl TagStore {
    /// Undoes the latest batch: removes every tag pair that a history row of
    /// the latest batch recorded, then those rows.
    pub fn undo_latest_batch(&mut self)
        ensures
            final(self)@ == undo_spec(old(self)@),
    {
        let b = self.latest_batch_id();
        self.undo_batch(b);
    }

    /// Undoes batch `b`: removes every tag pair that a history row of batch
    /// `b` recorded, then those rows.
    pub fn undo_batch(&mut self, b: usize)
        ensures
            final(self)@ == undo_batch_spec(old(self)@, b as nat),
    {
        proof {
            use_type_invariant(&*self);
        }
        let ghost bn = b as nat;
        let ghost h = history_views(self.history@);
        let ghost old_set = tag_views(self.tags@).to_set();
        let mut tags: Vec<Tag> = Vec::new();
        std::mem::swap(&mut tags, &mut self.tags);
        let mut history: Vec<TagHistoryEntry> = Vec::new();
        std::mem::swap(&mut history, &mut self.history);
        let n = history.len();
        let mut kept: Vec<TagHistoryEntry> = Vec::new();
        assert(batch_pairs(h.take(0), bn) =~= Set::<TagPair>::empty());
        assert(old_set.difference(Set::<TagPair>::empty()) =~= old_set);
        assert(h.take(0).filter(other_batch(bn)) =~= Seq::<HistoryRow>::empty()) by {
            reveal(Seq::filter);
        }
        for k in 0..n
            invariant
                n == history@.len(),
                h == history_views(history@),
                bn == b as nat,
                tag_views(tags@).no_duplicates(),
                tag_views(tags@).to_set() == old_set.difference(batch_pairs(h.take(k as int), bn)),
                history_views(kept@) == h.take(k as int).filter(other_batch(bn)),
        {
            let row = &history[k];
            let ghost t = h.take(k + 1);
            assert(t.drop_last() =~= h.take(k as int));
            assert(t.last() == row@);
            let ghost before = tag_views(tags@).to_set();
            if row.batch_id == b {
                tags = without(&tags, row.tag_name.as_str(), Some(row.major_card_number));
                assert forall|p: TagPair| #[trigger]
                    batch_pairs(t, bn).contains(p) == (batch_pairs(h.take(k as int), bn).contains(p)
                        || p == (row.tag_name@, row.major_card_number)) by {
                    if batch_pairs(h.take(k as int), bn).contains(p) {
                        let j = choose|j: int|
                            0 <= j < k && h.take(k as int)[j].0 == bn && (
                            h.take(k as int)[j].1,
                            h.take(k as int)[j].2,
                        ) == p;
                        assert(t[j] == h.take(k as int)[j]);
                    }
                    if p == (row.tag_name@, row.major_card_number) {
                        assert(t[k as int] == row@);
                    }
                    if batch_pairs(t, bn).contains(p) {
                        let j = choose|j: int|
                            0 <= j < k + 1 && t[j].0 == bn && (t[j].1, t[j].2) == p;
                        if j < k {
                            assert(t[j] == h.take(k as int)[j]);
                        }
                    }
                }
                assert(tag_views(tags@).to_set() =~= old_set.difference(batch_pairs(t, bn)));
            } else {
                assert forall|p: TagPair| #[trigger]
                    batch_pairs(t, bn).contains(p) == batch_pairs(h.take(k as int), bn).contains(
                        p,
                    ) by {
                    if batch_pairs(h.take(k as int), bn).contains(p) {
                        let j = choose|j: int|
                            0 <= j < k && h.take(k as int)[j].0 == bn && (
                            h.take(k as int)[j].1,
                            h.take(k as int)[j].2,
                        ) == p;
                        assert(t[j] == h.take(k as int)[j]);
                    }
                    if batch_pairs(t, bn).contains(p) {
                        let j = choose|j: int|
                            0 <= j < k + 1 && t[j].0 == bn && (t[j].1, t[j].2) == p;
                        if j < k {
                            assert(t[j] == h.take(k as int)[j]);
                        }
                    }
                }
                assert(batch_pairs(t, bn) =~= batch_pairs(h.take(k as int), bn));
                let ghost old_kept = kept@;
                kept.push(
                    TagHistoryEntry {
                        batch_id: row.batch_id,
                        tag_name: row.tag_name.clone(),
                        major_card_number: row.major_card_number,
                    },
                );
                assert(history_views(kept@) =~= history_views(old_kept).push(row@));
            }
            assert(t.filter(other_batch(bn)) == if row.batch_id == b {
                h.take(k as int).filter(other_batch(bn))
            } else {
                h.take(k as int).filter(other_batch(bn)).push(row@)
            }) by {
                reveal(Seq::filter);
            }
        }
        assert(h.take(n as int) =~= h);
        assert forall|p: TagPair| tag_views(tags@).to_set().contains(p) implies valid_tag(p.0) by {
            assert(old_set.contains(p));
        }
        self.tags = tags;
        self.history = kept;
    }
}

/// The state after the tag `t` is set, in batch `b`, on each card of `cs`
/// that does not carry it yet, each such setting recorded in the history.
pub open spec fn tag_batch_spec(m: TagState, t: Seq<char>, cs: Seq<usize>, b: usize) -> TagState
    decreases cs.len(),
{
    if cs.len() == 0 {
        m
    } else {
        let m0 = tag_batch_spec(m, t, cs.drop_last(), b);
        let c = cs.last();
        if m0.tags.contains((t, c)) {
            m0
        } else {
            TagState { tags: m0.tags.insert((t, c)), history: m0.history.push((b, t, c)) }
        }
    }
}

impl TagStore {
    /// Sets the tag `tag_name` on each card of `cards` that does not carry it
    /// yet, all in one new batch that records each of them, and returns the
    /// batch id. Fails with `InvalidFormat`, before any change, on an invalid
    /// tag name.
    pub fn tag_cards_in_batch(&mut self, tag_name: &str, cards: &Vec<usize>) -> (r: Result<
        usize,
        ZkError,
    >)
        requires
            max_batch(old(self)@.history) < usize::MAX,
        ensures
            match r {
                Ok(b) => valid_tag(tag_name@) && b as nat == max_batch(old(self)@.history) + 1
                    && final(self)@ == tag_batch_spec(old(self)@, tag_name@, cards@, b),
                Err(e) => !valid_tag(tag_name@) && e == ZkError::InvalidFormat && final(self)@
                    == old(self)@,
            },
    {
        if !is_valid_tag(tag_name) {
            return Err(ZkError::InvalidFormat);
        }
        let b = self.begin_batch();
        let n = cards.len();
        for i in 0..n
            invariant
                n == cards@.len(),
                valid_tag(tag_name@),
                self@ == tag_batch_spec(old(self)@, tag_name@, cards@.take(i as int), b),
        {
            let c = cards[i];
            assert(cards@.take(i + 1).drop_last() =~= cards@.take(i as int));
            assert(cards@.take(i + 1).last() == c);
            if !self.is_set(tag_name, c) {
                let _ = self.set_tag(tag_name, c);
                self.record_in_batch(b, tag_name, c);
            }
        }
        assert(cards@.take(n as int) =~= cards@);
        Ok(b)
    }
}

/// The pairs that the rows of `h` from index `from` on recorded.
pub open spec fn pairs_from(h: Seq<HistoryRow>, from: int) -> Set<TagPair> {
    Set::new(|p: TagPair| exists|k: int| from <= k < h.len() && (h[k].1, h[k].2) == p)
}

proof fn lemma_tag_batch(m: TagState, t: Seq<char>, cs: Seq<usize>, b: usize)
    ensures
        ({
            let tb = tag_batch_spec(m, t, cs, b);
            &&& tb.history.len() >= m.history.len()
            &&& tb.history.take(m.history.len() as int) == m.history
            &&& forall|k: int|
                m.history.len() <= k < tb.history.len() ==> #[trigger] tb.history[k].0 == b
                    && tb.history[k].1 == t && !m.tags.contains((t, tb.history[k].2))
            &&& tb.tags == m.tags.union(pairs_from(tb.history, m.history.len() as int))
            &&& (exists|i: int| 0 <= i < cs.len() && !m.tags.contains((t, #[trigger] cs[i])))
                ==> tb.history.len() > m.history.len()
        }),
    decreases cs.len(),
{
    let tb = tag_batch_spec(m, t, cs, b);
    let ml = m.history.len() as int;
    if cs.len() == 0 {
        assert(m.history.take(ml) =~= m.history);
        assert(pairs_from(m.history, ml) =~= Set::<TagPair>::empty());
        assert(m.tags.union(Set::<TagPair>::empty()) =~= m.tags);
    } else {
        let p = cs.drop_last();
        lemma_tag_batch(m, t, p, b);
        let m0 = tag_batch_spec(m, t, p, b);
        let c = cs.last();
        if !m0.tags.contains((t, c)) {
            let h = m0.history.push((b, t, c));
            assert(h.take(ml) =~= m0.history.take(ml));
            assert forall|k: int| ml <= k < h.len() implies #[trigger] h[k].0 == b && h[k].1 == t
                && !m.tags.contains((t, h[k].2)) by {
                if k < h.len() - 1 {
                    assert(h[k] == m0.history[k]);
                } else {
                    assert(m.tags.subset_of(m0.tags));
                }
            }
            assert forall|q: TagPair| #[trigger] pairs_from(h, ml).contains(q) == (pairs_from(
                m0.history,
                ml,
            ).contains(q) || q == (t, c)) by {
                if pairs_from(m0.history, ml).contains(q) {
                    let k = choose|k: int|
                        ml <= k < m0.history.len() && (m0.history[k].1, m0.history[k].2) == q;
                    assert(h[k] == m0.history[k]);
                }
                if q == (t, c) {
                    assert(h[h.len() - 1] == (b, t, c));
                }
                if pairs_from(h, ml).contains(q) {
                    let k = choose|k: int| ml <= k < h.len() && (h[k].1, h[k].2) == q;
                    if k < h.len() - 1 {
                        assert(h[k] == m0.history[k]);
                    }
                }
            }
            assert(tb.tags =~= m.tags.union(pairs_from(h, ml)));
        } else {
            if exists|i: int| 0 <= i < cs.len() && !m.tags.contains((t, #[trigger] cs[i])) {
                let i = choose|i: int| 0 <= i < cs.len() && !m.tags.contains((t, #[trigger] cs[i]));
                if i < cs.len() - 1 {
                    assert(p[i] == cs[i]);
                } else {
                    assert(pairs_from(m0.history, ml).contains((t, c)));
                    let k = choose|k: int|
                        ml <= k < m0.history.len() && (m0.history[k].1, m0.history[k].2) == (t, c);
                }
            }
        }
    }
}

proof fn lemma_filter_all(s: Seq<HistoryRow>, b: nat)
    requires
        forall|k: int| 0 <= k < s.len() ==> (#[trigger] s[k]).0 != b,
    ensures
        s.filter(other_batch(b)) == s,
    decreases s.len(),
{
    reveal(Seq::filter);
    if s.len() > 0 {
        lemma_filter_all(s.drop_last(), b);
        assert(s.drop_last().push(s.last()) =~= s);
    }
}

proof fn lemma_filter_none(s: Seq<HistoryRow>, b: nat)
    requires
        forall|k: int| 0 <= k < s.len() ==> (#[trigger] s[k]).0 == b,
    ensures
        s.filter(other_batch(b)) == Seq::<HistoryRow>::empty(),
    decreases s.len(),
{
    reveal(Seq::filter);
    if s.len() > 0 {
        lemma_filter_none(s.drop_last(), b);
    } else {
        assert(s =~= Seq::<HistoryRow>::empty());
    }
}

/// Undoing a batch that tagged cards takes back exactly that tagging: tag
/// `t` set in a new batch on cards `cs`, at least one of which did not carry
/// it, then the latest batch undone, leaves the tags and the history as they
/// were, so tags from earlier batches stay untouched.
pub proof fn lemma_undo_batch(m: TagState, t: Seq<char>, cs: Seq<usize>)
    requires
        max_batch(m.history) < usize::MAX,
        exists|i: int| 0 <= i < cs.len() && !m.tags.contains((t, #[trigger] cs[i])),
    ensures
        undo_spec(tag_batch_spec(m, t, cs, (max_batch(m.history) + 1) as usize)) == m,
{
    let b = (max_batch(m.history) + 1) as usize;
    let tb = tag_batch_spec(m, t, cs, b);
    let ml = m.history.len() as int;
    lemma_tag_batch(m, t, cs, b);
    lemma_max_batch(m.history);
    lemma_max_batch(tb.history);
    let h = tb.history;
    assert forall|k: int| 0 <= k < h.len() implies #[trigger] h[k].0 <= b by {
        if k < ml {
            assert(h[k] == h.take(ml)[k]);
        }
    }
    assert(h[ml].0 == b);
    assert(max_batch(h) == b);
    let news = h.skip(ml);
    assert(h =~= m.history + news);
    assert forall|k: int| 0 <= k < m.history.len() implies (#[trigger] m.history[k]).0 != b as nat by {
        assert(m.history[k].0 as nat <= max_batch(m.history));
    }
    lemma_filter_all(m.history, b as nat);
    assert forall|k: int| 0 <= k < news.len() implies (#[trigger] news[k]).0 == b as nat by {
        assert(news[k] == h[ml + k]);
    }
    lemma_filter_none(news, b as nat);
    Seq::filter_distributes_over_add(m.history, news, other_batch(b as nat));
    assert(h.filter(other_batch(b as nat)) =~= m.history);
    assert forall|q: TagPair| #[trigger] batch_pairs(h, b as nat).contains(q) == pairs_from(
        h,
        ml,
    ).contains(q) by {
        if batch_pairs(h, b as nat).contains(q) {
            let k = choose|k: int| 0 <= k < h.len() && h[k].0 == b as nat && (h[k].1, h[k].2) == q;
            if k < ml {
                assert(h[k] == m.history[k]);
                assert(m.history[k].0 as nat <= max_batch(m.history));
            }
        }
        if pairs_from(h, ml).contains(q) {
            let k = choose|k: int| ml <= k < h.len() && (h[k].1, h[k].2) == q;
            assert(h[k].0 == b);
        }
    }
    assert forall|q: TagPair| pairs_from(h, ml).contains(q) implies !m.tags.contains(q) by {
        let k = choose|k: int| ml <= k < h.len() && (h[k].1, h[k].2) == q;
        assert(h[k].1 == t);
    }
    assert(tb.tags.difference(batch_pairs(h, b as nat)) =~= m.tags);
}

/// Setting a tag makes it set, and unsetting it makes it unset again; where
/// it was not set before, the tags are then as they were.
pub proof fn lemma_set_then_unset(m: TagState, t: Seq<char>, c: usize)
    ensures
        m.tags.insert((t, c)).contains((t, c)),
        !m.tags.insert((t, c)).remove((t, c)).contains((t, c)),
        !m.tags.contains((t, c)) ==> m.tags.insert((t, c)).remove((t, c)) == m.tags,
{
    if !m.tags.contains((t, c)) {
        assert(m.tags.insert((t, c)).remove((t, c)) =~= m.tags);
    }
}

/// The names of all tags that are set.
pub open spec fn tag_names(tags: Set<TagPair>) -> Set<Seq<char>> {
    Set::new(|n: Seq<char>| exists|c: usize| tags.contains((n, c)))
}

/// The names of the tags set on any card of `cards`.
pub open spec fn tags_of(tags: Set<TagPair>, cards: Seq<usize>) -> Set<Seq<char>> {
    Set::new(|n: Seq<char>| exists|c: usize| tags.contains((n, c)) && cards.contains(c))
}

/// The cards that carry any tag of `names`.
pub open spec fn cards_of(tags: Set<TagPair>, names: Seq<Seq<char>>) -> Set<usize> {
    Set::new(|c: usize| exists|n: Seq<char>| tags.contains((n, c)) && names.contains(n))
}

fn contains_number(v: &Vec<usize>, x: usize) -> (r: bool)
    ensures
        r == v@.contains(x),
{
    let n = v.len();
    for k in 0..n
        invariant
            n == v@.len(),
            forall|j: int| 0 <= j < k ==> v@[j] != x,
    {
        if v[k] == x {
            return true;
        }
    }
    false
}

fn contains_text(v: &Vec<String>, x: &str) -> (r: bool)
    ensures
        r == string_views(v@).contains(x@),
{
    let n = v.len();
    for k in 0..n
        invariant
            n == v@.len(),
            forall|j: int| 0 <= j < k ==> v@[j]@ != x@,
    {
        if same_text(v[k].as_str(), x) {
            assert(string_views(v@)[k as int] == x@);
            return true;
        }
    }
    proof {
        if string_views(v@).contains(x@) {
            let j = choose|j: int| 0 <= j < n && string_views(v@)[j] == x@;
            assert(v@[j]@ == string_views(v@)[j]);
        }
    }
    false
}

impl TagStore {
    /// The names of all tags that are set, sorted, each once.
    pub fn all_tags(&self) -> (r: Vec<String>)
        ensures
            sorted_texts(string_views(r@)),
            string_views(r@).to_set() == tag_names(self@.tags),
    {
        let mut r: Vec<String> = Vec::new();
        let n = self.tags.len();
        let ghost tv = tag_views(self.tags@);
        assert(string_views(r@).to_set() =~= Set::<Seq<char>>::empty());
        for k in 0..n
            invariant
                n == self.tags@.len(),
                tv == tag_views(self.tags@),
                sorted_texts(string_views(r@)),
                forall|y: Seq<char>|
                    #[trigger] string_views(r@).to_set().contains(y) <==> exists|j: int|
                        0 <= j < k && tv[j].0 == y,
        {
            let ghost before = string_views(r@).to_set();
            insert_text(&mut r, self.tags[k].tag_name.as_str());
            assert(tv[k as int].0 == self.tags@[k as int].tag_name@);
            assert forall|y: Seq<char>|
                #[trigger] string_views(r@).to_set().contains(y) <==> exists|j: int|
                    0 <= j < k + 1 && tv[j].0 == y by {
                if exists|j: int| 0 <= j < k + 1 && tv[j].0 == y {
                    let j = choose|j: int| 0 <= j < k + 1 && tv[j].0 == y;
                    if j < k {
                        assert(before.contains(y));
                    }
                }
            }
        }
        assert forall|y: Seq<char>| #[trigger]
            string_views(r@).to_set().contains(y) == tag_names(self@.tags).contains(y) by {
            if exists|j: int| 0 <= j < n && tv[j].0 == y {
                let j = choose|j: int| 0 <= j < n && tv[j].0 == y;
                assert(self@.tags.contains((y, tv[j].1)));
            }
            if tag_names(self@.tags).contains(y) {
                let c = choose|c: usize| self@.tags.contains((y, c));
                let j = choose|j: int| 0 <= j < tv.len() && tv[j] == (y, c);
            }
        }
        assert(string_views(r@).to_set() =~= tag_names(self@.tags));
        r
    }

    /// The names of the tags set on any of `major_card_numbers`, sorted, each
    /// once.
    pub fn tags_of_cards(&self, major_card_numbers: &Vec<usize>) -> (r: Vec<String>)
        ensures
            sorted_texts(string_views(r@)),
            string_views(r@).to_set() == tags_of(self@.tags, major_card_numbers@),
    {
        let mut r: Vec<String> = Vec::new();
        let n = self.tags.len();
        let ghost tv = tag_views(self.tags@);
        let ghost cs = major_card_numbers@;
        assert(string_views(r@).to_set() =~= Set::<Seq<char>>::empty());
        for k in 0..n
            invariant
                n == self.tags@.len(),
                tv == tag_views(self.tags@),
                cs == major_card_numbers@,
                sorted_texts(string_views(r@)),
                forall|y: Seq<char>|
                    #[trigger] string_views(r@).to_set().contains(y) <==> exists|j: int|
                        0 <= j < k && tv[j].0 == y && cs.contains(tv[j].1),
        {
            let ghost before = string_views(r@).to_set();
            let t = &self.tags[k];
            assert(tv[k as int] == t@);
            if contains_number(major_card_numbers, t.major_card_number) {
                insert_text(&mut r, t.tag_name.as_str());
            }
            assert forall|y: Seq<char>|
                #[trigger] string_views(r@).to_set().contains(y) <==> exists|j: int|
                    0 <= j < k + 1 && tv[j].0 == y && cs.contains(tv[j].1) by {
                if exists|j: int| 0 <= j < k + 1 && tv[j].0 == y && cs.contains(tv[j].1) {
                    let j = choose|j: int| 0 <= j < k + 1 && tv[j].0 == y && cs.contains(tv[j].1);
                    if j < k {
                        assert(before.contains(y));
                    }
                }
            }
        }
        assert forall|y: Seq<char>| #[trigger]
            string_views(r@).to_set().contains(y) == tags_of(self@.tags, cs).contains(y) by {
            if exists|j: int| 0 <= j < n && tv[j].0 == y && cs.contains(tv[j].1) {
                let j = choose|j: int| 0 <= j < n && tv[j].0 == y && cs.contains(tv[j].1);
                assert(self@.tags.contains((y, tv[j].1)));
            }
            if tags_of(self@.tags, cs).contains(y) {
                let c = choose|c: usize| self@.tags.contains((y, c)) && cs.contains(c);
                let j = choose|j: int| 0 <= j < tv.len() && tv[j] == (y, c);
            }
        }
        assert(string_views(r@).to_set() =~= tags_of(self@.tags, cs));
        r
    }

    /// The cards that carry any tag of `tag_names`, in increasing order, each
    /// once.
    pub fn cards_with_tags(&self, tag_names: &Vec<String>) -> (r: Vec<usize>)
        ensures
            sorted_numbers(r@),
            r@.to_set() == cards_of(self@.tags, string_views(tag_names@)),
    {
        let mut r: Vec<usize> = Vec::new();
        let n = self.tags.len();
        let ghost tv = tag_views(self.tags@);
        let ghost ns = string_views(tag_names@);
        assert(r@.to_set() =~= Set::<usize>::empty());
        for k in 0..n
            invariant
                n == self.tags@.len(),
                tv == tag_views(self.tags@),
                ns == string_views(tag_names@),
                sorted_numbers(r@),
                forall|c: usize|
                    #[trigger] r@.to_set().contains(c) <==> exists|j: int|
                        0 <= j < k && tv[j].1 == c && ns.contains(tv[j].0),
        {
            let ghost before = r@.to_set();
            let t = &self.tags[k];
            assert(tv[k as int] == t@);
            if contains_text(tag_names, t.tag_name.as_str()) {
                insert_number(&mut r, t.major_card_number);
            }
            assert forall|c: usize|
                #[trigger] r@.to_set().contains(c) <==> exists|j: int|
                    0 <= j < k + 1 && tv[j].1 == c && ns.contains(tv[j].0) by {
                if exists|j: int| 0 <= j < k + 1 && tv[j].1 == c && ns.contains(tv[j].0) {
                    let j = choose|j: int| 0 <= j < k + 1 && tv[j].1 == c && ns.contains(tv[j].0);
                    if j < k {
                        assert(before.contains(c));
                    }
                }
            }
        }
        assert forall|c: usize| #[trigger]
            r@.to_set().contains(c) == cards_of(self@.tags, ns).contains(c) by {
            if exists|j: int| 0 <= j < n && tv[j].1 == c && ns.contains(tv[j].0) {
                let j = choose|j: int| 0 <= j < n && tv[j].1 == c && ns.contains(tv[j].0);
                assert(self@.tags.contains((tv[j].0, c)));
            }
            if cards_of(self@.tags, ns).contains(c) {
                let y = choose|y: Seq<char>| self@.tags.contains((y, c)) && ns.contains(y);
                let j = choose|j: int| 0 <= j < tv.len() && tv[j] == (y, c);
            }
        }
        assert(r@.to_set() =~= cards_of(self@.tags, ns));
        r
    }
}

impl TagStore {
    /// The tags, in the order they were set.
    pub fn tags(&self) -> (r: &Vec<Tag>)
        ensures
            tag_views(r@).to_set() == self@.tags,
            tag_views(r@).no_duplicates(),
    {
        proof {
            use_type_invariant(self);
        }
        &self.tags
    }

    /// The history rows, in the order they were recorded.
    pub fn history(&self) -> (r: &Vec<TagHistoryEntry>)
        ensures
            history_views(r@) == self@.history,
    {
        &self.history
    }
}

} // verus!
