use core::cmp::Ordering;
use vstd::prelude::*;
use vstd::string::*;

use crate::text::{
    decimal_string, decimal_text, decimal_value, is_digit, is_lower, lemma_decimal_text,
    lemma_text_cmp_basics, lemma_text_cmp_transitive, parse_decimal, push_char, text_cmp, compare_text,
};

verus! {

/// One component of a card identifier, as a mathematical value.
pub enum Segment {
    Number(nat),
    Label(Seq<char>),
}

/// Whether two characters are of the same class: both digits or both not.
pub open spec fn same_class(a: char, b: char) -> bool {
    is_digit(a) == is_digit(b)
}

/// The maximal runs of same-class characters of `s`, in order.
pub open spec fn runs(s: Seq<char>) -> Seq<Seq<char>>
    decreases s.len(),
{
    if s.len() == 0 {
        seq![]
    } else {
        let r = runs(s.drop_last());
        if s.len() > 1 && same_class(s[s.len() - 2], s.last()) {
            r.update(r.len() - 1, r.last().push(s.last()))
        } else {
            r.push(seq![s.last()])
        }
    }
}

/// Whether `s` is spelled as a card name: non-empty, digits and lowercase
/// ASCII letters only, starting with a digit.
pub open spec fn is_card_name(s: Seq<char>) -> bool {
    &&& s.len() > 0
    &&& is_digit(s[0])
    &&& forall|i: int| 0 <= i < s.len() ==> is_digit(#[trigger] s[i]) || is_lower(s[i])
}

/// The component that a run stands for: a run of digits is a number, any
/// other run a label.
pub open spec fn component_of(run: Seq<char>) -> Segment {
    if is_digit(run[0]) {
        Segment::Number(decimal_value(run))
    } else {
        Segment::Label(run)
    }
}

/// Whether every run of digits of `s` denotes a number that fits in `usize`.
pub open spec fn numbers_fit(s: Seq<char>) -> bool {
    forall|i: int|
        0 <= i < runs(s).len() && is_digit(#[trigger] runs(s)[i][0]) ==> decimal_value(runs(s)[i])
            <= usize::MAX
}

/// The components of the card name `s`, or `None` where `s` is not one.
pub open spec fn parse_name(s: Seq<char>) -> Option<Seq<Segment>> {
    if is_card_name(s) && numbers_fit(s) {
        Some(runs(s).map_values(|run: Seq<char>| component_of(run)))
    } else {
        None
    }
}

/// Whether a sequence of components is a card identifier: it starts with a
/// number, numbers and labels alternate, every number fits in `usize` and
/// every label is a non-empty run of lowercase letters.
pub open spec fn wf_segments(segs: Seq<Segment>) -> bool {
    &&& segs.len() > 0
    &&& segs[0] is Number
    &&& forall|i: int| 0 <= i < segs.len() - 1 ==> (#[trigger] segs[i] is Number) != (segs[i
        + 1] is Number)
    &&& forall|i: int|
        0 <= i < segs.len() ==> match #[trigger] segs[i] {
            Segment::Number(n) => n <= usize::MAX,
            Segment::Label(l) => l.len() > 0 && forall|j: int| 0 <= j < l.len() ==> is_lower(
                #[trigger] l[j],
            ),
        }
}

/// The number of the first component.
pub open spec fn major_of(segs: Seq<Segment>) -> nat {
    match segs[0] {
        Segment::Number(n) => n,
        Segment::Label(_) => 0,
    }
}

/// The canonical text of one component.
pub open spec fn segment_text(seg: Segment) -> Seq<char> {
    match seg {
        Segment::Number(n) => decimal_text(n),
        Segment::Label(l) => l,
    }
}

/// The canonical name of a card identifier: its components' texts, joined.
pub open spec fn name_text(segs: Seq<Segment>) -> Seq<char>
    decreases segs.len(),
{
    if segs.len() == 0 {
        seq![]
    } else {
        name_text(segs.drop_last()) + segment_text(segs.last())
    }
}

proof fn lemma_runs(s: Seq<char>)
    ensures
        s.len() > 0 ==> runs(s).len() > 0 && runs(s)[0][0] == s[0] && runs(s).last().last()
            == s.last(),
        forall|i: int| 0 <= i < runs(s).len() ==> #[trigger] runs(s)[i].len() > 0,
        forall|i: int, j: int|
            0 <= i < runs(s).len() && 0 <= j < runs(s)[i].len() ==> same_class(
                #[trigger] runs(s)[i][j],
                runs(s)[i][0],
            ),
        forall|i: int|
            0 <= i < runs(s).len() - 1 ==> !same_class(#[trigger] runs(s)[i][0], runs(s)[i + 1][0]),
        (forall|k: int| 0 <= k < s.len() ==> is_digit(#[trigger] s[k]) || is_lower(s[k])) ==> (
        forall|i: int, j: int|
            0 <= i < runs(s).len() && 0 <= j < runs(s)[i].len() ==> is_digit(
                #[trigger] runs(s)[i][j],
            ) || is_lower(runs(s)[i][j])),
    decreases s.len(),
{
    if s.len() > 0 {
        let p = s.drop_last();
        lemma_runs(p);
        let r = runs(p);
        let c = s.last();
        if (forall|k: int| 0 <= k < s.len() ==> is_digit(#[trigger] s[k]) || is_lower(s[k])) {
            assert forall|k: int| 0 <= k < p.len() implies is_digit(#[trigger] p[k]) || is_lower(
                p[k],
            ) by {
                assert(p[k] == s[k]);
            }
        }
        if s.len() > 1 {
            assert(p.last() == s[s.len() - 2]);
            assert(p[0] == s[0]);
        }
        if s.len() > 1 && same_class(s[s.len() - 2], c) {
            let nl = r.last().push(c);
            assert(runs(s) == r.update(r.len() - 1, nl));
            assert forall|j: int| 0 <= j < nl.len() implies same_class(#[trigger] nl[j], nl[0]) by {
                if j < nl.len() - 1 {
                    assert(nl[j] == r.last()[j]);
                }
            }
        } else {
            assert(runs(s) == r.push(seq![c]));
        }
    }
}

} // verus!

verus! {

/// One component of a card identifier.
pub enum Component {
    Number(usize),
    Label(String),
}

impl View for Component {
    type V = Segment;

    open spec fn view(&self) -> Segment {
        match self {
            Component::Number(n) => Segment::Number(*n as nat),
            Component::Label(l) => Segment::Label(l@),
        }
    }
}

pub open spec fn view_of_runs(v: Seq<String>) -> Seq<Seq<char>> {
    v.map_values(|t: String| t@)
}

fn is_digit_char(c: char) -> (r: bool)
    ensures
        r == is_digit(c),
{
    '0' <= c && c <= '9'
}

fn is_lower_char(c: char) -> (r: bool)
    ensures
        r == is_lower(c),
{
    'a' <= c && c <= 'z'
}

/// The maximal runs of same-class characters of `name`.
fn name_runs(name: &str) -> (r: Vec<String>)
    ensures
        view_of_runs(r@) == runs(name@),
{
    let n = name.unicode_len();
    let mut r: Vec<String> = Vec::new();
    let mut prev: char = '0';
    for i in 0..n
        invariant
            n == name@.len(),
            view_of_runs(r@) == runs(name@.take(i as int)),
            i > 0 ==> prev == name@[i - 1],
    {
        let c = name.get_char(i);
        let ghost s = name@.take(i + 1);
        proof {
            lemma_runs(name@.take(i as int));
            assert(s.drop_last() =~= name@.take(i as int));
            if i > 0 {
                assert(s[s.len() - 2] == prev);
            }
        }
        if i > 0 && is_digit_char(prev) == is_digit_char(c) {
            let mut last = r.pop().unwrap();
            push_char(&mut last, c);
            r.push(last);
            assert(view_of_runs(r@) =~= runs(s));
        } else {
            let mut t = String::new();
            push_char(&mut t, c);
            r.push(t);
            assert(view_of_runs(r@) =~= runs(s));
        }
        prev = c;
    }
    assert(name@.take(n as int) =~= name@);
    r
}

/// Whether `name` is spelled as a card name.
fn is_card_name_text(name: &str) -> (r: bool)
    ensures
        r == is_card_name(name@),
{
    let n = name.unicode_len();
    if n == 0 {
        return false;
    }
    if !is_digit_char(name.get_char(0)) {
        return false;
    }
    for i in 0..n
        invariant
            n == name@.len(),
            forall|k: int| 0 <= k < i ==> is_digit(#[trigger] name@[k]) || is_lower(name@[k]),
    {
        let c = name.get_char(i);
        if !is_digit_char(c) && !is_lower_char(c) {
            return false;
        }
    }
    true
}

/// The components of a card name, or `None` where it is not one.
fn name_components(name: &str) -> (r: Option<Vec<Component>>)
    ensures
        match r {
            Some(v) => parse_name(name@) == Some(v@.map_values(|c: Component| c@)),
            None => parse_name(name@) is None,
        },
{
    if !is_card_name_text(name) {
        return None;
    }
    let ranges = name_runs(name);
    let ghost rs = runs(name@);
    proof {
        lemma_runs(name@);
    }
    let mut result: Vec<Component> = Vec::new();
    let n = ranges.len();
    for i in 0..n
        invariant
            n == ranges@.len(),
            view_of_runs(ranges@) == rs,
            rs == runs(name@),
            is_card_name(name@),
            forall|i: int| 0 <= i < rs.len() ==> #[trigger] rs[i].len() > 0,
            forall|i: int, j: int|
                0 <= i < rs.len() && 0 <= j < rs[i].len() ==> same_class(
                    #[trigger] rs[i][j],
                    rs[i][0],
                ),
            result@.map_values(|c: Component| c@) =~= rs.take(i as int).map_values(
                |run: Seq<char>| component_of(run),
            ),
            forall|k: int|
                0 <= k < i && is_digit(#[trigger] rs[k][0]) ==> decimal_value(rs[k]) <= usize::MAX,
    {
        let range = &ranges[i];
        assert(range@ == rs[i as int]);
        let first = range.as_str().get_char(0);
        if is_digit_char(first) {
            match parse_decimal(range.as_str()) {
                Some(v) => {
                    result.push(Component::Number(v));
                },
                None => {
                    return None;
                },
            }
        } else {
            result.push(Component::Label(range.clone()));
        }
        assert(rs.take(i + 1).map_values(|run: Seq<char>| component_of(run)) =~= rs.take(
            i as int,
        ).map_values(|run: Seq<char>| component_of(run)).push(component_of(rs[i as int])));
    }
    assert(rs.take(n as int) =~= rs);
    Some(result)
}

} // verus!

verus! {

/// What `parse_name` returns is a well-formed card identifier.
proof fn lemma_parse_name_wf(s: Seq<char>)
    requires
        parse_name(s) is Some,
    ensures
        wf_segments(parse_name(s)->0),
{
    lemma_runs(s);
    let rs = runs(s);
    let segs = parse_name(s)->0;
    assert(segs[0] == component_of(rs[0]));
    assert forall|i: int| 0 <= i < segs.len() - 1 implies (#[trigger] segs[i] is Number) != (segs[i
        + 1] is Number) by {
        assert(segs[i] == component_of(rs[i]));
        assert(segs[i + 1] == component_of(rs[i + 1]));
    }
    assert forall|i: int| 0 <= i < segs.len() implies match #[trigger] segs[i] {
        Segment::Number(n) => n <= usize::MAX,
        Segment::Label(l) => l.len() > 0 && forall|j: int| 0 <= j < l.len() ==> is_lower(
            #[trigger] l[j],
        ),
    } by {
        assert(segs[i] == component_of(rs[i]));
        if !is_digit(rs[i][0]) {
            assert forall|j: int| 0 <= j < rs[i].len() implies is_lower(#[trigger] rs[i][j]) by {
                assert(same_class(rs[i][j], rs[i][0]));
            }
        }
    }
}

/// A card identifier: a number, then alternately labels and numbers, as in
/// `123`, `123a` or `123a1b2`.
pub struct CardFace {
    name_components: Vec<Component>,
}

impl View for CardFace {
    type V = Seq<Segment>;

    closed spec fn view(&self) -> Seq<Segment> {
        self.name_components@.map_values(|c: Component| c@)
    }
}

impl CardFace {
    #[verifier::type_invariant]
    spec fn well_formed(&self) -> bool {
        wf_segments(self@)
    }

    /// Parses a card name; `None` where `name` is not one.
    pub fn from_name(name: &str) -> (r: Option<CardFace>)
        ensures
            match r {
                Some(c) => parse_name(name@) == Some(c@),
                None => parse_name(name@) is None,
            },
    {
        match name_components(name) {
            Some(comps) => {
                proof {
                    lemma_parse_name_wf(name@);
                }
                Some(CardFace { name_components: comps })
            },
            None => None,
        }
    }

    /// The major card with the given number.
    pub fn from_number(major_number: usize) -> (r: CardFace)
        ensures
            r@ == seq![Segment::Number(major_number as nat)],
    {
        let r = CardFace { name_components: vec![Component::Number(major_number)] };
        assert(r@ =~= seq![Segment::Number(major_number as nat)]);
        r
    }

    /// The number of the first component.
    pub fn major_number(&self) -> (r: usize)
        ensures
            self@[0] == Segment::Number(r as nat),
            r as nat == major_of(self@),
    {
        proof {
            use_type_invariant(self);
        }
        match &self.name_components[0] {
            Component::Number(n) => *n,
            Component::Label(_) => {
                proof {
                    assert(self@[0] is Number);
                }
                0
            },
        }
    }

    /// The canonical name: the components' texts, joined.
    pub fn name(&self) -> (r: String)
        ensures
            r@ == name_text(self@),
    {
        let mut name = String::new();
        let n = self.name_components.len();
        for i in 0..n
            invariant
                n == self@.len(),
                name@ == name_text(self@.take(i as int)),
        {
            let comp = &self.name_components[i];
            assert(self@.take(i + 1).drop_last() =~= self@.take(i as int));
            assert(comp@ == self@[i as int]);
            match comp {
                Component::Number(number) => {
                    let s = decimal_string(*number as u64);
                    name.append(s.as_str());
                },
                Component::Label(chars) => {
                    name.append(chars.as_str());
                },
            }
        }
        assert(self@.take(n as int) =~= self@);
        name
    }

    /// Whether the identifier has exactly one component.
    pub fn is_major(&self) -> (r: bool)
        ensures
            r == (self@.len() == 1),
    {
        self.name_components.len() == 1
    }
}

} // verus!

verus! {

proof fn lemma_runs_single(b: Seq<char>)
    requires
        b.len() > 0,
        forall|j: int| 0 <= j < b.len() ==> same_class(#[trigger] b[j], b[0]),
    ensures
        runs(b) == seq![b],
    decreases b.len(),
{
    if b.len() == 1 {
        assert(b.drop_last() =~= Seq::<char>::empty());
        assert(runs(b.drop_last()) == Seq::<Seq<char>>::empty());
        assert(seq![b.last()] =~= b);
        assert(Seq::<Seq<char>>::empty().push(b) =~= seq![b]);
    } else {
        let p = b.drop_last();
        assert forall|j: int| 0 <= j < p.len() implies same_class(#[trigger] p[j], p[0]) by {
            assert(p[j] == b[j]);
        }
        lemma_runs_single(p);
        assert(same_class(b[b.len() - 2], b.last()));
        assert(p.push(b.last()) =~= b);
        assert(seq![p].update(0, p.push(b.last())) =~= seq![b]);
    }
}

proof fn lemma_runs_append(a: Seq<char>, b: Seq<char>)
    requires
        a.len() > 0,
        b.len() > 0,
        forall|j: int| 0 <= j < b.len() ==> same_class(#[trigger] b[j], b[0]),
        !same_class(a.last(), b[0]),
    ensures
        runs(a + b) == runs(a).push(b),
    decreases b.len(),
{
    let s = a + b;
    if b.len() == 1 {
        assert(s.drop_last() =~= a);
        assert(s[s.len() - 2] == a.last());
        assert(seq![s.last()] =~= b);
    } else {
        let p = b.drop_last();
        assert forall|j: int| 0 <= j < p.len() implies same_class(#[trigger] p[j], p[0]) by {
            assert(p[j] == b[j]);
        }
        lemma_runs_append(a, p);
        assert(s.drop_last() =~= a + p);
        assert(s[s.len() - 2] == b[b.len() - 2]);
        assert(same_class(b[b.len() - 2], b.last()));
        assert(p.push(b.last()) =~= b);
        let r = runs(a + p);
        assert(r.last() == p);
        assert(r.update(r.len() - 1, p.push(b.last())) =~= runs(a).push(b));
    }
}

proof fn lemma_segment_text(seg: Segment)
    requires
        match seg {
            Segment::Number(n) => true,
            Segment::Label(l) => l.len() > 0 && forall|j: int| 0 <= j < l.len() ==> is_lower(
                #[trigger] l[j],
            ),
        },
    ensures
        segment_text(seg).len() > 0,
        forall|j: int|
            0 <= j < segment_text(seg).len() ==> (is_digit(#[trigger] segment_text(seg)[j]) <==> seg is Number),
        forall|j: int|
            0 <= j < segment_text(seg).len() ==> is_digit(#[trigger] segment_text(seg)[j])
                || is_lower(segment_text(seg)[j]),
        component_of(segment_text(seg)) == seg,
{
    match seg {
        Segment::Number(n) => {
            lemma_decimal_text(n);
        },
        Segment::Label(l) => {
            assert(is_lower(l[0]));
        },
    }
}

proof fn lemma_name_runs(segs: Seq<Segment>)
    requires
        wf_segments(segs),
    ensures
        runs(name_text(segs)) == segs.map_values(|seg: Segment| segment_text(seg)),
        name_text(segs).len() > 0,
        name_text(segs)[0] == segment_text(segs[0])[0],
        is_digit(name_text(segs).last()) <==> segs.last() is Number,
        forall|k: int| 0 <= k < name_text(segs).len() ==> is_digit(#[trigger] name_text(segs)[k])
            || is_lower(name_text(segs)[k]),
    decreases segs.len(),
{
    let t = segment_text(segs.last());
    lemma_segment_text(segs.last());
    assert(segs.last() == segs[segs.len() - 1]);
    if segs.len() == 1 {
        assert(name_text(segs.drop_last()) =~= Seq::<char>::empty());
        assert(name_text(segs) =~= t);
        assert forall|j: int| 0 <= j < t.len() implies same_class(#[trigger] t[j], t[0]) by {}
        lemma_runs_single(t);
        assert(segs.map_values(|seg: Segment| segment_text(seg)) =~= seq![t]);
    } else {
        let p = segs.drop_last();
        assert forall|i: int| 0 <= i < p.len() - 1 implies (#[trigger] p[i] is Number) != (p[i
            + 1] is Number) by {
            assert(p[i] == segs[i] && p[i + 1] == segs[i + 1]);
        }
        assert forall|i: int| 0 <= i < p.len() implies match #[trigger] p[i] {
            Segment::Number(n) => n <= usize::MAX,
            Segment::Label(l) => l.len() > 0 && forall|j: int| 0 <= j < l.len() ==> is_lower(
                #[trigger] l[j],
            ),
        } by {
            assert(p[i] == segs[i]);
        }
        lemma_name_runs(p);
        let a = name_text(p);
        assert(p.last() == segs[segs.len() - 2]);
        assert(segs[segs.len() - 2] is Number != segs[segs.len() - 1] is Number);
        assert forall|j: int| 0 <= j < t.len() implies same_class(#[trigger] t[j], t[0]) by {}
        lemma_runs_append(a, t);
        assert(name_text(segs) == a + t);
        assert(segs.map_values(|seg: Segment| segment_text(seg)) =~= p.map_values(
            |seg: Segment| segment_text(seg),
        ).push(t));
        assert forall|k: int| 0 <= k < name_text(segs).len() implies is_digit(
            #[trigger] name_text(segs)[k],
        ) || is_lower(name_text(segs)[k]) by {
            if k < a.len() {
                assert(name_text(segs)[k] == a[k]);
            } else {
                assert(name_text(segs)[k] == t[k - a.len()]);
            }
        }
        assert(p[0] == segs[0]);
    }
}

/// Parsing the canonical name of a card identifier gives that identifier
/// back: for every identifier `x`, `parse(x.name()) == x`.
pub proof fn lemma_name_round_trip(segs: Seq<Segment>)
    requires
        wf_segments(segs),
    ensures
        parse_name(name_text(segs)) == Some(segs),
{
    lemma_name_runs(segs);
    let s = name_text(segs);
    let rs = runs(s);
    let texts = segs.map_values(|seg: Segment| segment_text(seg));
    assert(rs == texts);
    lemma_segment_text(segs[0]);
    assert(is_card_name(s));
    assert forall|i: int| 0 <= i < segs.len() implies #[trigger] component_of(rs[i]) == segs[i]
        by {
        assert(rs[i] == segment_text(segs[i]));
        lemma_segment_text(segs[i]);
    }
    assert forall|i: int| 0 <= i < rs.len() && is_digit(#[trigger] rs[i][0]) implies decimal_value(
        rs[i],
    ) <= usize::MAX by {
        assert(rs[i] == segment_text(segs[i]));
        lemma_segment_text(segs[i]);
    }
    assert(numbers_fit(s));
    assert(rs.map_values(|run: Seq<char>| component_of(run)) =~= segs);
}

} // verus!

verus! {

/// The order of two components at the same position: numbers by value,
/// labels lexicographically. (A number and a label never meet at the same
/// position of two identifiers; were they to, the number would sort first.)
pub open spec fn segment_cmp(a: Segment, b: Segment) -> Ordering {
    match (a, b) {
        (Segment::Number(x), Segment::Number(y)) => if x < y {
            Ordering::Less
        } else if x > y {
            Ordering::Greater
        } else {
            Ordering::Equal
        },
        (Segment::Label(x), Segment::Label(y)) => text_cmp(x, y),
        (Segment::Number(_), Segment::Label(_)) => Ordering::Less,
        (Segment::Label(_), Segment::Number(_)) => Ordering::Greater,
    }
}

/// The order of card identifiers: the first differing component decides;
/// where one is a proper prefix of the other, the longer sorts greater.
pub open spec fn card_cmp(a: Seq<Segment>, b: Seq<Segment>) -> Ordering
    decreases a.len(),
{
    if a.len() == 0 {
        if b.len() == 0 {
            Ordering::Equal
        } else {
            Ordering::Less
        }
    } else if b.len() == 0 {
        Ordering::Greater
    } else if segment_cmp(a[0], b[0]) != Ordering::Equal {
        segment_cmp(a[0], b[0])
    } else {
        card_cmp(a.drop_first(), b.drop_first())
    }
}

/// `card_cmp` is `Equal` exactly on equal identifiers.
pub proof fn lemma_card_cmp_equal(a: Seq<Segment>, b: Seq<Segment>)
    ensures
        (card_cmp(a, b) == Ordering::Equal) == (a == b),
    decreases a.len(),
{
    if a.len() > 0 && b.len() > 0 {
        lemma_card_cmp_equal(a.drop_first(), b.drop_first());
        match (a[0], b[0]) {
            (Segment::Label(x), Segment::Label(y)) => {
                lemma_text_cmp_basics(x, y);
            },
            _ => {},
        }
        if a[0] == b[0] && a.drop_first() == b.drop_first() {
            assert(a =~= seq![a[0]] + a.drop_first());
            assert(b =~= seq![b[0]] + b.drop_first());
        }
    } else if a.len() == 0 && b.len() == 0 {
        assert(a =~= b);
    }
}

/// The text of `name` placed inside the directory `dir`, with one `/`
/// between them.
pub open spec fn path_in(dir: Seq<char>, name: Seq<char>) -> Seq<char> {
    if dir.len() == 0 {
        name
    } else if dir.last() == '/' {
        dir + name
    } else {
        dir + seq!['/'] + name
    }
}

/// The text of `name` placed inside the directory `dir`.
pub fn path_join(dir: &str, name: &str) -> (r: String)
    ensures
        r@ == path_in(dir@, name@),
{
    let n = dir.unicode_len();
    if n == 0 {
        return String::from_str(name);
    }
    let mut file = String::from_str(dir);
    if dir.get_char(n - 1) != '/' {
        push_char(&mut file, '/');
    }
    file.append(name);
    file
}

fn compare_components(a: &Component, b: &Component) -> (r: Ordering)
    ensures
        r == segment_cmp(a@, b@),
{
    match (a, b) {
        (Component::Number(x), Component::Number(y)) => {
            if *x < *y {
                Ordering::Less
            } else if *x > *y {
                Ordering::Greater
            } else {
                Ordering::Equal
            }
        },
        (Component::Label(x), Component::Label(y)) => compare_text(x.as_str(), y.as_str()),
        (Component::Number(_), Component::Label(_)) => Ordering::Less,
        (Component::Label(_), Component::Number(_)) => Ordering::Greater,
    }
}

impl CardFace {
    /// Compares two identifiers component by component.
    pub fn compare(&self, that: &CardFace) -> (r: Ordering)
        ensures
            r == card_cmp(self@, that@),
    {
        let n = self.name_components.len();
        let m = that.name_components.len();
        let mut i: usize = 0;
        assert(self@.skip(0) =~= self@);
        assert(that@.skip(0) =~= that@);
        while i < n && i < m
            invariant
                n == self@.len(),
                m == that@.len(),
                i <= n,
                i <= m,
                card_cmp(self@, that@) == card_cmp(self@.skip(i as int), that@.skip(i as int)),
            decreases n - i,
        {
            let c = compare_components(&self.name_components[i], &that.name_components[i]);
            assert(self.name_components@[i as int]@ == self@.skip(i as int)[0]);
            assert(that.name_components@[i as int]@ == that@.skip(i as int)[0]);
            match c {
                Ordering::Equal => {},
                _ => {
                    return c;
                },
            }
            assert(self@.skip(i as int).drop_first() =~= self@.skip(i + 1));
            assert(that@.skip(i as int).drop_first() =~= that@.skip(i + 1));
            i = i + 1;
        }
        if i < n {
            Ordering::Greater
        } else if i < m {
            Ordering::Less
        } else {
            Ordering::Equal
        }
    }

    /// The path of this card's file inside the directory `dir`.
    pub fn location_in(&self, dir: &str) -> (r: String)
        ensures
            r@ == path_in(dir@, name_text(self@)),
    {
        let name = self.name();
        path_join(dir, name.as_str())
    }
}

impl PartialEq for CardFace {
    fn eq(&self, that: &CardFace) -> (r: bool) {
        proof {
            lemma_card_cmp_equal(self@, that@);
        }
        match self.compare(that) {
            Ordering::Equal => true,
            _ => false,
        }
    }
}

impl vstd::std_specs::cmp::PartialEqSpecImpl for CardFace {
    open spec fn obeys_eq_spec() -> bool {
        true
    }

    open spec fn eq_spec(&self, that: &CardFace) -> bool {
        self@ == that@
    }
}

impl Eq for CardFace {
}

impl PartialOrd for CardFace {
    fn partial_cmp(&self, that: &CardFace) -> (r: Option<Ordering>) {
        Some(self.compare(that))
    }
}

impl vstd::std_specs::cmp::PartialOrdSpecImpl for CardFace {
    open spec fn obeys_partial_cmp_spec() -> bool {
        true
    }

    open spec fn partial_cmp_spec(&self, that: &CardFace) -> Option<Ordering> {
        Some(card_cmp(self@, that@))
    }
}

impl Clone for Component {
    fn clone(&self) -> (r: Component)
        ensures
            r@ == self@,
    {
        match self {
            Component::Number(n) => Component::Number(*n),
            Component::Label(l) => Component::Label(l.clone()),
        }
    }
}

impl Clone for CardFace {
    fn clone(&self) -> (r: CardFace)
        ensures
            r@ == self@,
    {
        proof {
            use_type_invariant(self);
        }
        let mut comps: Vec<Component> = Vec::new();
        let n = self.name_components.len();
        for i in 0..n
            invariant
                n == self.name_components@.len(),
                comps@.map_values(|c: Component| c@) =~= self@.take(i as int),
        {
            let ghost before = comps@;
            comps.push(self.name_components[i].clone());
            assert(comps@.map_values(|c: Component| c@) =~= before.map_values(|c: Component| c@).push(
                self@[i as int],
            ));
        }
        assert(self@.take(n as int) =~= self@);
        CardFace { name_components: comps }
    }
}

/// In a card identifier the components at even positions are numbers and
/// those at odd positions labels.
pub proof fn lemma_kind_by_position(segs: Seq<Segment>, i: int)
    requires
        wf_segments(segs),
        0 <= i < segs.len(),
    ensures
        (segs[i] is Number) == (i % 2 == 0),
    decreases i,
{
    if i > 0 {
        lemma_kind_by_position(segs, i - 1);
        assert((segs[i - 1] is Number) != (segs[i] is Number));
    }
}

/// Two card identifiers never hold a number and a label at the same
/// position, so comparing them never meets that case.
pub proof fn lemma_aligned_kinds(a: Seq<Segment>, b: Seq<Segment>, i: int)
    requires
        wf_segments(a),
        wf_segments(b),
        0 <= i < a.len(),
        0 <= i < b.len(),
    ensures
        (a[i] is Number) == (b[i] is Number),
{
    lemma_kind_by_position(a, i);
    lemma_kind_by_position(b, i);
}

proof fn lemma_segment_cmp(x: Segment, y: Segment, z: Segment)
    ensures
        (segment_cmp(x, y) == Ordering::Less) == (segment_cmp(y, x) == Ordering::Greater),
        (segment_cmp(x, y) == Ordering::Equal) == (x == y),
        segment_cmp(x, y) == Ordering::Less && segment_cmp(y, z) == Ordering::Less
            ==> segment_cmp(x, z) == Ordering::Less,
{
    match (x, y) {
        (Segment::Label(p), Segment::Label(q)) => {
            lemma_text_cmp_basics(p, q);
        },
        _ => {},
    }
    match (x, y, z) {
        (Segment::Label(p), Segment::Label(q), Segment::Label(r)) => {
            if text_cmp(p, q) == Ordering::Less && text_cmp(q, r) == Ordering::Less {
                lemma_text_cmp_transitive(p, q, r);
            }
        },
        _ => {},
    }
}

/// The order of card identifiers is antisymmetric: `a` sorts before `b`
/// exactly where `b` sorts after `a`.
pub proof fn lemma_card_cmp_antisymmetric(a: Seq<Segment>, b: Seq<Segment>)
    ensures
        (card_cmp(a, b) == Ordering::Less) == (card_cmp(b, a) == Ordering::Greater),
    decreases a.len(),
{
    if a.len() > 0 && b.len() > 0 {
        lemma_segment_cmp(a[0], b[0], b[0]);
        lemma_segment_cmp(b[0], a[0], a[0]);
        lemma_card_cmp_antisymmetric(a.drop_first(), b.drop_first());
    }
}

/// The order of card identifiers is transitive.
pub proof fn lemma_card_cmp_transitive(a: Seq<Segment>, b: Seq<Segment>, c: Seq<Segment>)
    requires
        card_cmp(a, b) == Ordering::Less,
        card_cmp(b, c) == Ordering::Less,
    ensures
        card_cmp(a, c) == Ordering::Less,
    decreases a.len(),
{
    if a.len() > 0 && b.len() > 0 && c.len() > 0 {
        lemma_segment_cmp(a[0], b[0], c[0]);
        lemma_segment_cmp(b[0], c[0], a[0]);
        lemma_segment_cmp(a[0], c[0], b[0]);
        if a[0] == b[0] && b[0] == c[0] {
            lemma_card_cmp_transitive(a.drop_first(), b.drop_first(), c.drop_first());
        }
    }
}

} // verus!
