use core::cmp::Ordering;
use vstd::prelude::*;
use vstd::string::*;

use crate::text::{compare_text, lemma_text_cmp_basics, lemma_text_cmp_transitive, text_cmp};

verus! {

/// Whether the texts of `s` are in strictly increasing lexicographic order.
pub open spec fn sorted_texts(s: Seq<Seq<char>>) -> bool {
    forall|i: int, j: int| 0 <= i < j < s.len() ==> text_cmp(#[trigger] s[i], #[trigger] s[j]) == Ordering::Less
}

/// Whether the numbers of `s` are strictly increasing.
pub open spec fn sorted_numbers(s: Seq<usize>) -> bool {
    forall|i: int, j: int| 0 <= i < j < s.len() ==> #[trigger] s[i] < #[trigger] s[j]
}

pub open spec fn string_views(v: Seq<String>) -> Seq<Seq<char>> {
    v.map_values(|t: String| t@)
}

/// Adds `x` to the sorted texts `v`, where it is not there yet.
pub fn insert_text(v: &mut Vec<String>, x: &str)
    requires
        sorted_texts(string_views(old(v)@)),
    ensures
        sorted_texts(string_views(final(v)@)),
        string_views(final(v)@).to_set() == string_views(old(v)@).to_set().insert(x@),
{
    let n = v.len();
    let mut p: usize = 0;
    let mut stop = false;
    while p < n && !stop
        invariant
            n == v@.len(),
            p <= n,
            sorted_texts(string_views(v@)),
            forall|i: int| 0 <= i < p ==> text_cmp(#[trigger] string_views(v@)[i], x@) == Ordering::Less,
            stop ==> p < n && text_cmp(string_views(v@)[p as int], x@) == Ordering::Greater,
        decreases n - p + if stop { 0int } else { 1int },
    {
        match compare_text(v[p].as_str(), x) {
            Ordering::Less => {},
            Ordering::Equal => {
                proof {
                    lemma_text_cmp_basics(v@[p as int]@, x@);
                    assert(string_views(v@)[p as int] == x@);
                    assert(string_views(v@).to_set().insert(x@) =~= string_views(v@).to_set());
                }
                return;
            },
            Ordering::Greater => {
                stop = true;
            },
        }
        if !stop {
            p = p + 1;
        }
    }
    let ghost old_s = string_views(v@);
    v.insert(p, String::from_str(x));
    proof {
        let s = string_views(v@);
        assert(s =~= old_s.insert(p as int, x@));
        if p < n {
            lemma_text_cmp_basics(x@, old_s[p as int]);
        }
        assert forall|i: int, j: int| 0 <= i < j < s.len() implies text_cmp(
            #[trigger] s[i],
            #[trigger] s[j],
        ) == Ordering::Less by {
            if j < p {
                assert(s[i] == old_s[i] && s[j] == old_s[j]);
            } else if j == p {
                assert(s[i] == old_s[i]);
            } else if i == p {
                assert(s[j] == old_s[j - 1]);
                if j - 1 > p {
                    lemma_text_cmp_transitive(x@, old_s[p as int], old_s[j - 1]);
                }
            } else if i < p {
                assert(s[i] == old_s[i] && s[j] == old_s[j - 1]);
            } else {
                assert(s[i] == old_s[i - 1] && s[j] == old_s[j - 1]);
            }
        }
        assert forall|y: Seq<char>| #[trigger] s.to_set().contains(y) == old_s.to_set().insert(
            x@,
        ).contains(y) by {
            if s.contains(y) {
                let i = choose|i: int| 0 <= i < s.len() && s[i] == y;
                if i < p {
                    assert(old_s[i] == y);
                } else if i > p {
                    assert(old_s[i - 1] == y);
                }
            }
            if old_s.contains(y) {
                let i = choose|i: int| 0 <= i < old_s.len() && old_s[i] == y;
                if i < p {
                    assert(s[i] == y);
                } else {
                    assert(s[i + 1] == y);
                }
            }
            if y == x@ {
                assert(s[p as int] == y);
            }
        }
        assert(s.to_set() =~= old_s.to_set().insert(x@));
    }
}

/// Adds `x` to the strictly increasing numbers `v`, where it is not there
/// yet.
pub fn insert_number(v: &mut Vec<usize>, x: usize)
    requires
        sorted_numbers(old(v)@),
    ensures
        sorted_numbers(final(v)@),
        final(v)@.to_set() == old(v)@.to_set().insert(x),
{
    let n = v.len();
    let mut p: usize = 0;
    while p < n && v[p] < x
        invariant
            n == v@.len(),
            p <= n,
            forall|i: int| 0 <= i < p ==> #[trigger] v@[i] < x,
        decreases n - p,
    {
        p = p + 1;
    }
    if p < n && v[p] == x {
        assert(v@.to_set().insert(x) =~= v@.to_set());
        return;
    }
    let ghost old_s = v@;
    v.insert(p, x);
    proof {
        let s = v@;
        assert forall|i: int, j: int| 0 <= i < j < s.len() implies #[trigger] s[i] < #[trigger] s[j] by {
            if j < p {
                assert(s[i] == old_s[i] && s[j] == old_s[j]);
            } else if j == p {
                assert(s[i] == old_s[i]);
            } else if i == p {
                assert(s[j] == old_s[j - 1]);
            } else if i < p {
                assert(s[i] == old_s[i] && s[j] == old_s[j - 1]);
            } else {
                assert(s[i] == old_s[i - 1] && s[j] == old_s[j - 1]);
            }
        }
        assert forall|y: usize| #[trigger] s.to_set().contains(y) == old_s.to_set().insert(
            x,
        ).contains(y) by {
            if s.contains(y) {
                let i = choose|i: int| 0 <= i < s.len() && s[i] == y;
                if i < p {
                    assert(old_s[i] == y);
                } else if i > p {
                    assert(old_s[i - 1] == y);
                }
            }
            if old_s.contains(y) {
                let i = choose|i: int| 0 <= i < old_s.len() && old_s[i] == y;
                if i < p {
                    assert(s[i] == y);
                } else {
                    assert(s[i + 1] == y);
                }
            }
            if y == x {
                assert(s[p as int] == y);
            }
        }
        assert(s.to_set() =~= old_s.to_set().insert(x));
    }
}

} // verus!
