use vstd::prelude::*;

use crate::cardface::{parse_name, CardFace};
use crate::commands::majors_of;
use crate::cardfolder::parsed_cards;
use crate::error::ZkError;
use crate::tag::{is_valid_tag, valid_tag};
use crate::text::same_text;
use crate::varg::arg_views;

verus! {

/// What the arguments of the `tag` subcommand ask for.
pub enum TagRequest {
    /// Print the usage text.
    Help,
    /// List all tags.
    ListAll,
    /// List the tags on these major cards.
    ListCards(Vec<usize>),
    /// Remove the tag from every card.
    DeleteAll(String),
    /// Remove the tag from the named cards.
    Delete(String, Vec<String>),
    /// List the cards that carry any of these tags.
    Show(Vec<String>),
    /// Set the tag on the named cards.
    SetOn(String, Vec<String>),
}

pub open spec fn is_list_switch(a: Seq<char>) -> bool {
    a == "--list"@ || a == "-l"@
}

pub open spec fn is_delete_switch(a: Seq<char>) -> bool {
    a == "--delete"@ || a == "-d"@
}

pub open spec fn is_show_switch(a: Seq<char>) -> bool {
    a == "--show"@ || a == "-s"@
}

/// The valid tag names of `s`, in order.
pub open spec fn valid_tags(s: Seq<Seq<char>>) -> Seq<Seq<char>>
    decreases s.len(),
{
    if s.len() == 0 {
        seq![]
    } else if valid_tag(s.last()) {
        valid_tags(s.drop_last()).push(s.last())
    } else {
        valid_tags(s.drop_last())
    }
}

/// Whether every name of `s` is a card name.
pub open spec fn all_card_names(s: Seq<Seq<char>>) -> bool {
    forall|i: int| 0 <= i < s.len() ==> parse_name(#[trigger] s[i]) is Some
}

fn rest_of(v: &Vec<String>, from: usize) -> (r: Vec<String>)
    requires
        from <= v@.len(),
    ensures
        arg_views(r@) == arg_views(v@).skip(from as int),
{
    let mut r: Vec<String> = Vec::new();
    let n = v.len();
    for i in from..n
        invariant
            n == v@.len(),
            from <= i <= n,
            arg_views(r@) =~= arg_views(v@).subrange(from as int, i as int),
    {
        let ghost before = r@;
        r.push(v[i].clone());
        assert(arg_views(r@) =~= arg_views(before).push(v@[i as int]@));
    }
    r
}

/// Reads the arguments of the `tag` subcommand:
/// `--list` / `-l` with optional card names, `--delete` / `-d` with a tag
/// and optional card names, `--show` / `-s` with tag names, or a tag name
/// and card names to set it on. `InvalidFormat` where `--list` is given a
/// name that is no card name, `--delete` no tag, or `--show` no valid tag.
pub fn tag_request(params: &Vec<String>) -> (r: Result<TagRequest, ZkError>)
    ensures
        ({
            let p = arg_views(params@);
            match r {
                Ok(TagRequest::Help) => p.len() == 0 || (p.len() == 1 && !is_list_switch(p[0])
                    && !is_delete_switch(p[0]) && !is_show_switch(p[0])),
                Ok(TagRequest::ListAll) => p.len() == 1 && is_list_switch(p[0]),
                Ok(TagRequest::ListCards(ms)) => p.len() > 1 && is_list_switch(p[0])
                    && all_card_names(p.skip(1)) && ms@ == majors_of(parsed_cards(p.skip(1))),
                Ok(TagRequest::DeleteAll(t)) => p.len() == 2 && !is_list_switch(p[0])
                    && is_delete_switch(p[0]) && t@ == p[1],
                Ok(TagRequest::Delete(t, cs)) => p.len() > 2 && !is_list_switch(p[0])
                    && is_delete_switch(p[0]) && t@ == p[1] && arg_views(cs@) == p.skip(2),
                Ok(TagRequest::Show(ts)) => p.len() > 1 && !is_list_switch(p[0])
                    && !is_delete_switch(p[0]) && is_show_switch(p[0]) && arg_views(ts@)
                    == valid_tags(p.skip(1)) && ts@.len() > 0,
                Ok(TagRequest::SetOn(t, cs)) => p.len() > 1 && !is_list_switch(p[0])
                    && !is_delete_switch(p[0]) && !is_show_switch(p[0]) && t@ == p[0] && arg_views(
                    cs@,
                ) == p.skip(1),
                Err(e) => e == ZkError::InvalidFormat && p.len() > 0 && ((is_list_switch(p[0])
                    && p.len() > 1 && !all_card_names(p.skip(1))) || (!is_list_switch(p[0])
                    && is_delete_switch(p[0]) && p.len() == 1) || (!is_list_switch(p[0])
                    && !is_delete_switch(p[0]) && is_show_switch(p[0]) && valid_tags(p.skip(1)).len()
                    == 0)),
            }
        }),
{
    let ghost p = arg_views(params@);
    let n = params.len();
    if n == 0 {
        return Ok(TagRequest::Help);
    }
    let first = params[0].as_str();
    assert(p[0] == params@[0]@);
    if same_text(first, "--list") || same_text(first, "-l") {
        if n == 1 {
            return Ok(TagRequest::ListAll);
        }
        let names = rest_of(params, 1);
        let mut majors: Vec<usize> = Vec::new();
        let ghost q = p.skip(1);
        for i in 0..names.len()
            invariant
                arg_views(names@) == q,
                q == p.skip(1),
                p == arg_views(params@),
                p.len() > 1,
                is_list_switch(p[0]),
                forall|j: int| 0 <= j < i ==> parse_name(#[trigger] q[j]) is Some,
                parsed_cards(q.take(i as int)) =~= q.take(i as int).map_values(
                    |s: Seq<char>| parse_name(s)->0,
                ),
                majors@ == majors_of(parsed_cards(q.take(i as int))),
        {
            assert(q.take(i + 1).drop_last() =~= q.take(i as int));
            assert(q[i as int] == names@[i as int]@);
            match CardFace::from_name(names[i].as_str()) {
                Some(face) => {
                    majors.push(face.major_number());
                    assert(parsed_cards(q.take(i + 1)) =~= q.take(i + 1).map_values(
                        |s: Seq<char>| parse_name(s)->0,
                    ));
                    assert(majors@ =~= majors_of(parsed_cards(q.take(i + 1))));
                },
                None => {
                    assert(parse_name(q[i as int]) is None);
                    assert(!all_card_names(q));
                    return Err(ZkError::InvalidFormat);
                },
            }
        }
        assert(q.take(q.len() as int) =~= q);
        return Ok(TagRequest::ListCards(majors));
    }
    if same_text(first, "--delete") || same_text(first, "-d") {
        if n == 1 {
            return Err(ZkError::InvalidFormat);
        }
        assert(p[1] == params@[1]@);
        let tag_name = params[1].clone();
        if n == 2 {
            return Ok(TagRequest::DeleteAll(tag_name));
        }
        return Ok(TagRequest::Delete(tag_name, rest_of(params, 2)));
    }
    if same_text(first, "--show") || same_text(first, "-s") {
        let candidates = rest_of(params, 1);
        let ghost q = p.skip(1);
        let mut tags: Vec<String> = Vec::new();
        for i in 0..candidates.len()
            invariant
                arg_views(candidates@) == q,
                q == p.skip(1),
                p == arg_views(params@),
                p.len() > 0,
                !is_list_switch(p[0]) && !is_delete_switch(p[0]) && is_show_switch(p[0]),
                arg_views(tags@) == valid_tags(q.take(i as int)),
        {
            assert(q.take(i + 1).drop_last() =~= q.take(i as int));
            assert(q[i as int] == candidates@[i as int]@);
            if is_valid_tag(candidates[i].as_str()) {
                let ghost before = tags@;
                tags.push(candidates[i].clone());
                assert(arg_views(tags@) =~= arg_views(before).push(q[i as int]));
            }
        }
        assert(q.take(q.len() as int) =~= q);
        if tags.len() == 0 {
            return Err(ZkError::InvalidFormat);
        }
        return Ok(TagRequest::Show(tags));
    }
    if n > 1 {
        return Ok(TagRequest::SetOn(params[0].clone(), rest_of(params, 1)));
    }
    Ok(TagRequest::Help)
}

} // verus!
