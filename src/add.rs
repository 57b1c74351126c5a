use vstd::prelude::*;

use crate::error::ZkError;
use crate::text::same_text;
use crate::varg::{arg_views, first_switch};

verus! {

/// The arguments with every `--timeline` left out.
pub open spec fn without_timeline_switch(s: Seq<Seq<char>>) -> Seq<Seq<char>>
    decreases s.len(),
{
    if s.len() == 0 {
        seq![]
    } else if s.last() == "--timeline"@ {
        without_timeline_switch(s.drop_last())
    } else {
        without_timeline_switch(s.drop_last()).push(s.last())
    }
}

/// What the `add` command line asks for.
pub struct Config {
    pub timeline: String,
    pub add_all: bool,
    pub add_cards: Option<Vec<String>>,
}

impl Config {
    /// Reads the command line of `add`: the timeline file after the first
    /// timeline switch, whether `--all` is given, and otherwise the cards.
    /// `NotFound` where no timeline file is given.
    pub fn from_args(args: &Vec<String>) -> (r: Result<Config, ZkError>)
        ensures
            ({
                let a = arg_views(args@);
                let i = first_switch(a);
                match r {
                    Ok(c) => i + 1 < a.len() && c.timeline@ == a[i + 1] && c.add_all == (a.contains(
                        "--all"@,
                    ) || c.add_cards is None) && (a.contains("--all"@) <==> c.add_cards is None)
                        && (c.add_cards matches Some(v) ==> arg_views(v@)
                        == without_timeline_switch(a)),
                    Err(e) => !(i + 1 < a.len()) && e == ZkError::NotFound,
                }
            }),
    {
        let add_cards = Config::_user_args_cards(args);
        let add_all = Config::_user_args_add_all(args) || add_cards.is_none();
        match Config::_user_args_timeline(args) {
            Some(timeline) => Ok(Config { timeline, add_all, add_cards }),
            None => Err(ZkError::NotFound),
        }
    }

    /// Whether `--all` is among the arguments.
    pub fn _user_args_add_all(args: &Vec<String>) -> (r: bool)
        ensures
            r == arg_views(args@).contains("--all"@),
    {
        let ghost a = arg_views(args@);
        for i in 0..args.len()
            invariant
                a == arg_views(args@),
                forall|j: int| 0 <= j < i ==> a[j] != "--all"@,
        {
            assert(a[i as int] == args@[i as int]@);
            if same_text(args[i].as_str(), "--all") {
                return true;
            }
        }
        false
    }

    /// The cards to add: every argument but `--timeline`; `None` where
    /// `--all` is given.
    pub fn _user_args_cards(args: &Vec<String>) -> (r: Option<Vec<String>>)
        ensures
            match r {
                Some(v) => !arg_views(args@).contains("--all"@) && arg_views(v@)
                    == without_timeline_switch(arg_views(args@)),
                None => arg_views(args@).contains("--all"@),
            },
    {
        let ghost a = arg_views(args@);
        let mut cards: Vec<String> = Vec::new();
        for i in 0..args.len()
            invariant
                a == arg_views(args@),
                forall|j: int| 0 <= j < i ==> a[j] != "--all"@,
                arg_views(cards@) == without_timeline_switch(a.take(i as int)),
        {
            assert(a[i as int] == args@[i as int]@);
            assert(a.take(i + 1).drop_last() =~= a.take(i as int));
            let arg = args[i].as_str();
            if same_text(arg, "--timeline") {
                proof {
                    reveal_strlit("--timeline");
                    reveal_strlit("--all");
                    assert("--timeline"@.len() != "--all"@.len());
                }
            } else if same_text(arg, "--all") {
                return None;
            } else {
                let ghost before = cards@;
                cards.push(args[i].clone());
                assert(arg_views(cards@) =~= arg_views(before).push(a[i as int]));
            }
        }
        assert(a.take(a.len() as int) =~= a);
        Some(cards)
    }

    /// The argument after the first timeline switch, if there is one.
    pub fn _user_args_timeline(args: &Vec<String>) -> (r: Option<String>)
        ensures
            ({
                let a = arg_views(args@);
                let i = first_switch(a);
                match r {
                    Some(t) => i + 1 < a.len() && t@ == a[i + 1],
                    None => !(i + 1 < a.len()),
                }
            }),
    {
        let ghost a = arg_views(args@);
        let n = args.len();
        let mut i: usize = 0;
        assert(a.skip(0) =~= a);
        while i < n
            invariant
                n == args@.len(),
                a == arg_views(args@),
                i <= n,
                first_switch(a) == i + first_switch(a.skip(i as int)),
            decreases n - i,
        {
            assert(a[i as int] == args@[i as int]@);
            assert(a.skip(i as int)[0] == a[i as int]);
            if same_text(args[i].as_str(), "--timeline") || same_text(args[i].as_str(), "-t") {
                if i + 1 < n {
                    assert(a[i + 1] == args@[i + 1]@);
                    return Some(args[i + 1].clone());
                }
                return None;
            }
            assert(a.skip(i as int).drop_first() =~= a.skip(i + 1));
            i = i + 1;
        }
        None
    }
}

} // verus!
