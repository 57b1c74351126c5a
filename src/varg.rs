use vstd::prelude::*;

use crate::text::same_text;

verus! {

/// Whether `a` is the switch that names the timeline file.
pub open spec fn is_timeline_switch(a: Seq<char>) -> bool {
    a == "--timeline"@ || a == "-t"@
}

/// The number of timeline switches among `args`.
pub open spec fn switch_count(args: Seq<Seq<char>>) -> nat
    decreases args.len(),
{
    if args.len() == 0 {
        0
    } else {
        switch_count(args.drop_last()) + if is_timeline_switch(args.last()) {
            1nat
        } else {
            0nat
        }
    }
}

/// The index of the first timeline switch among `args`, or `args.len()`.
pub open spec fn first_switch(args: Seq<Seq<char>>) -> int
    decreases args.len(),
{
    if args.len() == 0 {
        0
    } else if is_timeline_switch(args[0]) {
        0
    } else {
        1 + first_switch(args.drop_first())
    }
}

/// Whether `a` names a subcommand.
pub open spec fn is_subcommand(a: Seq<char>) -> bool {
    a == "init"@ || a == "card"@ || a == "add"@ || a == "set"@ || a == "blob"@ || a == "tag"@
}

pub open spec fn arg_views(v: Seq<String>) -> Seq<Seq<char>> {
    v.map_values(|s: String| s@)
}

/// The command line, split into the subcommand, the timeline file and the
/// remaining arguments.
pub struct Args {
    pub subcommand: Option<String>,
    pub timeline_file: Option<String>,
    pub args: Vec<String>,
}

fn is_switch_text(a: &str) -> (r: bool)
    ensures
        r == is_timeline_switch(a@),
{
    same_text(a, "--timeline") || same_text(a, "-t")
}

proof fn lemma_first_switch(args: Seq<Seq<char>>, k: int)
    requires
        0 <= k <= args.len(),
        forall|j: int| 0 <= j < k ==> !is_timeline_switch(#[trigger] args[j]),
    ensures
        k < args.len() && is_timeline_switch(args[k]) ==> first_switch(args) == k,
        k == args.len() ==> first_switch(args) == args.len(),
    decreases k,
{
    if k > 0 {
        let t = args.drop_first();
        assert forall|j: int| 0 <= j < k - 1 implies !is_timeline_switch(#[trigger] t[j]) by {
            assert(t[j] == args[j + 1]);
        }
        assert(!is_timeline_switch(args[0]));
        lemma_first_switch(t, k - 1);
    } else if args.len() > 0 {
    }
}

proof fn lemma_switch_count_prefix(args: Seq<Seq<char>>, k: int)
    requires
        0 <= k <= args.len(),
    ensures
        switch_count(args.take(k)) <= switch_count(args),
    decreases args.len() - k,
{
    if k < args.len() {
        lemma_switch_count_prefix(args, k + 1);
        assert(args.take(k + 1).drop_last() =~= args.take(k));
    } else {
        assert(args.take(k) =~= args);
    }
}

/// Takes the timeline switch and the file name after it out of `args` and
/// returns that file name. Where there is no switch, more than one, or no
/// argument after it, returns `None` and leaves `args` as it was.
pub fn get_timeline(args: &mut Vec<String>) -> (r: Option<String>)
    ensures
        ({
            let a = arg_views(old(args)@);
            let i = first_switch(a);
            if switch_count(a) == 1 && i + 1 < a.len() {
                r matches Some(t) && t@ == a[i + 1] && arg_views(final(args)@) == a.remove(
                    i + 1,
                ).remove(i)
            } else {
                r is None && final(args)@ == old(args)@
            }
        }),
{
    let ghost a = arg_views(args@);
    let n = args.len();
    let mut switch_index: usize = n;
    let mut count: usize = 0;
    for i in 0..n
        invariant
            n == args@.len(),
            a == arg_views(args@),
            count <= 1,
            count as nat == switch_count(a.take(i as int)),
            count == 0 ==> switch_index == n && forall|j: int|
                0 <= j < i ==> !is_timeline_switch(#[trigger] a[j]),
            count == 1 ==> switch_index < i && first_switch(a) == switch_index,
    {
        assert(a.take(i + 1).drop_last() =~= a.take(i as int));
        assert(a[i as int] == args@[i as int]@);
        if is_switch_text(args[i].as_str()) {
            if count == 0 {
                proof {
                    lemma_first_switch(a, i as int);
                }
                switch_index = i;
                count = 1;
            } else {
                proof {
                    lemma_switch_count_prefix(a, i + 1);
                }
                return None;
            }
        }
    }
    assert(a.take(n as int) =~= a);
    if count == 0 {
        return None;
    }
    if switch_index + 1 >= n {
        return None;
    }
    let timeline = args.remove(switch_index + 1);
    args.remove(switch_index);
    assert(arg_views(args@) =~= a.remove(switch_index + 1).remove(switch_index as int));
    Some(timeline)
}

impl Args {
    /// Takes the subcommand out of the front of `args`, where the first
    /// argument names one.
    fn subcommand(args: &mut Vec<String>) -> (r: Option<String>)
        ensures
            if old(args)@.len() > 0 && is_subcommand(old(args)@[0]@) {
                r matches Some(s) && s@ == old(args)@[0]@ && final(args)@ == old(args)@.remove(0)
            } else {
                r is None && final(args)@ == old(args)@
            },
    {
        if args.len() == 0 {
            return None;
        }
        let first = args[0].as_str();
        let known = same_text(first, "init") || same_text(first, "card") || same_text(first, "add")
            || same_text(first, "set") || same_text(first, "blob") || same_text(first, "tag");
        if known {
            Some(args.remove(0))
        } else {
            None
        }
    }

    /// Splits a command line (without the program name): first the timeline
    /// switch and its file, then a subcommand at the front of what is left.
    pub fn from_vec(args: Vec<String>) -> (r: Args)
        ensures
            ({
                let a = arg_views(args@);
                let i = first_switch(a);
                let found = switch_count(a) == 1 && i + 1 < a.len();
                let rest = if found {
                    a.remove(i + 1).remove(i)
                } else {
                    a
                };
                &&& found ==> (r.timeline_file matches Some(t) && t@ == a[i + 1])
                &&& !found ==> r.timeline_file is None
                &&& if rest.len() > 0 && is_subcommand(rest[0]) {
                    r.subcommand matches Some(s) && s@ == rest[0] && arg_views(r.args@) == rest.remove(0)
                } else {
                    r.subcommand is None && arg_views(r.args@) == rest
                }
            }),
    {
        let mut args = args;
        let timeline_file = get_timeline(&mut args);
        let ghost mid = args@;
        let subcommand = Args::subcommand(&mut args);
        proof {
            if mid.len() > 0 {
                assert(arg_views(mid)[0] == mid[0]@);
                if is_subcommand(mid[0]@) {
                    assert(arg_views(args@) =~= arg_views(mid).remove(0));
                }
            }
        }
        Args { subcommand, timeline_file, args }
    }
}

} // verus!
