use vstd::prelude::*;

use crate::text::same_text;
use crate::varg::{arg_views, Args};

verus! {

/// Where `init` creates the timeline file and where the cards are kept.
pub struct InitArguments {
    pub timeline_file_location: String,
    pub cards_folder_location: String,
}

/// The locations that the arguments of the `init` subcommand give: the
/// timeline file, then the cards folder (`.` where it is left out). `None`
/// for another subcommand, for none, and for no or more than two arguments.
pub fn parse_arguments(args: &Args) -> (r: Option<InitArguments>)
    ensures
        ({
            let a = arg_views(args.args@);
            let ok = (args.subcommand matches Some(s) && s@ == "init"@) && 1 <= a.len() <= 2;
            match r {
                Some(x) => ok && x.timeline_file_location@ == a[0] && (a.len() == 1
                    ==> x.cards_folder_location@ == "."@) && (a.len() == 2
                    ==> x.cards_folder_location@ == a[1]),
                None => !ok,
            }
        }),
{
    match &args.subcommand {
        Some(subcommand) => {
            if !same_text(subcommand.as_str(), "init") {
                return None;
            }
            let arguments = &args.args;
            assert(arguments@.len() > 0 ==> arg_views(arguments@)[0] == arguments@[0]@);
            assert(arguments@.len() > 1 ==> arg_views(arguments@)[1] == arguments@[1]@);
            if arguments.len() == 1 {
                return Some(
                    InitArguments {
                        timeline_file_location: arguments[0].clone(),
                        cards_folder_location: String::from_str("."),
                    },
                );
            }
            if arguments.len() == 2 {
                return Some(
                    InitArguments {
                        timeline_file_location: arguments[0].clone(),
                        cards_folder_location: arguments[1].clone(),
                    },
                );
            }
            None
        },
        None => None,
    }
}

} // verus!
