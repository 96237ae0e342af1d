//! Dispatch and output shaping for the command-line surface: which operation
//! a set of flags selects, and how a trailer set is shown to the user.

use crate::text::{join_strings, join_with};
use vstd::prelude::*;
use vstd::string::StringExecFns;

verus! {

/// The operation a set of command-line flags selects.
#[derive(Clone, Copy, Debug, PartialEq, Eq, Structural)]
pub enum Action {
    ShowShortHelp,
    ShowManual,
    ShowVersion,
    Delete,
    Add,
    List,
}

/// The flag precedence: short help, then the manual, then the version, then
/// delete; aliases without a flag mean add, and nothing at all means list.
pub open spec fn spec_choose_action(
    short_help: bool,
    long_help: bool,
    version: bool,
    delete: bool,
    has_aliases: bool,
) -> Action {
    if short_help {
        Action::ShowShortHelp
    } else if long_help {
        Action::ShowManual
    } else if version {
        Action::ShowVersion
    } else if delete {
        Action::Delete
    } else if has_aliases {
        Action::Add
    } else {
        Action::List
    }
}

/// Selects the operation for one invocation from its flags.
pub fn choose_action(
    short_help: bool,
    long_help: bool,
    version: bool,
    delete: bool,
    has_aliases: bool,
) -> (r: Action)
    ensures
        r == spec_choose_action(short_help, long_help, version, delete, has_aliases),
{
    if short_help {
        Action::ShowShortHelp
    } else if long_help {
        Action::ShowManual
    } else if version {
        Action::ShowVersion
    } else if delete {
        Action::Delete
    } else if has_aliases {
        Action::Add
    } else {
        Action::List
    }
}

/// What a list or delete shows: the trailer set joined line by line, or the
/// fixed wording when none remain.
pub open spec fn render_coauthors_spec(coauthors: Seq<Seq<char>>) -> Seq<char> {
    if coauthors.len() == 0 {
        "no coauthors"@
    } else {
        join_with(coauthors, "\n"@)
    }
}

/// Renders a trailer set for the user.
pub fn render_coauthors(coauthors: &Vec<String>) -> (r: String)
    ensures
        r@ == render_coauthors_spec(coauthors.deep_view()),
{
    if coauthors.len() == 0 {
        String::from_str("no coauthors")
    } else {
        join_strings(coauthors, "\n")
    }
}

} // verus!
