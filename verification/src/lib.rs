//! Management of "Co-authored-by" attribution trailers on a commit message.
//!
//! The crate resolves user-supplied aliases to contact lines — first through a
//! configured alias table, then by scanning commit history — and edits the
//! trailer block of a commit message, all as pure functions over lines of text.

pub mod cli;
pub mod contact;
pub mod laws;
pub mod resolve;
pub mod text;
pub mod trailer;

use vstd::prelude::*;

verus! {

/// The prefix that marks a message line as a coauthor trailer.
pub open spec fn trailer_prefix() -> Seq<char> {
    "Co-authored-by: "@
}

/// A line is a trailer iff it starts with the trailer prefix.
pub open spec fn is_trailer(line: Seq<char>) -> bool {
    line.len() >= trailer_prefix().len() && line.subrange(0, trailer_prefix().len() as int)
        == trailer_prefix()
}

/// Whether `line` is a coauthor trailer line.
pub fn is_trailer_line(line: &str) -> (r: bool)
    ensures
        r == is_trailer(line@),
{
    text::has_prefix(line, "Co-authored-by: ")
}

} // verus!
