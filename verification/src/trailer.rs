//! The trailer editor: pure transforms of a commit message, held as a
//! sequence of lines, that add or remove coauthor trailer lines.

use crate::text::{contains_string, join_strings, join_with};
use crate::{is_trailer, is_trailer_line};
use vstd::prelude::*;
use vstd::string::StrSliceExecFns;
use vstd::string::StringExecFns;

verus! {

/// A line with one trailing carriage return removed.
pub open spec fn strip_cr(t: Seq<char>) -> Seq<char> {
    if t.len() > 0 && t.last() == '\r' {
        t.drop_last()
    } else {
        t
    }
}

/// Line splitting, carrying the line under construction: lines end at `\n`
/// (or `\r\n`), and a final line needs no terminator.
pub open spec fn lines_acc(s: Seq<char>, cur: Seq<char>) -> Seq<Seq<char>>
    decreases s.len(),
{
    if s.len() == 0 {
        if cur.len() == 0 {
            Seq::empty()
        } else {
            seq![cur]
        }
    } else if s[0] == '\n' {
        seq![strip_cr(cur)] + lines_acc(s.drop_first(), Seq::empty())
    } else {
        lines_acc(s.drop_first(), cur.push(s[0]))
    }
}

/// The lines of a message.
pub open spec fn split_lines_spec(s: Seq<char>) -> Seq<Seq<char>> {
    lines_acc(s, Seq::empty())
}

/// Splits a message into its lines.
pub fn split_lines(msg: &str) -> (r: Vec<String>)
    ensures
        r.deep_view() == split_lines_spec(msg@),
{
    let n = msg.unicode_len();
    let mut parts: Vec<String> = Vec::new();
    let mut cur = String::new();
    let mut i: usize = 0;
    proof {
        assert(msg@.skip(0) =~= msg@);
        assert(parts.deep_view() =~= Seq::<Seq<char>>::empty());
        assert(Seq::<Seq<char>>::empty() + lines_acc(msg@, Seq::empty()) =~= lines_acc(
            msg@,
            Seq::empty(),
        ));
    }
    while i < n
        invariant
            n == msg@.len(),
            0 <= i <= n,
            split_lines_spec(msg@) == parts.deep_view() + lines_acc(msg@.skip(i as int), cur@),
        decreases n - i,
    {
        proof {
            assert(msg@.skip(i as int).drop_first() =~= msg@.skip(i + 1));
            assert(msg@.skip(i as int)[0] == msg@[i as int]);
        }
        let c = msg.get_char(i);
        if c == '\n' {
            let m = cur.as_str().unicode_len();
            let stripped = if m > 0 && cur.as_str().get_char(m - 1) == '\r' {
                String::from_str(cur.as_str().substring_char(0, m - 1))
            } else {
                cur
            };
            let ghost old_parts = parts.deep_view();
            let ghost sv = stripped@;
            parts.push(stripped);
            cur = String::new();
            proof {
                assert(parts.deep_view() =~= old_parts.push(sv));
                assert(old_parts + (seq![sv] + lines_acc(msg@.skip(i + 1), Seq::empty()))
                    =~= parts.deep_view() + lines_acc(msg@.skip(i + 1), Seq::empty()));
            }
        } else {
            let ghost old_cur = cur@;
            cur.append(msg.substring_char(i, i + 1));
            proof {
                assert(cur@ =~= old_cur.push(msg@[i as int]));
            }
        }
        i = i + 1;
    }
    proof {
        assert(msg@.skip(n as int) =~= Seq::<char>::empty());
    }
    if !cur.as_str().is_empty() {
        let ghost old_parts = parts.deep_view();
        let ghost cv = cur@;
        parts.push(cur);
        proof {
            assert(parts.deep_view() =~= old_parts.push(cv));
            assert(old_parts + seq![cv] =~= old_parts.push(cv));
        }
    } else {
        proof {
            assert(parts.deep_view() + Seq::<Seq<char>>::empty() =~= parts.deep_view());
        }
    }
    parts
}

/// One message string from lines: joined with newlines, one trailing newline.
pub open spec fn render_spec(lines: Seq<Seq<char>>) -> Seq<char> {
    join_with(lines, "\n"@) + "\n"@
}

/// Renders lines back into one message string.
pub fn render_message(lines: &Vec<String>) -> (r: String)
    ensures
        r@ == render_spec(lines.deep_view()),
{
    let mut s = join_strings(lines, "\n");
    s.append("\n");
    s
}

/// The trailer lines of a message, in order.
pub open spec fn trailers_of_spec(lines: Seq<Seq<char>>) -> Seq<Seq<char>>
    decreases lines.len(),
{
    if lines.len() == 0 {
        Seq::empty()
    } else {
        let rest = trailers_of_spec(lines.drop_last());
        if is_trailer(lines.last()) {
            rest.push(lines.last())
        } else {
            rest
        }
    }
}

/// Collects the trailer lines of a message, in order.
pub fn trailers_of(lines: &Vec<String>) -> (r: Vec<String>)
    ensures
        r.deep_view() == trailers_of_spec(lines.deep_view()),
{
    let mut out: Vec<String> = Vec::new();
    let mut i: usize = 0;
    proof {
        assert(lines.deep_view().take(0) =~= Seq::<Seq<char>>::empty());
        assert(out.deep_view() =~= trailers_of_spec(lines.deep_view().take(0)));
    }
    while i < lines.len()
        invariant
            0 <= i <= lines@.len(),
            lines@.len() == lines.deep_view().len(),
            out.deep_view() == trailers_of_spec(lines.deep_view().take(i as int)),
        decreases lines@.len() - i,
    {
        proof {
            assert(lines.deep_view().take(i + 1).drop_last() =~= lines.deep_view().take(i as int));
            assert(lines.deep_view().take(i + 1).last() == lines.deep_view()[i as int]);
        }
        if is_trailer_line(lines[i].as_str()) {
            let ghost old_dv = out.deep_view();
            out.push(lines[i].clone());
            proof {
                assert(out.deep_view() =~= old_dv.push(lines.deep_view()[i as int]));
            }
        }
        i = i + 1;
    }
    proof {
        assert(lines.deep_view().take(lines@.len() as int) =~= lines.deep_view());
    }
    out
}

/// Whether adding trailers must first append a blank separator line: a
/// one-line message takes one, as does a message of more than two lines whose
/// last line is not itself a trailer.
pub open spec fn needs_separator(lines: Seq<Seq<char>>) -> bool {
    lines.len() == 1 || (lines.len() > 2 && !is_trailer(lines.last()))
}

/// The requested contact lines not already present verbatim among `existing`.
pub open spec fn fresh_lines(coauthors: Seq<Seq<char>>, existing: Seq<Seq<char>>) -> Seq<Seq<char>>
    decreases coauthors.len(),
{
    if coauthors.len() == 0 {
        Seq::empty()
    } else {
        let rest = fresh_lines(coauthors.drop_last(), existing);
        if existing.contains(coauthors.last()) {
            rest
        } else {
            rest.push(coauthors.last())
        }
    }
}

/// The message lines after an add: a blank separator where the layout rule
/// asks for one, then the not-yet-present contact lines.
pub open spec fn add_spec_lines(lines: Seq<Seq<char>>, coauthors: Seq<Seq<char>>) -> Seq<
    Seq<char>,
> {
    let fresh = fresh_lines(coauthors, trailers_of_spec(lines));
    let base = if needs_separator(lines) {
        lines.push(Seq::empty())
    } else {
        lines
    };
    base + fresh
}

/// The reported trailer set after an add: prior trailers first, then the
/// freshly added lines.
pub open spec fn add_spec_report(lines: Seq<Seq<char>>, coauthors: Seq<Seq<char>>) -> Seq<
    Seq<char>,
> {
    trailers_of_spec(lines) + fresh_lines(coauthors, trailers_of_spec(lines))
}

/// The result of one edit: the new message lines, and the trailer set the
/// user is shown.
pub struct EditOutcome {
    pub lines: Vec<String>,
    pub coauthors: Vec<String>,
}

/// Adds the resolved contact lines to a message: lines already present
/// verbatim are not repeated, and the reported set is every prior trailer
/// followed by every freshly added line.
pub fn add_coauthors(lines: &Vec<String>, coauthors: &Vec<String>) -> (r: EditOutcome)
    ensures
        r.lines.deep_view() == add_spec_lines(lines.deep_view(), coauthors.deep_view()),
        r.coauthors.deep_view() == add_spec_report(lines.deep_view(), coauthors.deep_view()),
{
    let existing = trailers_of(lines);
    let ghost existing_dv = existing.deep_view();
    let mut fresh: Vec<String> = Vec::new();
    let mut i: usize = 0;
    proof {
        assert(coauthors.deep_view().take(0) =~= Seq::<Seq<char>>::empty());
        assert(fresh.deep_view() =~= fresh_lines(coauthors.deep_view().take(0), existing_dv));
    }
    while i < coauthors.len()
        invariant
            0 <= i <= coauthors@.len(),
            coauthors@.len() == coauthors.deep_view().len(),
            existing_dv == trailers_of_spec(lines.deep_view()),
            existing.deep_view() == existing_dv,
            fresh.deep_view() == fresh_lines(coauthors.deep_view().take(i as int), existing_dv),
        decreases coauthors@.len() - i,
    {
        proof {
            assert(coauthors.deep_view().take(i + 1).drop_last() =~= coauthors.deep_view().take(
                i as int,
            ));
            assert(coauthors.deep_view().take(i + 1).last() == coauthors.deep_view()[i as int]);
        }
        if !contains_string(&existing, &coauthors[i]) {
            let ghost old_dv = fresh.deep_view();
            fresh.push(coauthors[i].clone());
            proof {
                assert(fresh.deep_view() =~= old_dv.push(coauthors.deep_view()[i as int]));
            }
        }
        i = i + 1;
    }
    proof {
        assert(coauthors.deep_view().take(coauthors@.len() as int) =~= coauthors.deep_view());
    }
    let mut new_lines: Vec<String> = Vec::new();
    let mut k: usize = 0;
    proof {
        assert(lines.deep_view().take(0) =~= Seq::<Seq<char>>::empty());
        assert(new_lines.deep_view() =~= lines.deep_view().take(0));
    }
    while k < lines.len()
        invariant
            0 <= k <= lines@.len(),
            lines@.len() == lines.deep_view().len(),
            new_lines.deep_view() == lines.deep_view().take(k as int),
        decreases lines@.len() - k,
    {
        let ghost old_dv = new_lines.deep_view();
        new_lines.push(lines[k].clone());
        proof {
            assert(new_lines.deep_view() =~= old_dv.push(lines.deep_view()[k as int]));
            assert(lines.deep_view().take(k + 1) =~= lines.deep_view().take(k as int).push(
                lines.deep_view()[k as int],
            ));
        }
        k = k + 1;
    }
    proof {
        assert(lines.deep_view().take(lines@.len() as int) =~= lines.deep_view());
    }
    let sep = if lines.len() == 1 {
        true
    } else if lines.len() > 2 {
        !is_trailer_line(lines[lines.len() - 1].as_str())
    } else {
        false
    };
    proof {
        if lines.deep_view().len() > 0 {
            assert(lines.deep_view().last() == lines.deep_view()[lines.deep_view().len() - 1]);
        }
        assert(sep == needs_separator(lines.deep_view()));
    }
    if sep {
        let ghost old_dv = new_lines.deep_view();
        new_lines.push(String::new());
        proof {
            assert(new_lines.deep_view() =~= old_dv.push(Seq::<char>::empty()));
        }
    }
    let ghost base_dv = new_lines.deep_view();
    let ghost fresh_dv = fresh.deep_view();
    let mut report = existing;
    let mut j: usize = 0;
    proof {
        assert(new_lines.deep_view() =~= base_dv + fresh_dv.take(0));
        assert(report.deep_view() =~= existing_dv + fresh_dv.take(0));
    }
    while j < fresh.len()
        invariant
            0 <= j <= fresh@.len(),
            fresh@.len() == fresh_dv.len(),
            fresh.deep_view() == fresh_dv,
            new_lines.deep_view() == base_dv + fresh_dv.take(j as int),
            report.deep_view() == existing_dv + fresh_dv.take(j as int),
        decreases fresh@.len() - j,
    {
        let ghost old_nl = new_lines.deep_view();
        let ghost old_rp = report.deep_view();
        new_lines.push(fresh[j].clone());
        report.push(fresh[j].clone());
        proof {
            assert(fresh_dv.take(j + 1) =~= fresh_dv.take(j as int).push(fresh_dv[j as int]));
            assert(new_lines.deep_view() =~= old_nl.push(fresh_dv[j as int]));
            assert(report.deep_view() =~= old_rp.push(fresh_dv[j as int]));
            assert(old_nl.push(fresh_dv[j as int]) =~= base_dv + fresh_dv.take(j + 1));
            assert(old_rp.push(fresh_dv[j as int]) =~= existing_dv + fresh_dv.take(j + 1));
        }
        j = j + 1;
    }
    proof {
        assert(fresh_dv.take(fresh@.len() as int) =~= fresh_dv);
    }
    EditOutcome { lines: new_lines, coauthors: report }
}

/// The message lines kept by a delete: with `remove_all`, every non-trailer
/// line; otherwise every line not verbatim among the resolved contact lines.
pub open spec fn delete_kept(
    lines: Seq<Seq<char>>,
    remove_all: bool,
    coauthors: Seq<Seq<char>>,
) -> Seq<Seq<char>>
    decreases lines.len(),
{
    if lines.len() == 0 {
        Seq::empty()
    } else {
        let rest = delete_kept(lines.drop_last(), remove_all, coauthors);
        let l = lines.last();
        let dropped = if remove_all {
            is_trailer(l)
        } else {
            coauthors.contains(l)
        };
        if dropped {
            rest
        } else {
            rest.push(l)
        }
    }
}

/// Removes trailer lines from a message: with `remove_all`, every trailer
/// line goes; otherwise exactly the lines verbatim among the resolved contact
/// lines go. The reported set is what remains.
pub fn delete_coauthors(lines: &Vec<String>, remove_all: bool, coauthors: &Vec<String>) -> (r:
    EditOutcome)
    ensures
        r.lines.deep_view() == delete_kept(lines.deep_view(), remove_all, coauthors.deep_view()),
        r.coauthors.deep_view() == trailers_of_spec(
            delete_kept(lines.deep_view(), remove_all, coauthors.deep_view()),
        ),
{
    let mut kept: Vec<String> = Vec::new();
    let mut i: usize = 0;
    proof {
        assert(lines.deep_view().take(0) =~= Seq::<Seq<char>>::empty());
        assert(kept.deep_view() =~= delete_kept(
            lines.deep_view().take(0),
            remove_all,
            coauthors.deep_view(),
        ));
    }
    while i < lines.len()
        invariant
            0 <= i <= lines@.len(),
            lines@.len() == lines.deep_view().len(),
            kept.deep_view() == delete_kept(
                lines.deep_view().take(i as int),
                remove_all,
                coauthors.deep_view(),
            ),
        decreases lines@.len() - i,
    {
        proof {
            assert(lines.deep_view().take(i + 1).drop_last() =~= lines.deep_view().take(i as int));
            assert(lines.deep_view().take(i + 1).last() == lines.deep_view()[i as int]);
        }
        let dropped = if remove_all {
            is_trailer_line(lines[i].as_str())
        } else {
            contains_string(coauthors, &lines[i])
        };
        if !dropped {
            let ghost old_dv = kept.deep_view();
            kept.push(lines[i].clone());
            proof {
                assert(kept.deep_view() =~= old_dv.push(lines.deep_view()[i as int]));
            }
        }
        i = i + 1;
    }
    proof {
        assert(lines.deep_view().take(lines@.len() as int) =~= lines.deep_view());
    }
    let remaining = trailers_of(&kept);
    EditOutcome { lines: kept, coauthors: remaining }
}

} // verus!
