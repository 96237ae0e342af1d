//! Contact profiles: normalized name/email data derived from a commit author
//! signature or a trailer line, and the alias-matching predicate over them.

use crate::text::{
    char_is_space, count_char, find_single, first_idx, is_unicode_space, lower_of, lowercase, trim,
    trim_end_matches_char, trim_end_matches_spec, trim_spec,
};
use vstd::prelude::*;
use vstd::string::StrSliceExecFns;
use vstd::string::StringExecFns;

verus! {

/// The mathematical content of a match profile: all parts lowercased.
pub struct ContactProfile {
    pub name: Seq<char>,
    pub name_parts: Seq<Seq<char>>,
    pub email: Seq<char>,
    pub email_local: Seq<char>,
}

impl ContactProfile {
    /// An alias (already lowercased) matches a profile iff it equals the full
    /// name, the full email, the email local part, or one of the name tokens.
    pub open spec fn spec_matches(&self, alias: Seq<char>) -> bool {
        ||| self.name_parts.contains(alias)
        ||| self.name == alias
        ||| self.email_local == alias
        ||| self.email == alias
    }
}

/// A match profile derived from a raw name and email.
pub struct CoauthorParts {
    pub name: String,
    pub name_parts: Vec<String>,
    pub email: String,
    pub email_local: String,
}

impl View for CoauthorParts {
    type V = ContactProfile;

    open spec fn view(&self) -> ContactProfile {
        ContactProfile {
            name: self.name@,
            name_parts: self.name_parts.deep_view(),
            email: self.email@,
            email_local: self.email_local@,
        }
    }
}

/// Splitting on whitespace, carrying the token under construction.
pub open spec fn ws_split_acc(s: Seq<char>, cur: Seq<char>) -> Seq<Seq<char>>
    decreases s.len(),
{
    if s.len() == 0 {
        if cur.len() == 0 {
            Seq::empty()
        } else {
            seq![cur]
        }
    } else if is_unicode_space(s[0]) {
        if cur.len() == 0 {
            ws_split_acc(s.drop_first(), Seq::empty())
        } else {
            seq![cur] + ws_split_acc(s.drop_first(), Seq::empty())
        }
    } else {
        ws_split_acc(s.drop_first(), cur.push(s[0]))
    }
}

/// The maximal whitespace-separated tokens of `s`, in order.
pub open spec fn ws_split(s: Seq<char>) -> Seq<Seq<char>> {
    ws_split_acc(s, Seq::empty())
}

/// Splits `s` into its whitespace-separated tokens.
pub fn split_whitespace_parts(s: &str) -> (r: Vec<String>)
    ensures
        r.deep_view() == ws_split(s@),
{
    let n = s.unicode_len();
    let mut parts: Vec<String> = Vec::new();
    let mut cur = String::new();
    let mut i: usize = 0;
    proof {
        assert(s@.skip(0) =~= s@);
        assert(parts.deep_view() =~= Seq::<Seq<char>>::empty());
        assert(Seq::<Seq<char>>::empty() + ws_split_acc(s@, Seq::empty()) =~= ws_split_acc(
            s@,
            Seq::empty(),
        ));
    }
    while i < n
        invariant
            n == s@.len(),
            0 <= i <= n,
            ws_split(s@) == parts.deep_view() + ws_split_acc(s@.skip(i as int), cur@),
        decreases n - i,
    {
        proof {
            assert(s@.skip(i as int).drop_first() =~= s@.skip(i + 1));
            assert(s@.skip(i as int)[0] == s@[i as int]);
        }
        let c = s.get_char(i);
        if char_is_space(c) {
            if !cur.as_str().is_empty() {
                let ghost old_parts = parts.deep_view();
                let ghost old_cur = cur@;
                parts.push(cur);
                cur = String::new();
                proof {
                    assert(parts.deep_view() =~= old_parts.push(old_cur));
                    assert(old_parts + (seq![old_cur] + ws_split_acc(
                        s@.skip(i + 1),
                        Seq::empty(),
                    )) =~= parts.deep_view() + ws_split_acc(s@.skip(i + 1), Seq::empty()));
                }
            } else {
                proof {
                    assert(cur@ =~= Seq::<char>::empty());
                }
            }
        } else {
            let ghost old_cur = cur@;
            cur.append(s.substring_char(i, i + 1));
            proof {
                assert(cur@ =~= old_cur.push(s@[i as int]));
            }
        }
        i = i + 1;
    }
    proof {
        assert(s@.skip(n as int) =~= Seq::<char>::empty());
    }
    if !cur.as_str().is_empty() {
        let ghost old_parts = parts.deep_view();
        let ghost old_cur = cur@;
        parts.push(cur);
        proof {
            assert(parts.deep_view() =~= old_parts.push(old_cur));
            assert(old_parts + seq![old_cur] =~= old_parts.push(old_cur));
        }
    } else {
        proof {
            assert(parts.deep_view() + Seq::<Seq<char>>::empty() =~= parts.deep_view());
        }
    }
    parts
}

/// The profile derived from a raw name and email, or nothing when the email
/// does not contain exactly one `@`.
pub open spec fn spec_profile(name: Seq<char>, email: Seq<char>) -> Option<ContactProfile> {
    let ln = lower_of(name);
    let le = lower_of(email);
    if count_char(le, '@') == 1 {
        Some(
            ContactProfile {
                name: ln,
                name_parts: ws_split(ln),
                email: le,
                email_local: le.take(first_idx(le, '@')),
            },
        )
    } else {
        None
    }
}

/// Builds a match profile from a raw name and email, lowercasing every part.
/// Fails exactly when the email does not contain exactly one `@`.
pub fn parse_name_and_email(name: &str, email: &str) -> (r: Option<CoauthorParts>)
    ensures
        match r {
            Some(p) => spec_profile(name@, email@) == Some(p@),
            None => spec_profile(name@, email@) is None,
        },
{
    let lname = lowercase(name);
    let lemail = lowercase(email);
    match find_single(lemail.as_str(), '@') {
        Some(i) => {
            let local_str = lemail.as_str().substring_char(0, i);
            let email_local = String::from_str(local_str);
            let name_parts = split_whitespace_parts(lname.as_str());
            let p = CoauthorParts { name: lname, name_parts, email: lemail, email_local };
            Some(p)
        },
        None => None,
    }
}

/// The profile parsed from the contact portion of a trailer line: the text
/// before the single `<` is the name (trimmed), the rest with trailing `>`
/// removed is the email.
pub open spec fn spec_parse_coauthor(input: Seq<char>) -> Option<ContactProfile> {
    if count_char(input, '<') == 1 {
        let i = first_idx(input, '<');
        spec_profile(trim_spec(input.take(i)), trim_end_matches_spec(input.skip(i + 1), '>'))
    } else {
        None
    }
}

/// Parses the contact portion of a trailer line into a match profile.
pub fn parse_coauthor(input: &str) -> (r: Option<CoauthorParts>)
    ensures
        match r {
            Some(p) => spec_parse_coauthor(input@) == Some(p@),
            None => spec_parse_coauthor(input@) is None,
        },
{
    match find_single(input, '<') {
        Some(i) => {
            let n = input.unicode_len();
            let name = trim(input.substring_char(0, i));
            let after = input.substring_char(i + 1, n);
            let email = trim_end_matches_char(after, '>');
            parse_name_and_email(name, email)
        },
        None => None,
    }
}

impl CoauthorParts {
    /// Whether the (lowercased) alias matches this profile.
    pub fn matches(&self, alias: &String) -> (r: bool)
        ensures
            r == self@.spec_matches(alias@),
    {
        crate::text::contains_string(&self.name_parts, alias) || crate::text::str_eq(
            self.name.as_str(),
            alias.as_str(),
        ) || crate::text::str_eq(self.email_local.as_str(), alias.as_str())
            || crate::text::str_eq(self.email.as_str(), alias.as_str())
    }
}

} // verus!
