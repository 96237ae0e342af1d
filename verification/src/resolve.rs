//! Alias resolution: a direct alias table consulted first, then commit
//! history scanned newest-first for matching authors or trailer lines.
//!
//! The state of one resolution is an ordered list of pairs: each deduplicated,
//! lowercased input alias beside its contact line once one is found. Stages
//! only fill in missing contact lines, so resolution is all-or-nothing: the
//! finish step either returns every line, in alias order, or an error naming
//! every alias still without one.

use crate::contact::{
    parse_coauthor, parse_name_and_email, spec_parse_coauthor, spec_profile, CoauthorParts,
    ContactProfile,
};
use crate::text::{contains_string, join_strings, lower_of, lowercase, starts_with};
use crate::{is_trailer, is_trailer_line, trailer_prefix};
use vstd::prelude::*;
use vstd::string::StrSliceExecFns;
use vstd::string::StringExecFns;

verus! {

/// The ghost state of one resolution: each alias beside its contact line, if
/// one has been found yet.
pub type PairsView = Seq<(Seq<char>, Option<Seq<char>>)>;

/// Resolution state: deduplicated lowercased aliases in first-occurrence
/// order, each paired with its contact line once resolved.
pub struct Resolution {
    pub pairs: Vec<(String, Option<String>)>,
}

impl View for Resolution {
    type V = PairsView;

    open spec fn view(&self) -> PairsView {
        self.pairs.deep_view()
    }
}

/// The aliases not yet resolved, in order.
pub open spec fn unresolved(pairs: PairsView) -> Seq<Seq<char>>
    decreases pairs.len(),
{
    if pairs.len() == 0 {
        Seq::empty()
    } else {
        let rest = unresolved(pairs.drop_last());
        if pairs.last().1 is None {
            rest.push(pairs.last().0)
        } else {
            rest
        }
    }
}

/// The aliases in first-occurrence order, duplicates dropped; `acc` holds the
/// ones already seen.
pub open spec fn dedup_acc(s: Seq<Seq<char>>, acc: Seq<Seq<char>>) -> Seq<Seq<char>>
    decreases s.len(),
{
    if s.len() == 0 {
        acc
    } else if acc.contains(s[0]) {
        dedup_acc(s.drop_first(), acc)
    } else {
        dedup_acc(s.drop_first(), acc.push(s[0]))
    }
}

/// The elements of `s` in first-occurrence order, duplicates dropped.
pub open spec fn dedup(s: Seq<Seq<char>>) -> Seq<Seq<char>> {
    dedup_acc(s, Seq::empty())
}

/// Drops every element that occurred earlier in the list, keeping
/// first-occurrence order.
pub fn without_duplicates(vec: Vec<String>) -> (r: Vec<String>)
    ensures
        r.deep_view() == dedup(vec.deep_view()),
{
    let mut result: Vec<String> = Vec::new();
    let mut i: usize = 0;
    proof {
        assert(vec.deep_view().skip(0) =~= vec.deep_view());
        assert(result.deep_view() =~= Seq::<Seq<char>>::empty());
    }
    while i < vec.len()
        invariant
            0 <= i <= vec@.len(),
            dedup(vec.deep_view()) == dedup_acc(vec.deep_view().skip(i as int), result.deep_view()),
        decreases vec@.len() - i,
    {
        proof {
            assert(vec.deep_view().skip(i as int).drop_first() =~= vec.deep_view().skip(i + 1));
            assert(vec.deep_view().skip(i as int)[0] == vec.deep_view()[i as int]);
        }
        if !contains_string(&result, &vec[i]) {
            let ghost old_dv = result.deep_view();
            result.push(vec[i].clone());
            proof {
                assert(result.deep_view() =~= old_dv.push(vec.deep_view()[i as int]));
            }
        }
        i = i + 1;
    }
    proof {
        assert(vec.deep_view().skip(vec@.len() as int) =~= Seq::<Seq<char>>::empty());
    }
    result
}

/// A table mapping aliases to preformatted contact strings. Lookups take the
/// first entry whose key equals the alias, so an earlier entry overrides a
/// later one.
pub struct AliasTable {
    pub entries: Vec<(String, String)>,
}

impl View for AliasTable {
    type V = Seq<(Seq<char>, Seq<char>)>;

    open spec fn view(&self) -> Seq<(Seq<char>, Seq<char>)> {
        self.entries.deep_view()
    }
}

/// The value of the first entry whose key is `key`.
pub open spec fn assoc_lookup(entries: Seq<(Seq<char>, Seq<char>)>, key: Seq<char>) -> Option<
    Seq<char>,
>
    decreases entries.len(),
{
    if entries.len() == 0 {
        None
    } else if entries[0].0 == key {
        Some(entries[0].1)
    } else {
        assoc_lookup(entries.drop_first(), key)
    }
}

impl AliasTable {
    /// The contact string configured for `alias`, if any.
    pub fn lookup(&self, alias: &String) -> (r: Option<String>)
        ensures
            match r {
                Some(v) => assoc_lookup(self@, alias@) == Some(v@),
                None => assoc_lookup(self@, alias@) is None,
            },
    {
        let mut i: usize = 0;
        proof {
            assert(self@.skip(0) =~= self@);
        }
        while i < self.entries.len()
            invariant
                0 <= i <= self@.len(),
                self@.len() == self.entries@.len(),
                assoc_lookup(self@, alias@) == assoc_lookup(self@.skip(i as int), alias@),
            decreases self@.len() - i,
        {
            proof {
                assert(self@.skip(i as int).drop_first() =~= self@.skip(i + 1));
                assert(self@.skip(i as int)[0] == self@[i as int]);
            }
            if crate::text::str_eq(self.entries[i].0.as_str(), alias.as_str()) {
                return Some(self.entries[i].1.clone());
            }
            i = i + 1;
        }
        proof {
            assert(self@.skip(self@.len() as int) =~= Seq::<(Seq<char>, Seq<char>)>::empty());
        }
        None
    }
}

/// The table built from raw configuration entries: a key of the form
/// `coauthor.<alias>` contributes `<alias>`; any other key is ignored.
pub open spec fn table_from_entries(entries: Seq<(Seq<char>, Seq<char>)>) -> Seq<
    (Seq<char>, Seq<char>),
>
    decreases entries.len(),
{
    if entries.len() == 0 {
        Seq::empty()
    } else {
        let rest = table_from_entries(entries.drop_last());
        let e = entries.last();
        if starts_with(e.0, "coauthor."@) {
            rest.push((e.0.skip("coauthor."@.len() as int), e.1))
        } else {
            rest
        }
    }
}

/// Builds an alias table from raw configuration entries, keeping those whose
/// key carries the `coauthor.` namespace and stripping that namespace.
pub fn alias_table_from_entries(entries: &Vec<(String, String)>) -> (t: AliasTable)
    ensures
        t@ == table_from_entries(entries.deep_view()),
{
    let plen = "coauthor.".unicode_len();
    let mut kept: Vec<(String, String)> = Vec::new();
    let mut i: usize = 0;
    proof {
        assert(entries.deep_view().take(0) =~= Seq::<(Seq<char>, Seq<char>)>::empty());
        assert(kept.deep_view() =~= Seq::<(Seq<char>, Seq<char>)>::empty());
    }
    while i < entries.len()
        invariant
            0 <= i <= entries@.len(),
            plen == "coauthor."@.len(),
            kept.deep_view() == table_from_entries(entries.deep_view().take(i as int)),
        decreases entries@.len() - i,
    {
        proof {
            assert(entries.deep_view().take(i + 1).drop_last() =~= entries.deep_view().take(
                i as int,
            ));
            assert(entries.deep_view().take(i + 1).last() == entries.deep_view()[i as int]);
        }
        let key: &String = &entries[i].0;
        let ks: &str = key.as_str();
        if crate::text::has_prefix(ks, "coauthor.") {
            let n = ks.unicode_len();
            let alias = String::from_str(ks.substring_char(plen, n));
            let ghost old_dv = kept.deep_view();
            kept.push((alias, entries[i].1.clone()));
            proof {
                assert(kept.deep_view() =~= old_dv.push(
                    (entries.deep_view()[i as int].0.skip("coauthor."@.len() as int),
                    entries.deep_view()[i as int].1),
                ));
            }
        }
        i = i + 1;
    }
    proof {
        assert(entries.deep_view().take(entries@.len() as int) =~= entries.deep_view());
    }
    AliasTable { entries: kept }
}

/// One pair after an offer of `rec` from a source whose profile is `p`: a
/// still-unresolved alias that matches takes `rec`; any other pair is kept.
pub open spec fn pair_after_match(
    e: (Seq<char>, Option<Seq<char>>),
    p: ContactProfile,
    rec: Seq<char>,
) -> (Seq<char>, Option<Seq<char>>) {
    if e.1 is None && p.spec_matches(e.0) {
        (e.0, Some(rec))
    } else {
        e
    }
}

/// Resolves every still-unresolved alias that matches profile `p` to `rec`.
pub open spec fn apply_match(pairs: PairsView, p: ContactProfile, rec: Seq<char>) -> PairsView {
    pairs.map_values(|e: (Seq<char>, Option<Seq<char>>)| pair_after_match(e, p, rec))
}

fn apply_match_exec(pairs: &mut Vec<(String, Option<String>)>, parts: &CoauthorParts, rec: &String)
    ensures
        final(pairs).deep_view() == apply_match(old(pairs).deep_view(), parts@, rec@),
{
    let n = pairs.len();
    let mut i: usize = 0;
    while i < n
        invariant
            n == pairs@.len(),
            pairs@.len() == old(pairs)@.len(),
            0 <= i <= n,
            forall|j: int|
                0 <= j < i ==> pairs.deep_view()[j] == pair_after_match(
                    old(pairs).deep_view()[j],
                    parts@,
                    rec@,
                ),
            forall|j: int| i <= j < n ==> pairs@[j] == old(pairs)@[j],
        decreases n - i,
    {
        let ghost prev_seq = pairs@;
        let ghost prev_dv = pairs.deep_view();
        let hit = pairs[i].1.is_none() && parts.matches(&pairs[i].0);
        if hit {
            let alias = pairs[i].0.clone();
            pairs[i] = (alias, Some(rec.clone()));
        }
        proof {
            assert forall|j: int|
                0 <= j <= i implies pairs.deep_view()[j] == pair_after_match(
                old(pairs).deep_view()[j],
                parts@,
                rec@,
            ) by {
                if j < i {
                    assert(pairs@[j] == prev_seq[j]);
                    assert(pairs.deep_view()[j] == prev_dv[j]);
                } else if hit {
                    assert(old(pairs).deep_view()[i as int].1 is None);
                    assert(parts@.spec_matches(old(pairs).deep_view()[i as int].0));
                    assert(pairs@[i as int].0 == prev_seq[i as int].0);
                    assert(pairs.deep_view()[i as int] == (
                        old(pairs).deep_view()[i as int].0,
                        Some(rec@),
                    ));
                } else {
                    assert(pairs@[j] == prev_seq[j]);
                    assert(pairs.deep_view()[j] == prev_dv[j]);
                    assert(!(old(pairs).deep_view()[j].1 is None && parts@.spec_matches(
                        old(pairs).deep_view()[j].0,
                    )));
                }
            }
        }
        i = i + 1;
    }
    proof {
        assert(pairs.deep_view() =~= apply_match(old(pairs).deep_view(), parts@, rec@));
    }
}

/// The contact line recorded when a commit author matches: built from the
/// original-cased name and email.
pub open spec fn author_record(name: Seq<char>, email: Seq<char>) -> Seq<char> {
    "Co-authored-by: "@ + name + " <"@ + email + ">"@
}

fn make_author_record(name: &str, email: &str) -> (r: String)
    ensures
        r@ == author_record(name@, email@),
{
    let mut s = String::from_str("Co-authored-by: ");
    s.append(name);
    s.append(" <");
    s.append(email);
    s.append(">");
    proof {
        assert(s@ =~= author_record(name@, email@));
    }
    s
}

/// The state after matching against a commit's author signature.
pub open spec fn scan_author(pairs: PairsView, name: Seq<char>, email: Seq<char>) -> PairsView {
    match spec_profile(name, email) {
        Some(p) => apply_match(pairs, p, author_record(name, email)),
        None => pairs,
    }
}

/// The state after matching against one message line: only a parseable
/// trailer line offers anything, and it offers its own literal text.
pub open spec fn scan_trailer_line(pairs: PairsView, line: Seq<char>) -> PairsView {
    if is_trailer(line) {
        match spec_parse_coauthor(line.skip(trailer_prefix().len() as int)) {
            Some(p) => apply_match(pairs, p, line),
            None => pairs,
        }
    } else {
        pairs
    }
}

/// The state after matching against every message line in order.
pub open spec fn scan_lines(pairs: PairsView, lines: Seq<Seq<char>>) -> PairsView
    decreases lines.len(),
{
    if lines.len() == 0 {
        pairs
    } else {
        scan_lines(scan_trailer_line(pairs, lines[0]), lines.drop_first())
    }
}

/// The state after one commit visit: author signature first, then every
/// trailer line of the message.
pub open spec fn scan_commit_spec(
    pairs: PairsView,
    name: Seq<char>,
    email: Seq<char>,
    lines: Seq<Seq<char>>,
) -> PairsView {
    scan_lines(scan_author(pairs, name, email), lines)
}

impl Resolution {
    /// Whether every alias has a contact line.
    pub fn is_complete(&self) -> (r: bool)
        ensures
            r == (unresolved(self@).len() == 0),
    {
        let mut i: usize = 0;
        proof {
            assert(self@.take(0) =~= Seq::<(Seq<char>, Option<Seq<char>>)>::empty());
        }
        while i < self.pairs.len()
            invariant
                0 <= i <= self.pairs@.len(),
                self.pairs@.len() == self@.len(),
                unresolved(self@.take(i as int)).len() == 0,
            decreases self.pairs@.len() - i,
        {
            if self.pairs[i].1.is_none() {
                proof {
                    assert(self@[i as int].1 is None);
                    lemma_unresolved_witness(self@, i as int);
                }
                return false;
            }
            proof {
                assert(self@.take(i + 1).drop_last() =~= self@.take(i as int));
                assert(self@.take(i + 1).last() == self@[i as int]);
                assert(self@[i as int].1 is Some);
            }
            i = i + 1;
        }
        proof {
            assert(self@.take(self@.len() as int) =~= self@);
        }
        true
    }

    /// Visits one commit: resolves every still-unresolved alias that matches
    /// the author signature or a trailer line of the message, most recent
    /// source first.
    pub fn scan_commit(&mut self, author_name: &str, author_email: &str, lines: &Vec<String>)
        ensures
            final(self)@ == scan_commit_spec(
                old(self)@,
                author_name@,
                author_email@,
                lines.deep_view(),
            ),
    {
        match parse_name_and_email(author_name, author_email) {
            Some(parts) => {
                let rec = make_author_record(author_name, author_email);
                apply_match_exec(&mut self.pairs, &parts, &rec);
            },
            None => {},
        }
        let ghost r1 = self@;
        proof {
            assert(r1 == scan_author(old(self)@, author_name@, author_email@));
            assert(lines.deep_view().skip(0) =~= lines.deep_view());
        }
        let mut i: usize = 0;
        while i < lines.len()
            invariant
                0 <= i <= lines@.len(),
                lines@.len() == lines.deep_view().len(),
                scan_lines(r1, lines.deep_view()) == scan_lines(
                    self@,
                    lines.deep_view().skip(i as int),
                ),
            decreases lines@.len() - i,
        {
            proof {
                assert(lines.deep_view().skip(i as int).drop_first() =~= lines.deep_view().skip(
                    i + 1,
                ));
                assert(lines.deep_view().skip(i as int)[0] == lines.deep_view()[i as int]);
            }
            let line: &String = &lines[i];
            let ls: &str = line.as_str();
            if is_trailer_line(ls) {
                let plen = "Co-authored-by: ".unicode_len();
                let n = ls.unicode_len();
                let content = ls.substring_char(plen, n);
                match parse_coauthor(content) {
                    Some(parts) => {
                        apply_match_exec(&mut self.pairs, &parts, line);
                    },
                    None => {},
                }
            }
            i = i + 1;
        }
        proof {
            assert(lines.deep_view().skip(lines@.len() as int) =~= Seq::<Seq<char>>::empty());
        }
    }
}

proof fn lemma_unresolved_witness(pairs: PairsView, i: int)
    requires
        0 <= i < pairs.len(),
        pairs[i].1 is None,
    ensures
        unresolved(pairs).len() > 0,
    decreases pairs.len(),
{
    if i < pairs.len() - 1 {
        assert(pairs.drop_last()[i] == pairs[i]);
        lemma_unresolved_witness(pairs.drop_last(), i);
    }
}

/// The pairing of each alias with its table line, where one exists: a table
/// hit contributes the configured contact string behind the trailer prefix.
pub open spec fn table_pairs(
    aliases: Seq<Seq<char>>,
    table: Seq<(Seq<char>, Seq<char>)>,
) -> PairsView
    decreases aliases.len(),
{
    if aliases.len() == 0 {
        Seq::empty()
    } else {
        table_pairs(aliases.drop_last(), table).push(
            (aliases.last(), match assoc_lookup(table, aliases.last()) {
                Some(v) => Some(trailer_prefix() + v),
                None => None,
            }),
        )
    }
}

/// The state after the table stage on raw aliases: lowercased, deduplicated
/// keeping first-occurrence order, then looked up in the table.
pub open spec fn start_spec(raw: Seq<Seq<char>>, table: Seq<(Seq<char>, Seq<char>)>) -> PairsView {
    table_pairs(dedup(raw.map_values(|a: Seq<char>| lower_of(a))), table)
}

/// Begins a resolution: lowercases and deduplicates the raw aliases, then
/// resolves what the alias table covers.
pub fn resolve_start(raw_aliases: &Vec<String>, table: &AliasTable) -> (res: Resolution)
    ensures
        res@ == start_spec(raw_aliases.deep_view(), table@),
{
    let ghost lowered_spec = raw_aliases.deep_view().map_values(|a: Seq<char>| lower_of(a));
    let mut lowered: Vec<String> = Vec::new();
    let mut i: usize = 0;
    proof {
        assert(lowered.deep_view() =~= lowered_spec.take(0));
    }
    while i < raw_aliases.len()
        invariant
            0 <= i <= raw_aliases@.len(),
            lowered_spec == raw_aliases.deep_view().map_values(|a: Seq<char>| lower_of(a)),
            lowered_spec.len() == raw_aliases@.len(),
            lowered.deep_view() == lowered_spec.take(i as int),
        decreases raw_aliases@.len() - i,
    {
        let ghost old_dv = lowered.deep_view();
        lowered.push(lowercase(raw_aliases[i].as_str()));
        proof {
            assert(lowered.deep_view() =~= old_dv.push(lower_of(raw_aliases.deep_view()[i as int])));
            assert(lowered_spec.take(i + 1) =~= lowered_spec.take(i as int).push(
                lowered_spec[i as int],
            ));
        }
        i = i + 1;
    }
    proof {
        assert(lowered_spec.take(raw_aliases@.len() as int) =~= lowered_spec);
    }
    let deduped = without_duplicates(lowered);
    let mut pairs: Vec<(String, Option<String>)> = Vec::new();
    let mut k: usize = 0;
    proof {
        assert(pairs.deep_view() =~= table_pairs(deduped.deep_view().take(0), table@));
    }
    while k < deduped.len()
        invariant
            0 <= k <= deduped@.len(),
            deduped@.len() == deduped.deep_view().len(),
            pairs.deep_view() == table_pairs(deduped.deep_view().take(k as int), table@),
        decreases deduped@.len() - k,
    {
        proof {
            assert(deduped.deep_view().take(k + 1).drop_last() =~= deduped.deep_view().take(
                k as int,
            ));
            assert(deduped.deep_view().take(k + 1).last() == deduped.deep_view()[k as int]);
        }
        let ghost old_dv = pairs.deep_view();
        let entry = match table.lookup(&deduped[k]) {
            Some(v) => {
                let mut line = String::from_str("Co-authored-by: ");
                line.append(v.as_str());
                (deduped[k].clone(), Some(line))
            },
            None => (deduped[k].clone(), None),
        };
        pairs.push(entry);
        proof {
            assert(pairs.deep_view() =~= old_dv.push(
                (deduped.deep_view()[k as int], match assoc_lookup(
                    table@,
                    deduped.deep_view()[k as int],
                ) {
                    Some(v) => Some(trailer_prefix() + v),
                    None => None,
                }),
            ));
        }
        k = k + 1;
    }
    proof {
        assert(deduped.deep_view().take(deduped@.len() as int) =~= deduped.deep_view());
    }
    Resolution { pairs }
}

/// The contact lines found so far, in alias order.
pub open spec fn resolved_lines(pairs: PairsView) -> Seq<Seq<char>>
    decreases pairs.len(),
{
    if pairs.len() == 0 {
        Seq::empty()
    } else {
        let rest = resolved_lines(pairs.drop_last());
        match pairs.last().1 {
            Some(v) => rest.push(v),
            None => rest,
        }
    }
}

/// The failure wording: the single unresolved alias, or the comma-joined list.
pub open spec fn not_found_message(rem: Seq<Seq<char>>) -> Seq<char> {
    if rem.len() == 1 {
        "coauthor not found: "@ + rem[0]
    } else {
        "coauthors not found: "@ + crate::text::join_with(rem, ","@)
    }
}

/// The outcome of a resolution state: every contact line, in alias order, or
/// an error naming every alias still without one.
pub open spec fn finish_spec(pairs: PairsView) -> Result<Seq<Seq<char>>, Seq<char>> {
    if unresolved(pairs).len() == 0 {
        Ok(resolved_lines(pairs))
    } else {
        Err(not_found_message(unresolved(pairs)))
    }
}

impl Resolution {
    /// Completes a resolution: all contact lines in alias order, or an error
    /// naming every unresolved alias.
    pub fn finish(&self) -> (r: Result<Vec<String>, String>)
        ensures
            match r {
                Ok(lines) => finish_spec(self@) == Ok::<Seq<Seq<char>>, Seq<char>>(
                    lines.deep_view(),
                ),
                Err(msg) => finish_spec(self@) == Err::<Seq<Seq<char>>, Seq<char>>(msg@),
            },
    {
        let mut lines: Vec<String> = Vec::new();
        let mut missing: Vec<String> = Vec::new();
        let mut i: usize = 0;
        proof {
            assert(self@.take(0) =~= Seq::<(Seq<char>, Option<Seq<char>>)>::empty());
            assert(lines.deep_view() =~= resolved_lines(self@.take(0)));
            assert(missing.deep_view() =~= unresolved(self@.take(0)));
        }
        while i < self.pairs.len()
            invariant
                0 <= i <= self.pairs@.len(),
                self.pairs@.len() == self@.len(),
                lines.deep_view() == resolved_lines(self@.take(i as int)),
                missing.deep_view() == unresolved(self@.take(i as int)),
            decreases self.pairs@.len() - i,
        {
            proof {
                assert(self@.take(i + 1).drop_last() =~= self@.take(i as int));
                assert(self@.take(i + 1).last() == self@[i as int]);
            }
            match &self.pairs[i].1 {
                Some(v) => {
                    let ghost old_dv = lines.deep_view();
                    lines.push(v.clone());
                    proof {
                        assert(self@[i as int].1 == Some(v@));
                        assert(lines.deep_view() =~= old_dv.push(v@));
                    }
                },
                None => {
                    let ghost old_dv = missing.deep_view();
                    missing.push(self.pairs[i].0.clone());
                    proof {
                        assert(self@[i as int].1 is None);
                        assert(missing.deep_view() =~= old_dv.push(self@[i as int].0));
                    }
                },
            }
            i = i + 1;
        }
        proof {
            assert(self@.take(self@.len() as int) =~= self@);
        }
        if missing.len() == 0 {
            proof {
                assert(missing.deep_view().len() == 0);
            }
            Ok(lines)
        } else if missing.len() == 1 {
            let mut m = String::from_str("coauthor not found: ");
            m.append(missing[0].as_str());
            proof {
                assert(missing.deep_view()[0] == missing@[0]@);
            }
            Err(m)
        } else {
            let joined = crate::text::join_strings(&missing, ",");
            let mut m = String::from_str("coauthors not found: ");
            m.append(joined.as_str());
            Err(m)
        }
    }
}

/// One commit as the history scan sees it: the author signature and the
/// message lines.
pub struct Commit {
    pub author_name: String,
    pub author_email: String,
    pub lines: Vec<String>,
}

/// The ghost content of a commit.
pub struct CommitView {
    pub author_name: Seq<char>,
    pub author_email: Seq<char>,
    pub lines: Seq<Seq<char>>,
}

impl View for Commit {
    type V = CommitView;

    open spec fn view(&self) -> CommitView {
        CommitView {
            author_name: self.author_name@,
            author_email: self.author_email@,
            lines: self.lines.deep_view(),
        }
    }
}

impl DeepView for Commit {
    type V = CommitView;

    open spec fn deep_view(&self) -> CommitView {
        self.view()
    }
}

/// The state after walking `commits` newest-first, stopping as soon as every
/// alias is resolved.
pub open spec fn scan_history(pairs: PairsView, commits: Seq<CommitView>) -> PairsView
    decreases commits.len(),
{
    if commits.len() == 0 || unresolved(pairs).len() == 0 {
        pairs
    } else {
        scan_history(
            scan_commit_spec(
                pairs,
                commits[0].author_name,
                commits[0].author_email,
                commits[0].lines,
            ),
            commits.drop_first(),
        )
    }
}

/// The whole resolution: table stage on the lowercased, deduplicated aliases,
/// then the history walk, then all-or-nothing completion.
pub open spec fn spec_resolve(
    raw: Seq<Seq<char>>,
    table: Seq<(Seq<char>, Seq<char>)>,
    commits: Seq<CommitView>,
) -> Result<Seq<Seq<char>>, Seq<char>> {
    finish_spec(scan_history(start_spec(raw, table), commits))
}

/// Resolves raw aliases against the table and an in-memory history, walking
/// commits newest-first and stopping early once every alias is resolved.
pub fn resolve_aliases(raw_aliases: &Vec<String>, table: &AliasTable, history: &Vec<Commit>) -> (r:
    Result<Vec<String>, String>)
    ensures
        match r {
            Ok(lines) => spec_resolve(raw_aliases.deep_view(), table@, history.deep_view())
                == Ok::<Seq<Seq<char>>, Seq<char>>(lines.deep_view()),
            Err(msg) => spec_resolve(raw_aliases.deep_view(), table@, history.deep_view())
                == Err::<Seq<Seq<char>>, Seq<char>>(msg@),
        },
{
    let mut res = resolve_start(raw_aliases, table);
    let ghost full = scan_history(start_spec(raw_aliases.deep_view(), table@), history.deep_view());
    let mut i: usize = 0;
    proof {
        assert(history.deep_view().skip(0) =~= history.deep_view());
    }
    while i < history.len()
        invariant_except_break
            0 <= i <= history@.len(),
            history@.len() == history.deep_view().len(),
            full == scan_history(res@, history.deep_view().skip(i as int)),
        ensures
            full == res@,
        decreases history@.len() - i,
    {
        if res.is_complete() {
            break ;
        }
        proof {
            assert(history.deep_view().skip(i as int).drop_first() =~= history.deep_view().skip(
                i + 1,
            ));
            assert(history.deep_view().skip(i as int)[0] == history.deep_view()[i as int]);
        }
        let c: &Commit = &history[i];
        res.scan_commit(c.author_name.as_str(), c.author_email.as_str(), &c.lines);
        i = i + 1;
    }
    proof {
        assert(history.deep_view().skip(history@.len() as int) =~= Seq::<CommitView>::empty());
    }
    res.finish()
}

} // verus!
