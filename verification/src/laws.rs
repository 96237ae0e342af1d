//! The laws of the library: properties that hold of whole operations, proved
//! from the contracts of the modules they relate.

use crate::contact::{spec_parse_coauthor, spec_profile};
use crate::resolve::{
    apply_match, assoc_lookup, dedup_acc, scan_author, scan_commit_spec, scan_history, scan_lines,
    scan_trailer_line, spec_resolve, start_spec, table_pairs, CommitView, PairsView,
};
use crate::text::lower_of;
use crate::trailer::{
    add_spec_lines, add_spec_report, delete_kept, fresh_lines, needs_separator, trailers_of_spec,
};
use crate::{is_trailer, trailer_prefix};
use vstd::prelude::*;

verus! {

proof fn lemma_trailers_concat(a: Seq<Seq<char>>, b: Seq<Seq<char>>)
    ensures
        trailers_of_spec(a + b) == trailers_of_spec(a) + trailers_of_spec(b),
    decreases b.len(),
{
    if b.len() == 0 {
        assert(a + b =~= a);
        assert(trailers_of_spec(a) + trailers_of_spec(b) =~= trailers_of_spec(a));
    } else {
        assert((a + b).drop_last() =~= a + b.drop_last());
        assert((a + b).last() == b.last());
        lemma_trailers_concat(a, b.drop_last());
        if is_trailer(b.last()) {
            assert((trailers_of_spec(a) + trailers_of_spec(b.drop_last())).push(b.last())
                =~= trailers_of_spec(a) + trailers_of_spec(b.drop_last()).push(b.last()));
        }
    }
}

proof fn lemma_trailers_all(s: Seq<Seq<char>>)
    requires
        forall|j: int| 0 <= j < s.len() ==> is_trailer(#[trigger] s[j]),
    ensures
        trailers_of_spec(s) == s,
    decreases s.len(),
{
    if s.len() > 0 {
        assert(forall|j: int| 0 <= j < s.len() - 1 ==> s.drop_last()[j] == s[j]);
        lemma_trailers_all(s.drop_last());
        assert(is_trailer(s.last()));
        assert(s.drop_last().push(s.last()) =~= s);
    }
}

proof fn lemma_fresh_trailers(coauthors: Seq<Seq<char>>, existing: Seq<Seq<char>>)
    requires
        forall|j: int| 0 <= j < coauthors.len() ==> is_trailer(#[trigger] coauthors[j]),
    ensures
        forall|j: int|
            0 <= j < fresh_lines(coauthors, existing).len() ==> is_trailer(
                #[trigger] fresh_lines(coauthors, existing)[j],
            ),
    decreases coauthors.len(),
{
    if coauthors.len() > 0 {
        assert(forall|j: int|
            0 <= j < coauthors.len() - 1 ==> coauthors.drop_last()[j] == coauthors[j]);
        lemma_fresh_trailers(coauthors.drop_last(), existing);
        assert(is_trailer(coauthors.last()));
        let fresh = fresh_lines(coauthors, existing);
        let rest = fresh_lines(coauthors.drop_last(), existing);
        assert forall|j: int| 0 <= j < fresh.len() implies is_trailer(fresh[j]) by {
            if existing.contains(coauthors.last()) {
                assert(fresh == rest);
                assert(is_trailer(rest[j]));
            } else {
                assert(fresh == rest.push(coauthors.last()));
                if j < rest.len() {
                    assert(fresh[j] == rest[j]);
                    assert(is_trailer(rest[j]));
                } else {
                    assert(fresh[j] == coauthors.last());
                }
            }
        }
    }
}

proof fn lemma_fresh_covers(coauthors: Seq<Seq<char>>, existing: Seq<Seq<char>>, j: int)
    requires
        0 <= j < coauthors.len(),
    ensures
        existing.contains(coauthors[j]) || fresh_lines(coauthors, existing).contains(coauthors[j]),
    decreases coauthors.len(),
{
    let fresh = fresh_lines(coauthors, existing);
    let rest = fresh_lines(coauthors.drop_last(), existing);
    if j == coauthors.len() - 1 {
        if !existing.contains(coauthors[j]) {
            assert(fresh == rest.push(coauthors.last()));
            assert(fresh[rest.len() as int] == coauthors[j]);
        }
    } else {
        assert(coauthors.drop_last()[j] == coauthors[j]);
        lemma_fresh_covers(coauthors.drop_last(), existing, j);
        if rest.contains(coauthors[j]) {
            let w = choose|w: int| 0 <= w < rest.len() && rest[w] == coauthors[j];
            if existing.contains(coauthors.last()) {
                assert(fresh[w] == coauthors[j]);
            } else {
                assert(fresh == rest.push(coauthors.last()));
                assert(fresh[w] == coauthors[j]);
            }
        }
    }
}

proof fn lemma_fresh_empty(coauthors: Seq<Seq<char>>, existing: Seq<Seq<char>>)
    requires
        forall|j: int| 0 <= j < coauthors.len() ==> existing.contains(#[trigger] coauthors[j]),
    ensures
        fresh_lines(coauthors, existing) == Seq::<Seq<char>>::empty(),
    decreases coauthors.len(),
{
    if coauthors.len() > 0 {
        assert(forall|j: int|
            0 <= j < coauthors.len() - 1 ==> coauthors.drop_last()[j] == coauthors[j]);
        lemma_fresh_empty(coauthors.drop_last(), existing);
        assert(existing.contains(coauthors.last()));
    }
}

/// Deleting with an empty alias set removes every trailer line, whatever it
/// holds, and is a no-op on a message that has none.
pub proof fn lemma_delete_all_removes_trailers(lines: Seq<Seq<char>>, coauthors: Seq<Seq<char>>)
    ensures
        trailers_of_spec(delete_kept(lines, true, coauthors)) == Seq::<Seq<char>>::empty(),
        trailers_of_spec(lines).len() == 0 ==> delete_kept(lines, true, coauthors) == lines,
    decreases lines.len(),
{
    if lines.len() == 0 {
        assert(delete_kept(lines, true, coauthors) =~= lines);
    } else {
        lemma_delete_all_removes_trailers(lines.drop_last(), coauthors);
        let kept = delete_kept(lines, true, coauthors);
        let rest = delete_kept(lines.drop_last(), true, coauthors);
        if is_trailer(lines.last()) {
            assert(kept == rest);
        } else {
            assert(kept == rest.push(lines.last()));
            assert(kept.drop_last() =~= rest);
            assert(trailers_of_spec(kept) == trailers_of_spec(rest));
            if trailers_of_spec(lines).len() == 0 {
                assert(trailers_of_spec(lines.drop_last()).len() == 0);
                assert(rest == lines.drop_last());
                assert(lines.drop_last().push(lines.last()) =~= lines);
            }
        }
    }
}

/// Adding the same contact lines a second time changes nothing: the trailer
/// set of the message stays as the first add left it, and the second add
/// reports the same set as the first. (The contact lines come from
/// resolution, so each carries the trailer prefix.)
pub proof fn lemma_add_idempotent(lines: Seq<Seq<char>>, coauthors: Seq<Seq<char>>)
    requires
        forall|j: int| 0 <= j < coauthors.len() ==> is_trailer(#[trigger] coauthors[j]),
    ensures
        trailers_of_spec(add_spec_lines(add_spec_lines(lines, coauthors), coauthors))
            == trailers_of_spec(add_spec_lines(lines, coauthors)),
        add_spec_report(add_spec_lines(lines, coauthors), coauthors) == add_spec_report(
            lines,
            coauthors,
        ),
{
    reveal_strlit("Co-authored-by: ");
    let e0 = trailers_of_spec(lines);
    let f1 = fresh_lines(coauthors, e0);
    let base1 = if needs_separator(lines) {
        lines.push(Seq::<char>::empty())
    } else {
        lines
    };
    let l1 = base1 + f1;
    assert(l1 == add_spec_lines(lines, coauthors));
    assert(!is_trailer(Seq::<char>::empty()));
    if needs_separator(lines) {
        assert(base1.drop_last() =~= lines);
        assert(trailers_of_spec(base1) == e0);
    }
    lemma_trailers_concat(base1, f1);
    lemma_fresh_trailers(coauthors, e0);
    lemma_trailers_all(f1);
    let e1 = trailers_of_spec(l1);
    assert(e1 == e0 + f1);
    assert forall|j: int| 0 <= j < coauthors.len() implies e1.contains(#[trigger] coauthors[j]) by {
        lemma_fresh_covers(coauthors, e0, j);
        if e0.contains(coauthors[j]) {
            let w = choose|w: int| 0 <= w < e0.len() && e0[w] == coauthors[j];
            assert(e1[w] == coauthors[j]);
        } else {
            let w = choose|w: int| 0 <= w < f1.len() && f1[w] == coauthors[j];
            assert(e1[e0.len() + w] == coauthors[j]);
        }
    }
    lemma_fresh_empty(coauthors, e1);
    let base2 = if needs_separator(l1) {
        l1.push(Seq::<char>::empty())
    } else {
        l1
    };
    assert(add_spec_lines(l1, coauthors) =~= base2);
    if needs_separator(l1) {
        assert(base2.drop_last() =~= l1);
        assert(trailers_of_spec(base2) == e1);
    }
    assert(trailers_of_spec(add_spec_lines(l1, coauthors)) == e1);
    assert(add_spec_report(l1, coauthors) =~= e1);
    assert(add_spec_report(lines, coauthors) == e0 + f1);
}

/// One state evolves into another without disturbing what is already
/// resolved: same aliases in the same order, and a pair that had a contact
/// line keeps it unchanged.
pub open spec fn preserves_resolved(a: PairsView, b: PairsView) -> bool {
    &&& a.len() == b.len()
    &&& forall|j: int| 0 <= j < a.len() ==> (#[trigger] b[j]).0 == a[j].0
    &&& forall|j: int| 0 <= j < a.len() && a[j].1 is Some ==> (#[trigger] b[j]) == a[j]
}

proof fn lemma_scan_lines_preserves(pairs: PairsView, lines: Seq<Seq<char>>)
    ensures
        preserves_resolved(pairs, scan_lines(pairs, lines)),
    decreases lines.len(),
{
    if lines.len() > 0 {
        let next = scan_trailer_line(pairs, lines[0]);
        assert(preserves_resolved(pairs, next));
        lemma_scan_lines_preserves(next, lines.drop_first());
    }
}

proof fn lemma_scan_commit_preserves(
    pairs: PairsView,
    name: Seq<char>,
    email: Seq<char>,
    lines: Seq<Seq<char>>,
)
    ensures
        preserves_resolved(pairs, scan_commit_spec(pairs, name, email, lines)),
{
    let r1 = scan_author(pairs, name, email);
    assert(preserves_resolved(pairs, r1));
    lemma_scan_lines_preserves(r1, lines);
}

proof fn lemma_scan_history_preserves(pairs: PairsView, commits: Seq<CommitView>)
    ensures
        preserves_resolved(pairs, scan_history(pairs, commits)),
    decreases commits.len(),
{
    if commits.len() > 0 && crate::resolve::unresolved(pairs).len() > 0 {
        let next = scan_commit_spec(
            pairs,
            commits[0].author_name,
            commits[0].author_email,
            commits[0].lines,
        );
        lemma_scan_commit_preserves(
            pairs,
            commits[0].author_name,
            commits[0].author_email,
            commits[0].lines,
        );
        lemma_scan_history_preserves(next, commits.drop_first());
    }
}

proof fn lemma_table_pairs_index(
    aliases: Seq<Seq<char>>,
    table: Seq<(Seq<char>, Seq<char>)>,
    j: int,
)
    requires
        0 <= j < aliases.len(),
    ensures
        table_pairs(aliases, table).len() == aliases.len(),
        table_pairs(aliases, table)[j] == (aliases[j], match assoc_lookup(table, aliases[j]) {
            Some(v) => Some(trailer_prefix() + v),
            None => None::<Seq<char>>,
        }),
    decreases aliases.len(),
{
    lemma_table_pairs_len(aliases, table);
    lemma_table_pairs_len(aliases.drop_last(), table);
    if j < aliases.len() - 1 {
        assert(aliases.drop_last()[j] == aliases[j]);
        lemma_table_pairs_index(aliases.drop_last(), table, j);
        assert(table_pairs(aliases, table)[j] == table_pairs(aliases.drop_last(), table)[j]);
    } else {
        assert(aliases.last() == aliases[j]);
        assert(table_pairs(aliases, table)[j] == (aliases[j], match assoc_lookup(
            table,
            aliases[j],
        ) {
            Some(v) => Some(trailer_prefix() + v),
            None => None::<Seq<char>>,
        }));
    }
}

proof fn lemma_table_pairs_len(aliases: Seq<Seq<char>>, table: Seq<(Seq<char>, Seq<char>)>)
    ensures
        table_pairs(aliases, table).len() == aliases.len(),
    decreases aliases.len(),
{
    if aliases.len() > 0 {
        lemma_table_pairs_len(aliases.drop_last(), table);
    }
}

/// An alias that the table covers is resolved by the table stage — to the
/// table's line behind the trailer prefix — and the history walk leaves that
/// pair exactly as the table stage left it: history is never consulted for an
/// alias the table resolves.
pub proof fn lemma_table_hit_skips_history(
    raw: Seq<Seq<char>>,
    table: Seq<(Seq<char>, Seq<char>)>,
    commits: Seq<CommitView>,
    j: int,
)
    requires
        0 <= j < start_spec(raw, table).len(),
        assoc_lookup(table, start_spec(raw, table)[j].0) is Some,
    ensures
        ({
            let entry = start_spec(raw, table)[j];
            match assoc_lookup(table, entry.0) {
                Some(v) => entry.1 == Some(trailer_prefix() + v),
                None => false,
            }
        }),
        scan_history(start_spec(raw, table), commits)[j] == start_spec(raw, table)[j],
{
    let aliases = crate::resolve::dedup(raw.map_values(|a: Seq<char>| lower_of(a)));
    if aliases.len() > 0 {
        lemma_table_pairs_index(aliases, table, 0);
    }
    assert(start_spec(raw, table).len() == aliases.len());
    lemma_table_pairs_index(aliases, table, j);
    lemma_scan_history_preserves(start_spec(raw, table), commits);
}

/// Resolution sees only the lowercase form of each alias: inputs with the
/// same lowercasings resolve identically.
pub proof fn lemma_resolution_case_insensitive(
    raw1: Seq<Seq<char>>,
    raw2: Seq<Seq<char>>,
    table: Seq<(Seq<char>, Seq<char>)>,
    commits: Seq<CommitView>,
)
    requires
        raw1.map_values(|a: Seq<char>| lower_of(a)) == raw2.map_values(|a: Seq<char>| lower_of(a)),
    ensures
        spec_resolve(raw1, table, commits) == spec_resolve(raw2, table, commits),
{
}

proof fn lemma_dedup_acc_dup(s: Seq<Seq<char>>, x: Seq<char>, acc: Seq<Seq<char>>)
    requires
        s.contains(x) || acc.contains(x),
    ensures
        dedup_acc(s.push(x), acc) == dedup_acc(s, acc),
    decreases s.len(),
{
    if s.len() == 0 {
        assert(acc.contains(x));
        assert(s.push(x)[0] == x);
        assert(s.push(x).drop_first() =~= s);
    } else {
        assert(s.push(x)[0] == s[0]);
        assert(s.push(x).drop_first() =~= s.drop_first().push(x));
        let acc2 = if acc.contains(s[0]) {
            acc
        } else {
            acc.push(s[0])
        };
        assert forall|y: Seq<char>| acc.contains(y) implies acc2.contains(y) by {
            let w = choose|w: int| 0 <= w < acc.len() && acc[w] == y;
            assert(acc2[w] == y);
        }
        if s.contains(x) {
            let w = choose|w: int| 0 <= w < s.len() && s[w] == x;
            if w == 0 {
                assert(acc2.contains(x)) by {
                    if !acc.contains(s[0]) {
                        assert(acc2[acc.len() as int] == s[0]);
                    }
                }
            } else {
                assert(s.drop_first()[w - 1] == x);
                assert(s.drop_first().contains(x));
            }
        }
        lemma_dedup_acc_dup(s.drop_first(), x, acc2);
    }
}

/// An alias repeated in the input changes nothing: within one call the alias
/// is resolved once, so each occurrence reports the identical contact line.
pub proof fn lemma_repeated_alias_resolves_once(
    raw: Seq<Seq<char>>,
    x: Seq<char>,
    table: Seq<(Seq<char>, Seq<char>)>,
    commits: Seq<CommitView>,
)
    requires
        raw.map_values(|a: Seq<char>| lower_of(a)).contains(lower_of(x)),
    ensures
        spec_resolve(raw.push(x), table, commits) == spec_resolve(raw, table, commits),
{
    assert(raw.push(x).map_values(|a: Seq<char>| lower_of(a)) =~= raw.map_values(
        |a: Seq<char>| lower_of(a),
    ).push(lower_of(x)));
    lemma_dedup_acc_dup(
        raw.map_values(|a: Seq<char>| lower_of(a)),
        lower_of(x),
        Seq::<Seq<char>>::empty(),
    );
}

proof fn lemma_scan_lines_hits(pairs: PairsView, lines: Seq<Seq<char>>, k: int, j: int)
    requires
        0 <= j < pairs.len(),
        0 <= k < lines.len(),
        is_trailer(lines[k]),
        ({
            let parsed = spec_parse_coauthor(lines[k].skip(trailer_prefix().len() as int));
            parsed is Some && parsed->0.spec_matches(pairs[j].0)
        }),
    ensures
        scan_lines(pairs, lines)[j].1 is Some,
        scan_lines(pairs, lines).len() == pairs.len(),
    decreases k,
{
    lemma_scan_lines_preserves(pairs, lines);
    let next = scan_trailer_line(pairs, lines[0]);
    assert(preserves_resolved(pairs, next));
    if k == 0 {
        assert(next[j].1 is Some);
        lemma_scan_lines_preserves(next, lines.drop_first());
    } else {
        assert(lines.drop_first()[k - 1] == lines[k]);
        assert(next[j].0 == pairs[j].0);
        lemma_scan_lines_hits(next, lines.drop_first(), k - 1, j);
    }
}

/// One commit visit can resolve several aliases at once: one alias matching
/// the author signature and another matching a trailer line of the same
/// commit both come out resolved.
pub proof fn lemma_one_commit_resolves_both(
    pairs: PairsView,
    name: Seq<char>,
    email: Seq<char>,
    lines: Seq<Seq<char>>,
    j1: int,
    j2: int,
    k: int,
)
    requires
        0 <= j1 < pairs.len(),
        0 <= j2 < pairs.len(),
        0 <= k < lines.len(),
        ({
            let profile = spec_profile(name, email);
            profile is Some && profile->0.spec_matches(pairs[j1].0)
        }),
        is_trailer(lines[k]),
        ({
            let parsed = spec_parse_coauthor(lines[k].skip(trailer_prefix().len() as int));
            parsed is Some && parsed->0.spec_matches(pairs[j2].0)
        }),
    ensures
        scan_commit_spec(pairs, name, email, lines)[j1].1 is Some,
        scan_commit_spec(pairs, name, email, lines)[j2].1 is Some,
{
    let r1 = scan_author(pairs, name, email);
    assert(r1[j1].1 is Some);
    assert(r1[j2].0 == pairs[j2].0);
    lemma_scan_lines_preserves(r1, lines);
    lemma_scan_lines_hits(r1, lines, k, j2);
}

/// Every contact line a resolution state holds is itself a trailer line.
pub open spec fn all_records_trailers(pairs: PairsView) -> bool {
    forall|j: int|
        0 <= j < pairs.len() && (#[trigger] pairs[j]).1 is Some ==> is_trailer(pairs[j].1->0)
}

proof fn lemma_prefix_line_is_trailer(v: Seq<char>)
    ensures
        is_trailer(trailer_prefix() + v),
{
    assert((trailer_prefix() + v).subrange(0, trailer_prefix().len() as int) =~= trailer_prefix());
}

proof fn lemma_apply_match_trailers(pairs: PairsView, p: crate::contact::ContactProfile, rec: Seq<char>)
    requires
        all_records_trailers(pairs),
        is_trailer(rec),
    ensures
        all_records_trailers(apply_match(pairs, p, rec)),
{
    let out = apply_match(pairs, p, rec);
    assert forall|j: int|
        0 <= j < out.len() && (#[trigger] out[j]).1 is Some implies is_trailer(out[j].1->0) by {
        assert(pairs[j].1 is Some ==> is_trailer(pairs[j].1->0));
    }
}

proof fn lemma_scan_lines_trailers(pairs: PairsView, lines: Seq<Seq<char>>)
    requires
        all_records_trailers(pairs),
    ensures
        all_records_trailers(scan_lines(pairs, lines)),
    decreases lines.len(),
{
    if lines.len() > 0 {
        let next = scan_trailer_line(pairs, lines[0]);
        if is_trailer(lines[0]) {
            match spec_parse_coauthor(lines[0].skip(trailer_prefix().len() as int)) {
                Some(p) => {
                    lemma_apply_match_trailers(pairs, p, lines[0]);
                },
                None => {},
            }
        }
        lemma_scan_lines_trailers(next, lines.drop_first());
    }
}

proof fn lemma_scan_commit_trailers(
    pairs: PairsView,
    name: Seq<char>,
    email: Seq<char>,
    lines: Seq<Seq<char>>,
)
    requires
        all_records_trailers(pairs),
    ensures
        all_records_trailers(scan_commit_spec(pairs, name, email, lines)),
{
    match spec_profile(name, email) {
        Some(p) => {
            lemma_prefix_line_is_trailer(name + " <"@ + email + ">"@);
            assert(crate::resolve::author_record(name, email) =~= trailer_prefix() + (name + " <"@
                + email + ">"@));
            lemma_apply_match_trailers(pairs, p, crate::resolve::author_record(name, email));
        },
        None => {},
    }
    lemma_scan_lines_trailers(scan_author(pairs, name, email), lines);
}

proof fn lemma_scan_history_trailers(pairs: PairsView, commits: Seq<CommitView>)
    requires
        all_records_trailers(pairs),
    ensures
        all_records_trailers(scan_history(pairs, commits)),
    decreases commits.len(),
{
    if commits.len() > 0 && crate::resolve::unresolved(pairs).len() > 0 {
        lemma_scan_commit_trailers(
            pairs,
            commits[0].author_name,
            commits[0].author_email,
            commits[0].lines,
        );
        lemma_scan_history_trailers(
            scan_commit_spec(
                pairs,
                commits[0].author_name,
                commits[0].author_email,
                commits[0].lines,
            ),
            commits.drop_first(),
        );
    }
}

proof fn lemma_table_pairs_trailers(aliases: Seq<Seq<char>>, table: Seq<(Seq<char>, Seq<char>)>)
    ensures
        all_records_trailers(table_pairs(aliases, table)),
    decreases aliases.len(),
{
    if aliases.len() > 0 {
        lemma_table_pairs_trailers(aliases.drop_last(), table);
        let rest = table_pairs(aliases.drop_last(), table);
        let out = table_pairs(aliases, table);
        match assoc_lookup(table, aliases.last()) {
            Some(v) => {
                lemma_prefix_line_is_trailer(v);
            },
            None => {},
        }
        assert forall|j: int|
            0 <= j < out.len() && (#[trigger] out[j]).1 is Some implies is_trailer(out[j].1->0) by {
            if j < rest.len() {
                assert(out[j] == rest[j]);
            }
        }
    }
}

proof fn lemma_resolved_lines_trailers(pairs: PairsView)
    requires
        all_records_trailers(pairs),
    ensures
        forall|j: int|
            0 <= j < crate::resolve::resolved_lines(pairs).len() ==> is_trailer(
                #[trigger] crate::resolve::resolved_lines(pairs)[j],
            ),
    decreases pairs.len(),
{
    if pairs.len() > 0 {
        assert(forall|j: int| 0 <= j < pairs.len() - 1 ==> pairs.drop_last()[j] == pairs[j]);
        lemma_resolved_lines_trailers(pairs.drop_last());
        let out = crate::resolve::resolved_lines(pairs);
        let rest = crate::resolve::resolved_lines(pairs.drop_last());
        assert forall|j: int| 0 <= j < out.len() implies is_trailer(out[j]) by {
            match pairs.last().1 {
                Some(v) => {
                    assert(pairs[pairs.len() - 1].1 is Some);
                    assert(is_trailer(v));
                    assert(out == rest.push(v));
                    if j < rest.len() {
                        assert(out[j] == rest[j]);
                    } else {
                        assert(out[j] == v);
                    }
                },
                None => {
                    assert(out == rest);
                },
            }
        }
    }
}

/// Whatever aliases, table and history a resolution starts from, every line
/// it returns carries the trailer prefix — so its output can always be handed
/// to the trailer editor.
pub proof fn lemma_resolution_yields_trailers(
    raw: Seq<Seq<char>>,
    table: Seq<(Seq<char>, Seq<char>)>,
    commits: Seq<CommitView>,
)
    ensures
        ({
            match spec_resolve(raw, table, commits) {
                Ok(lines) => forall|j: int|
                    0 <= j < lines.len() ==> is_trailer(#[trigger] lines[j]),
                Err(_) => true,
            }
        }),
{
    let aliases = crate::resolve::dedup(raw.map_values(|a: Seq<char>| lower_of(a)));
    lemma_table_pairs_trailers(aliases, table);
    lemma_scan_history_trailers(start_spec(raw, table), commits);
    lemma_resolved_lines_trailers(scan_history(start_spec(raw, table), commits));
}

} // verus!
