use coauthor::cli::{choose_action, render_coauthors, Action};
use coauthor::contact::{parse_coauthor, parse_name_and_email};
use coauthor::resolve::{
    alias_table_from_entries, resolve_aliases, resolve_start, without_duplicates, AliasTable,
    Commit,
};
use coauthor::trailer::{add_coauthors, delete_coauthors, render_message, split_lines, trailers_of};

fn strings(xs: &[&str]) -> Vec<String> {
    xs.iter().map(|x| x.to_string()).collect()
}

fn commit(name: &str, email: &str, message_lines: &[&str]) -> Commit {
    Commit {
        author_name: name.to_string(),
        author_email: email.to_string(),
        lines: strings(message_lines),
    }
}

fn table(entries: &[(&str, &str)]) -> AliasTable {
    AliasTable {
        entries: entries.iter().map(|(k, v)| (k.to_string(), v.to_string())).collect(),
    }
}

#[test]
fn profile_matches_name_email_local_and_tokens() {
    let p = parse_name_and_email("Jo Blow", "Jo@X.com").unwrap();
    assert!(p.matches(&"jo".to_string()));
    assert!(p.matches(&"blow".to_string()));
    assert!(p.matches(&"jo blow".to_string()));
    assert!(p.matches(&"jo@x.com".to_string()));
    assert!(!p.matches(&"bob".to_string()));
    assert!(!p.matches(&"jo@x".to_string()));
}

#[test]
fn profile_requires_exactly_one_at_sign() {
    assert!(parse_name_and_email("Jo", "jox.com").is_none());
    assert!(parse_name_and_email("Jo", "a@b@c").is_none());
    assert!(parse_name_and_email("Jo", "a@b.com").is_some());
}

#[test]
fn parse_coauthor_reads_bracketed_contact() {
    let p = parse_coauthor("Jo Blow <jo@x.com>").unwrap();
    assert!(p.matches(&"jo".to_string()));
    assert!(p.matches(&"jo blow".to_string()));
}

#[test]
fn parse_coauthor_trims_name_padding() {
    let p = parse_coauthor("  Jo Blow   <jo@x.com>").unwrap();
    assert!(p.matches(&"jo blow".to_string()));
}

#[test]
fn parse_coauthor_rejects_malformed_input() {
    assert!(parse_coauthor("no brackets at all").is_none());
    assert!(parse_coauthor("two <brackets <a@b>").is_none());
    assert!(parse_coauthor("bad email <nodomain>").is_none());
}

#[test]
fn without_duplicates_keeps_first_occurrence_order() {
    let out = without_duplicates(strings(&["a", "b", "a", "c", "b"]));
    assert_eq!(out, strings(&["a", "b", "c"]));
}

#[test]
fn alias_table_keeps_only_coauthor_namespace() {
    let t = alias_table_from_entries(&vec![
        ("coauthor.jo".to_string(), "Jo Blow <jo@x.com>".to_string()),
        ("user.name".to_string(), "someone".to_string()),
    ]);
    assert_eq!(t.lookup(&"jo".to_string()), Some("Jo Blow <jo@x.com>".to_string()));
    assert_eq!(t.lookup(&"name".to_string()), None);
}

#[test]
fn table_hit_resolves_without_history() {
    let t = table(&[("jo", "Jo Blow <jo@x.com>")]);
    let history: Vec<Commit> = Vec::new();
    let out = resolve_aliases(&strings(&["jo"]), &t, &history).unwrap();
    assert_eq!(out, strings(&["Co-authored-by: Jo Blow <jo@x.com>"]));
}

#[test]
fn table_line_wins_over_history() {
    let t = table(&[("jo", "Jo Configured <jo@conf.com>")]);
    let history = vec![commit("Jo Blow", "jo@x.com", &["subject"])];
    let out = resolve_aliases(&strings(&["jo"]), &t, &history).unwrap();
    assert_eq!(out, strings(&["Co-authored-by: Jo Configured <jo@conf.com>"]));
}

#[test]
fn duplicate_aliases_resolve_once() {
    let t = table(&[("jo", "Jo Blow <jo@x.com>")]);
    let history: Vec<Commit> = Vec::new();
    let once = resolve_aliases(&strings(&["jo"]), &t, &history).unwrap();
    let twice = resolve_aliases(&strings(&["jo", "jo"]), &t, &history).unwrap();
    assert_eq!(once, twice);
    assert_eq!(twice.len(), 1);
}

#[test]
fn alias_matching_is_case_insensitive() {
    let t = table(&[("foo", "Jo <jo@x.com>")]);
    let history: Vec<Commit> = Vec::new();
    let upper = resolve_aliases(&strings(&["FOO"]), &t, &history).unwrap();
    let lower = resolve_aliases(&strings(&["foo"]), &t, &history).unwrap();
    assert_eq!(upper, lower);
    assert_eq!(upper, strings(&["Co-authored-by: Jo <jo@x.com>"]));
}

#[test]
fn history_author_resolves_by_email_local_part() {
    let t = table(&[]);
    let history = vec![commit("Jo Blow", "jo@x.com", &["some subject"])];
    let out = resolve_aliases(&strings(&["jo"]), &t, &history).unwrap();
    assert_eq!(out, strings(&["Co-authored-by: Jo Blow <jo@x.com>"]));
}

#[test]
fn history_trailer_line_resolves_verbatim() {
    let t = table(&[]);
    let history = vec![commit(
        "Someone Else",
        "else@x.com",
        &["subject", "", "Co-authored-by: Ann X <ann@x.com>"],
    )];
    let out = resolve_aliases(&strings(&["ann"]), &t, &history).unwrap();
    assert_eq!(out, strings(&["Co-authored-by: Ann X <ann@x.com>"]));
}

#[test]
fn one_commit_resolves_author_and_trailer_aliases() {
    let t = table(&[]);
    let history = vec![commit(
        "Jo Blow",
        "jo@x.com",
        &["subject", "", "Co-authored-by: Ann X <ann@x.com>"],
    )];
    let out = resolve_aliases(&strings(&["jo", "ann"]), &t, &history).unwrap();
    assert_eq!(
        out,
        strings(&["Co-authored-by: Jo Blow <jo@x.com>", "Co-authored-by: Ann X <ann@x.com>"])
    );
}

#[test]
fn most_recent_commit_wins() {
    let t = table(&[]);
    let history = vec![
        commit("Jo Blow", "jo@new.com", &["newest"]),
        commit("Jo Blow", "jo@old.com", &["older"]),
    ];
    let out = resolve_aliases(&strings(&["jo"]), &t, &history).unwrap();
    assert_eq!(out, strings(&["Co-authored-by: Jo Blow <jo@new.com>"]));
}

#[test]
fn malformed_history_entries_are_skipped() {
    let t = table(&[]);
    let history = vec![
        commit("Jo Broken", "not-an-email", &["Co-authored-by: nobody here"]),
        commit("Jo Blow", "jo@x.com", &["subject"]),
    ];
    let out = resolve_aliases(&strings(&["jo"]), &t, &history).unwrap();
    assert_eq!(out, strings(&["Co-authored-by: Jo Blow <jo@x.com>"]));
}

#[test]
fn unknown_alias_fails_with_singular_wording() {
    let t = table(&[("jo", "Jo <jo@x.com>")]);
    let history = vec![commit("Ann", "ann@x.com", &["subject"])];
    let err = resolve_aliases(&strings(&["nope"]), &t, &history).unwrap_err();
    assert_eq!(err, "coauthor not found: nope");
}

#[test]
fn unknown_aliases_fail_with_plural_wording() {
    let t = table(&[]);
    let history: Vec<Commit> = Vec::new();
    let err = resolve_aliases(&strings(&["no1", "no2"]), &t, &history).unwrap_err();
    assert_eq!(err, "coauthors not found: no1,no2");
}

#[test]
fn resolution_is_all_or_nothing() {
    let t = table(&[("jo", "Jo <jo@x.com>")]);
    let history: Vec<Commit> = Vec::new();
    let err = resolve_aliases(&strings(&["jo", "ghost"]), &t, &history).unwrap_err();
    assert_eq!(err, "coauthor not found: ghost");
}

#[test]
fn resolution_steps_compose_like_the_driver() {
    let t = table(&[]);
    let mut res = resolve_start(&strings(&["jo"]), &t);
    assert!(!res.is_complete());
    res.scan_commit("Jo Blow", "jo@x.com", &strings(&["subject"]));
    assert!(res.is_complete());
    let out = res.finish().unwrap();
    assert_eq!(out, strings(&["Co-authored-by: Jo Blow <jo@x.com>"]));
}

#[test]
fn split_lines_handles_terminators() {
    assert_eq!(split_lines("subject\n\nbody\n"), strings(&["subject", "", "body"]));
    assert_eq!(split_lines(""), Vec::<String>::new());
    assert_eq!(split_lines("a\r\nb"), strings(&["a", "b"]));
    assert_eq!(split_lines("no newline"), strings(&["no newline"]));
}

#[test]
fn render_message_joins_with_trailing_newline() {
    assert_eq!(render_message(&strings(&["a", "b"])), "a\nb\n");
    assert_eq!(render_message(&strings(&["only"])), "only\n");
}

#[test]
fn trailers_of_picks_prefixed_lines() {
    let lines = strings(&[
        "subject",
        "",
        "Co-authored-by: Jo <jo@x.com>",
        "not a trailer",
        "Co-authored-by: Ann <ann@x.com>",
    ]);
    assert_eq!(
        trailers_of(&lines),
        strings(&["Co-authored-by: Jo <jo@x.com>", "Co-authored-by: Ann <ann@x.com>"])
    );
}

#[test]
fn add_to_subject_only_inserts_blank_separator() {
    let out = add_coauthors(&strings(&["subject"]), &strings(&["Co-authored-by: Jo <jo@x.com>"]));
    assert_eq!(out.lines, strings(&["subject", "", "Co-authored-by: Jo <jo@x.com>"]));
    assert_eq!(out.coauthors, strings(&["Co-authored-by: Jo <jo@x.com>"]));
    assert_eq!(trailers_of(&out.lines), strings(&["Co-authored-by: Jo <jo@x.com>"]));
}

#[test]
fn add_to_two_line_message_appends_directly() {
    let out = add_coauthors(
        &strings(&["subject", "body"]),
        &strings(&["Co-authored-by: Jo <jo@x.com>"]),
    );
    assert_eq!(out.lines, strings(&["subject", "body", "Co-authored-by: Jo <jo@x.com>"]));
}

#[test]
fn add_after_nontrailer_tail_inserts_blank_separator() {
    let out = add_coauthors(
        &strings(&["subject", "", "body"]),
        &strings(&["Co-authored-by: Jo <jo@x.com>"]),
    );
    assert_eq!(out.lines, strings(&["subject", "", "body", "", "Co-authored-by: Jo <jo@x.com>"]));
}

#[test]
fn add_after_trailer_tail_appends_directly() {
    let out = add_coauthors(
        &strings(&["subject", "", "Co-authored-by: Jo <jo@x.com>"]),
        &strings(&["Co-authored-by: Ann <ann@x.com>"]),
    );
    assert_eq!(
        out.lines,
        strings(&[
            "subject",
            "",
            "Co-authored-by: Jo <jo@x.com>",
            "Co-authored-by: Ann <ann@x.com>",
        ])
    );
}

#[test]
fn add_is_idempotent_on_trailer_set_and_report() {
    let wanted = strings(&["Co-authored-by: Jo <jo@x.com>"]);
    let first = add_coauthors(&strings(&["subject"]), &wanted);
    let second = add_coauthors(&first.lines, &wanted);
    assert_eq!(trailers_of(&second.lines), trailers_of(&first.lines));
    assert_eq!(second.coauthors, first.coauthors);
}

#[test]
fn redundant_add_reports_full_existing_set() {
    let lines = strings(&["subject", "", "Co-authored-by: Jo <jo@x.com>"]);
    let out = add_coauthors(&lines, &strings(&["Co-authored-by: Jo <jo@x.com>"]));
    assert_eq!(out.coauthors, strings(&["Co-authored-by: Jo <jo@x.com>"]));
    assert_eq!(out.lines, lines);
}

#[test]
fn delete_all_strips_every_trailer() {
    let lines = strings(&[
        "subject",
        "",
        "Co-authored-by: Jo <jo@x.com>",
        "Co-authored-by: Ann <ann@x.com>",
    ]);
    let out = delete_coauthors(&lines, true, &strings(&[]));
    assert_eq!(out.lines, strings(&["subject", ""]));
    assert_eq!(out.coauthors, Vec::<String>::new());
}

#[test]
fn delete_all_is_noop_without_trailers() {
    let lines = strings(&["subject", "", "body"]);
    let out = delete_coauthors(&lines, true, &strings(&[]));
    assert_eq!(out.lines, lines);
    assert_eq!(out.coauthors, Vec::<String>::new());
}

#[test]
fn delete_specific_removes_exact_matches_only() {
    let lines = strings(&[
        "subject",
        "",
        "Co-authored-by: Jo <jo@x.com>",
        "Co-authored-by: Ann <ann@x.com>",
    ]);
    let out = delete_coauthors(&lines, false, &strings(&["Co-authored-by: Jo <jo@x.com>"]));
    assert_eq!(out.lines, strings(&["subject", "", "Co-authored-by: Ann <ann@x.com>"]));
    assert_eq!(out.coauthors, strings(&["Co-authored-by: Ann <ann@x.com>"]));
}

#[test]
fn delete_of_absent_line_is_silent_noop() {
    let lines = strings(&["subject", "", "Co-authored-by: Ann <ann@x.com>"]);
    let out = delete_coauthors(&lines, false, &strings(&["Co-authored-by: Jo <jo@x.com>"]));
    assert_eq!(out.lines, lines);
    assert_eq!(out.coauthors, strings(&["Co-authored-by: Ann <ann@x.com>"]));
}

#[test]
fn round_trip_from_subject_only_message() {
    let t = table(&[("foo", "Jo <jo@x.com>")]);
    let history: Vec<Commit> = Vec::new();
    let resolved = resolve_aliases(&strings(&["foo"]), &t, &history).unwrap();
    assert_eq!(resolved, strings(&["Co-authored-by: Jo <jo@x.com>"]));
    let message = "subject\n";
    let lines = split_lines(message);
    let out = add_coauthors(&lines, &resolved);
    assert_eq!(out.lines, strings(&["subject", "", "Co-authored-by: Jo <jo@x.com>"]));
    let rendered = render_message(&out.lines);
    assert_eq!(rendered, "subject\n\nCo-authored-by: Jo <jo@x.com>\n");
    let read_back = trailers_of(&split_lines(&rendered));
    assert_eq!(read_back, strings(&["Co-authored-by: Jo <jo@x.com>"]));
}

#[test]
fn action_precedence_follows_flag_order() {
    assert_eq!(choose_action(true, true, true, true, true), Action::ShowShortHelp);
    assert_eq!(choose_action(false, true, true, true, true), Action::ShowManual);
    assert_eq!(choose_action(false, false, true, true, true), Action::ShowVersion);
    assert_eq!(choose_action(false, false, false, true, false), Action::Delete);
    assert_eq!(choose_action(false, false, false, true, true), Action::Delete);
    assert_eq!(choose_action(false, false, false, false, true), Action::Add);
    assert_eq!(choose_action(false, false, false, false, false), Action::List);
}

#[test]
fn rendered_coauthors_fall_back_to_fixed_wording() {
    assert_eq!(render_coauthors(&strings(&[])), "no coauthors");
    assert_eq!(render_coauthors(&strings(&["a", "b"])), "a\nb");
}
