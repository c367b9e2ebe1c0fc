use team_validate::findings::{sort_and_dedup, wrapper};
use team_validate::schema::{Config, Data, Email, Permissions, Person, Team, TeamKind};
use team_validate::text::{
    comes_before, contains_text, decimal_text, has_char, same_text, starts_with,
};
use team_validate::validate::{
    conclude, github_step, is_skipped, run_checks, skipped_checks, validate, warnings, Check,
    Failure, GithubStep,
};

fn texts(list: &[&str]) -> Vec<String> {
    list.iter().map(|s| s.to_string()).collect()
}

fn none() -> Permissions {
    Permissions { direct: vec![], implied: vec![], fault: None }
}

fn person(name: &str, id: u64) -> Person {
    Person {
        github: name.to_string(),
        github_id: id,
        discord_id: None,
        email: Email::Missing,
        permissions: none(),
    }
}

fn team(name: &str, members: &[&str]) -> Team {
    Team {
        name: name.to_string(),
        kind: TeamKind::Team,
        subteam_of: None,
        leads: vec![],
        members: Ok(texts(members)),
        alumni: vec![],
        permissions: none(),
        rfcbot: None,
        website: None,
        raw_lists: vec![],
        lists: Ok(vec![]),
        github_teams: Ok(vec![]),
    }
}

fn data(people: Vec<Person>, teams: Vec<Team>) -> Data {
    Data {
        config: Config {
            allowed_mailing_lists_domains: vec![],
            allowed_github_orgs: vec![],
            available_permissions: vec![],
            discord_permissions: vec![],
        },
        people,
        teams,
    }
}

fn sound() -> Data {
    data(vec![person("x", 1), person("y", 2)], vec![team("core", &["x", "y"])])
}

/// Fails two checks: a member without a record and a name that is not plain.
fn unsound() -> Data {
    data(vec![person("x", 1)], vec![team("wg_a", &["x", "z"])])
}

fn names(list: &[(u64, &str)]) -> Result<Vec<(u64, String)>, String> {
    Ok(list.iter().map(|(id, name)| (*id, name.to_string())).collect())
}

fn reported(result: Result<(), Failure>) -> Vec<String> {
    match result {
        Err(Failure::Invalid(errors)) => errors,
        other => panic!("{:?}", other),
    }
}

#[test]
fn wrapper_notes_what_rules_note_and_their_verdicts() {
    let mut errors = texts(&["before"]);
    wrapper(&vec![1u64, 2, 3], &mut errors, |n: &u64, mut noted: Vec<String>| {
        noted.push(format!("saw {}", n));
        let verdict = if *n == 2 { Err("two".to_string()) } else { Ok(()) };
        (noted, verdict)
    });
    assert_eq!(errors, texts(&["before", "saw 1", "saw 2", "two", "saw 3"]));
}

#[test]
fn wrapper_of_no_items_changes_nothing() {
    let mut errors = texts(&["before"]);
    wrapper(&Vec::<u64>::new(), &mut errors, |_: &u64, _: Vec<String>| {
        (vec![], Err("never".to_string()))
    });
    assert_eq!(errors, texts(&["before"]));
}

#[test]
fn findings_are_reported_in_order_and_once() {
    let unordered = texts(&["b", "a", "ab", "", "b", "B", "é", "z", "a", "\u{10000}", "\u{ffff}"]);
    let mut expected = unordered.clone();
    expected.sort();
    expected.dedup();
    assert_eq!(sort_and_dedup(unordered), expected);
    assert_eq!(sort_and_dedup(vec![]), texts(&[]));
}

#[test]
fn the_order_of_findings_leaves_no_trace() {
    let one = sort_and_dedup(texts(&["c", "a", "b", "a"]));
    let other = sort_and_dedup(texts(&["a", "b", "b", "c"]));
    assert_eq!(one, texts(&["a", "b", "c"]));
    assert_eq!(one, other);
}

#[test]
fn texts_are_ordered_as_strings_are() {
    let all = ["", "a", "aa", "ab", "b", "B", "é", "e", "\u{ffff}", "\u{10000}", "a\u{0}"];
    for a in all {
        for b in all {
            assert_eq!(comes_before(a, b), a < b);
            assert_eq!(same_text(a, b), a == b);
            assert_eq!(starts_with(a, b), a.starts_with(b));
        }
    }
}

#[test]
fn lists_and_texts_are_searched() {
    assert!(has_char("a@b", '@'));
    assert!(!has_char("ab", '@'));
    assert!(contains_text(&texts(&["a", "b"]), "b"));
    assert!(!contains_text(&texts(&["ab"]), "b"));
}

#[test]
fn numbers_are_written_in_decimal() {
    for n in [0usize, 1, 9, 10, 11, 100, 909, 1234567890, usize::MAX] {
        assert_eq!(decimal_text(n), n.to_string());
    }
}

#[test]
fn sound_records_pass() {
    let auth = Ok(());
    let result = validate(&sound(), true, &[], &auth, &names(&[(1, "x"), (2, "y")]));
    assert!(result.is_ok());
    assert_eq!(run_checks(&sound(), &[]), texts(&[]));
}

#[test]
fn unsound_records_are_reported_in_order() {
    let auth = Ok(());
    let result = validate(&unsound(), true, &[], &auth, &names(&[(1, "w")]));
    assert_eq!(
        reported(result),
        texts(&[
            "person `z` is member of team `wg_a` but doesn't exist",
            "team name `wg_a` can only be alphanumeric with dashes",
            "user `x` changed username to `w`",
        ])
    );
}

#[test]
fn checks_run_in_their_order() {
    assert_eq!(
        run_checks(&unsound(), &[]),
        texts(&[
            "person `z` is member of team `wg_a` but doesn't exist",
            "team name `wg_a` can only be alphanumeric with dashes",
        ])
    );
}

#[test]
fn skipped_checks_find_nothing() {
    assert_eq!(
        run_checks(&unsound(), &["validate_team_names", "nothing", "validate_team_names"]),
        texts(&["person `z` is member of team `wg_a` but doesn't exist"])
    );
    assert_eq!(
        run_checks(&unsound(), &["validate_team_names", "validate_team_members"]),
        texts(&[])
    );
}

#[test]
fn a_skipped_question_is_not_read() {
    let auth = Ok(());
    let skip = ["validate_github_usernames"];
    let answer = Err("rate limited".to_string());
    assert!(validate(&sound(), true, &skip, &auth, &answer).is_ok());
    assert_eq!(
        reported(validate(&sound(), true, &[], &auth, &answer)),
        texts(&["couldn't verify GitHub usernames: rate limited"])
    );
}

#[test]
fn strict_validation_needs_github() {
    let auth = Err("missing token".to_string());
    for d in [sound(), unsound()] {
        let result = validate(&d, true, &[], &auth, &names(&[]));
        match result {
            Err(failure) => {
                assert_eq!(failure.message(), "missing token");
                assert!(matches!(failure, Failure::Unauthorized(_)));
            }
            Ok(()) => panic!("passed"),
        }
    }
}

#[test]
fn lenient_validation_goes_without_github() {
    let auth = Err("missing token".to_string());
    let answer = Err("never asked".to_string());
    assert!(validate(&sound(), false, &[], &auth, &answer).is_ok());
    assert_eq!(reported(validate(&unsound(), false, &[], &auth, &answer)).len(), 2);
}

#[test]
fn strictness_makes_no_difference_with_github() {
    let auth = Ok(());
    let answer = names(&[(1, "w")]);
    assert_eq!(
        reported(validate(&unsound(), true, &[], &auth, &answer)),
        reported(validate(&unsound(), false, &[], &auth, &answer))
    );
}

#[test]
fn failures_count_the_different_errors() {
    let failure = conclude(texts(&["b", "a", "b"])).unwrap_err();
    assert_eq!(failure.message(), "2 validation errors found");
    assert_eq!(conclude(texts(&["a"])).unwrap_err().message(), "1 validation errors found");
    assert!(conclude(vec![]).is_ok());
}

#[test]
fn github_is_asked_when_it_can_and_need_be() {
    let d = data(vec![person("a", 5), person("b", 5), person("c", 6)], vec![]);
    let down = Err("no token".to_string());
    match github_step(&d, true, &[], &down) {
        GithubStep::Fail(cause) => assert_eq!(cause, "no token"),
        other => panic!("{:?}", other),
    }
    match github_step(&d, false, &[], &down) {
        GithubStep::GoWithout(cause) => assert_eq!(cause, "no token"),
        other => panic!("{:?}", other),
    }
    match github_step(&d, true, &[], &Ok(())) {
        GithubStep::Ask(mut ids) => {
            ids.sort();
            assert_eq!(ids, vec![5, 6]);
        }
        other => panic!("{:?}", other),
    }
    assert!(matches!(
        github_step(&d, true, &["validate_github_usernames"], &Ok(())),
        GithubStep::Skip
    ));
}

#[test]
fn every_check_is_skipped_by_its_own_name() {
    let checks = Check::in_order();
    assert_eq!(checks.len(), 19);
    assert_eq!(checks[0].name(), "validate_name_prefixes");
    assert_eq!(checks[18].name(), "validate_project_groups_have_parent_teams");
    for a in &checks {
        for b in &checks {
            assert_eq!(is_skipped(&[a.name()], b.name()), a == b);
        }
    }
}

#[test]
fn skipped_checks_are_told_once_and_in_order() {
    let skip = [
        "validate_team_names",
        "nothing",
        "validate_github_usernames",
        "validate_subteam_of",
        "validate_team_names",
    ];
    assert_eq!(skipped_checks(&skip), vec![Check::SubteamOf, Check::TeamNames]);
    assert_eq!(skipped_checks(&[]), vec![]);
    assert_eq!(skipped_checks(&["Validate_team_names"]), vec![]);
    let all: Vec<&str> = Check::in_order().iter().rev().map(|check| check.name()).collect();
    assert_eq!(skipped_checks(&all), Check::in_order());
}

#[test]
fn warnings_name_what_is_not_checked() {
    let skip = ["validate_github_usernames", "validate_team_names", "nothing", "validate_subteam_of"];
    let of_checks = texts(&[
        "skipped check: validate_subteam_of",
        "skipped check: validate_team_names",
    ]);
    let down = Err("missing token".to_string());
    assert_eq!(warnings(true, &skip, &down), of_checks);
    let mut expected = of_checks.clone();
    expected.extend(texts(&[
        "couldn't perform checks relying on the GitHub API, some errors will not be detected",
        "cause: missing token",
    ]));
    assert_eq!(warnings(false, &skip, &down), expected);
    for strict in [true, false] {
        let mut expected = of_checks.clone();
        expected.push("skipped check: validate_github_usernames".to_string());
        assert_eq!(warnings(strict, &skip, &Ok(())), expected);
        assert_eq!(warnings(strict, &["nothing"], &Ok(())), texts(&[]));
    }
}

#[test]
fn warnings_do_not_depend_on_order_or_repetition() {
    let one = ["validate_team_names", "validate_subteam_of"];
    let other = ["validate_subteam_of", "nothing", "validate_team_names", "validate_subteam_of"];
    assert_eq!(warnings(true, &one, &Ok(())), warnings(true, &other, &Ok(())));
    assert_eq!(warnings(true, &one, &Ok(())).len(), 2);
}

#[test]
fn failures_report_each_error() {
    let failure = conclude(texts(&["b", "a", "b"])).unwrap_err();
    assert_eq!(failure.lines(), texts(&["validation error: a", "validation error: b"]));
    assert_eq!(Failure::Unauthorized("missing token".to_string()).lines(), texts(&[]));
}
