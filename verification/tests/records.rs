use team_validate::checks::github::{
    are_answers_known, github_user_ids, validate_github_teams, validate_github_usernames,
};
use team_validate::checks::hierarchy::{
    validate_project_groups_have_parent_teams, validate_subteam_of,
};
use team_validate::checks::lists::{
    validate_list_addresses, validate_list_email_addresses, validate_list_extra_people,
    validate_list_extra_teams, validate_people_addresses,
};
use team_validate::checks::membership::{
    validate_inactive_members, validate_team_leads, validate_team_members,
};
use team_validate::checks::naming::{
    ensure_plain, is_a_link, is_plain_name, validate_name_prefixes, validate_team_names,
    validate_zulip_stream_name,
};
use team_validate::checks::permissions::{
    validate_discord_permissions, validate_duplicate_permissions, validate_permissions,
};
use team_validate::checks::rfcbot::{validate_rfcbot_exclude_members, validate_rfcbot_labels};
use team_validate::schema::{
    Config, Data, Email, GitHubTeam, List, Permissions, PermissionsFault, Person, Rfcbot, Team,
    TeamKind, Website,
};

fn texts(list: &[&str]) -> Vec<String> {
    list.iter().map(|s| s.to_string()).collect()
}

fn none() -> Permissions {
    Permissions { direct: vec![], implied: vec![], fault: None }
}

fn direct(list: &[&str]) -> Permissions {
    Permissions { direct: texts(list), implied: vec![], fault: None }
}

fn person(name: &str, id: u64) -> Person {
    Person {
        github: name.to_string(),
        github_id: id,
        discord_id: None,
        email: Email::Present(format!("{}@example.com", name)),
        permissions: none(),
    }
}

fn team(name: &str, members: &[&str]) -> Team {
    Team {
        name: name.to_string(),
        kind: TeamKind::Team,
        subteam_of: None,
        leads: vec![],
        members: Ok(texts(members)),
        alumni: vec![],
        permissions: none(),
        rfcbot: None,
        website: None,
        raw_lists: vec![],
        lists: Ok(vec![]),
        github_teams: Ok(vec![]),
    }
}

fn list(address: &str) -> List {
    List { address: address.to_string(), extra_people: vec![], extra_teams: vec![] }
}

fn data(people: Vec<Person>, teams: Vec<Team>) -> Data {
    Data {
        config: Config {
            allowed_mailing_lists_domains: texts(&["rust-lang.org", "crates.io"]),
            allowed_github_orgs: texts(&["rust-lang", "rust-lang-nursery"]),
            available_permissions: texts(&["perf", "crater", "bors.rust.review", "bors.rust.try"]),
            discord_permissions: texts(&["discord.one", "discord.two"]),
        },
        people,
        teams,
    }
}

fn run(check: fn(&Data, &mut Vec<String>), data: &Data) -> Vec<String> {
    let mut errors = texts(&["kept"]);
    check(data, &mut errors);
    assert_eq!(errors[0], "kept");
    errors.remove(0);
    errors
}

fn of_kind(name: &str, kind: TeamKind) -> Team {
    let mut it = team(name, &[]);
    it.kind = kind;
    it
}

#[test]
fn prefixes_that_fit_pass() {
    let d = data(
        vec![],
        vec![
            of_kind("wg-async", TeamKind::WorkingGroup),
            of_kind("project-ffi", TeamKind::ProjectGroup),
            of_kind("core", TeamKind::Team),
            of_kind("projects", TeamKind::Team),
            of_kind("wg", TeamKind::Team),
        ],
    );
    assert_eq!(run(validate_name_prefixes, &d), texts(&[]));
}

#[test]
fn prefixes_that_do_not_fit_are_reported_once_per_team() {
    let d = data(
        vec![],
        vec![
            of_kind("async", TeamKind::WorkingGroup),
            of_kind("wg-core", TeamKind::Team),
            of_kind("ffi", TeamKind::ProjectGroup),
            of_kind("project-x", TeamKind::Team),
            of_kind("project-y", TeamKind::WorkingGroup),
            of_kind("wg-z", TeamKind::ProjectGroup),
        ],
    );
    assert_eq!(
        run(validate_name_prefixes, &d),
        texts(&[
            "working group `async`'s name doesn't start with `wg-`",
            "team `wg-core` seems like a working group (since it has the `wg-` prefix)",
            "project group `ffi`'s name doesn't start with `project-`",
            "team `project-x` seems like a project group (since it has the `project-` prefix)",
            "working group `project-y`'s name doesn't start with `wg-`",
            "project group `wg-z` seems like a working group (since it has the `wg-` prefix)",
        ])
    );
}

#[test]
fn names_of_letters_numbers_and_dashes_are_plain() {
    assert!(is_plain_name(""));
    assert!(is_plain_name("wg-rls-2"));
    assert!(is_plain_name("équipe"));
    assert!(is_plain_name("京①"));
    assert!(!is_plain_name("wg_rls"));
    assert!(!is_plain_name("wg rls"));
    assert!(!is_plain_name("a.b"));
    assert!(!is_plain_name("💝"));
    assert!(!is_plain_name("{"));
    assert!(!is_plain_name("@"));
}

#[test]
fn plain_ascii_characters_are_letters_digits_and_the_dash() {
    for byte in 0u8..128 {
        let c = byte as char;
        assert_eq!(is_plain_name(&c.to_string()), c.is_ascii_alphanumeric() || c == '-');
    }
}

#[test]
fn verdicts_on_names_follow_from_whether_they_are_plain() {
    assert_eq!(ensure_plain("x", true), Ok(()));
    assert_eq!(
        ensure_plain("x", false),
        Err("team name `x` can only be alphanumeric with dashes".to_string())
    );
}

#[test]
fn names_that_are_not_plain_are_reported() {
    let d = data(vec![], vec![team("core", &[]), team("a_b", &[]), team("wg-é", &[])]);
    assert_eq!(
        run(validate_team_names, &d),
        texts(&["team name `a_b` can only be alphanumeric with dashes"])
    );
}

#[test]
fn zulip_streams_are_not_links() {
    let with = |name: &str, stream: Option<&str>| {
        let mut it = team(name, &[]);
        it.website = Some(Website { zulip_stream: stream.map(|s| s.to_string()) });
        it
    };
    let d = data(
        vec![],
        vec![
            with("a", Some("t-compiler")),
            with("b", Some("https://rust-lang.zulipchat.com")),
            with("c", None),
            team("d", &[]),
            with("e", Some("http://x")),
            with("f", Some(" https://")),
            with("g", Some("http://")),
            with("h", Some("http")),
            with("i", Some("HTTPS://zulip.example/x")),
            with("j", Some("zulip://stream")),
        ],
    );
    assert_eq!(
        run(validate_zulip_stream_name, &d),
        texts(&[
            "the zulip stream name of the team `b` is a link: only the name is required",
            "the zulip stream name of the team `e` is a link: only the name is required",
            "the zulip stream name of the team `g` is a link: only the name is required",
            "the zulip stream name of the team `i` is a link: only the name is required",
            "the zulip stream name of the team `j` is a link: only the name is required",
        ])
    );
}

#[test]
fn links_have_a_scheme() {
    for link in [
        "https://x", "http://", "HTTPS://X", "Http://x", "ftp://x", "a://", "svn+ssh://x", "x-1.2://",
        "http:////", "https://é",
    ] {
        assert!(is_a_link(link), "{}", link);
    }
    for name in [
        "", "t-compiler", "://x", "1a://x", "-a://x", "http", "http:", "http:/", "http:/x", "http:x//",
        " https://x", "see https://x", "t_x://y", "é://x", "héllo://x", "a:b://c", "http/://", "https:\\\\x",
    ] {
        assert!(!is_a_link(name), "{}", name);
    }
}

fn sub(name: &str, parent: &str) -> Team {
    let mut it = team(name, &[]);
    it.subteam_of = Some(parent.to_string());
    it
}

#[test]
fn parents_exist_and_are_not_subteams() {
    let d = data(
        vec![],
        vec![team("compiler", &[]), sub("a", "compiler"), sub("b", "a"), sub("c", "nowhere")],
    );
    assert_eq!(
        run(validate_subteam_of, &d),
        texts(&[
            "team `b` can't be a subteam of a subteam (`a`)",
            "the parent of team `c` doesn't exist: `nowhere`",
        ])
    );
}

#[test]
fn a_team_that_is_its_own_parent_is_a_subteam_of_a_subteam() {
    let d = data(vec![], vec![sub("a", "a")]);
    assert_eq!(
        run(validate_subteam_of, &d),
        texts(&["team `a` can't be a subteam of a subteam (`a`)"])
    );
}

#[test]
fn the_last_team_of_a_name_counts_as_parent() {
    let d = data(vec![], vec![sub("a", "x"), team("x", &[]), sub("x", "a")]);
    assert_eq!(
        run(validate_subteam_of, &d),
        texts(&[
            "team `a` can't be a subteam of a subteam (`x`)",
            "team `x` can't be a subteam of a subteam (`a`)",
        ])
    );
}

#[test]
fn project_groups_have_parents() {
    let mut placed = of_kind("project-a", TeamKind::ProjectGroup);
    placed.subteam_of = Some("lang".to_string());
    let d = data(
        vec![],
        vec![
            placed,
            of_kind("project-b", TeamKind::ProjectGroup),
            of_kind("wg-c", TeamKind::WorkingGroup),
            team("d", &[]),
        ],
    );
    assert_eq!(
        run(validate_project_groups_have_parent_teams, &d),
        texts(&[
            "the project group `project-b` doesn't have a parent team, but it's required to have one"
        ])
    );
}

#[test]
fn leads_are_members() {
    let mut a = team("a", &["x", "y"]);
    a.leads = texts(&["y", "z", "x", "w"]);
    let mut b = team("b", &[]);
    b.members = Err("team `b` includes an unknown team".to_string());
    b.leads = texts(&["q"]);
    assert_eq!(
        run(validate_team_leads, &data(vec![], vec![a, b])),
        texts(&[
            "`z` leads team `a`, but is not a member of it",
            "`w` leads team `a`, but is not a member of it",
            "team `b` includes an unknown team",
        ])
    );
}

#[test]
fn members_are_people() {
    let mut b = team("b", &[]);
    b.members = Err("unknown".to_string());
    let d = data(vec![person("x", 1)], vec![team("a", &["x", "y"]), b, team("c", &["z"])]);
    assert_eq!(
        run(validate_team_members, &d),
        texts(&[
            "person `y` is member of team `a` but doesn't exist",
            "unknown",
            "person `z` is member of team `c` but doesn't exist",
        ])
    );
}

#[test]
fn people_take_part_or_hold_permissions() {
    let mut a = team("a", &["member"]);
    a.alumni = texts(&["alum"]);
    let mut l = list("a@rust-lang.org");
    l.extra_people = texts(&["listed"]);
    a.raw_lists = vec![list("b@rust-lang.org"), l];
    let mut permitted = person("permitted", 4);
    permitted.permissions = direct(&["perf"]);
    let mut implied = person("implied", 5);
    implied.permissions.implied = texts(&["bors.rust.try"]);
    let d = data(
        vec![
            person("member", 1),
            person("alum", 2),
            person("listed", 3),
            permitted,
            implied,
            person("idle", 6),
            person("idle", 7),
        ],
        vec![a],
    );
    assert_eq!(
        run(validate_inactive_members, &d),
        texts(&["person `idle` is not a member of any team and has no permissions"])
    );
}

#[test]
fn a_team_with_unknown_members_makes_nobody_active() {
    let mut a = team("a", &[]);
    a.members = Err("unknown".to_string());
    a.alumni = texts(&["alum"]);
    let d = data(vec![person("alum", 1)], vec![a]);
    assert_eq!(
        run(validate_inactive_members, &d),
        texts(&["unknown", "person `alum` is not a member of any team and has no permissions"])
    );
}

#[test]
fn members_of_teams_with_lists_have_email() {
    let mut missing = person("missing", 1);
    missing.email = Email::Missing;
    let mut disabled = person("disabled", 2);
    disabled.email = Email::Disabled;
    let mut a = team("a", &["missing", "disabled", "present", "stranger"]);
    a.lists = Ok(texts(&["a@rust-lang.org"]));
    let b = team("b", &["missing"]);
    let mut c = team("c", &["missing"]);
    c.lists = Err("lists unknown".to_string());
    let mut d = team("d", &[]);
    d.lists = Ok(texts(&["d@rust-lang.org"]));
    d.members = Err("members unknown".to_string());
    let all = data(vec![missing, disabled, person("present", 3)], vec![a, b, c, d]);
    assert_eq!(
        run(validate_list_email_addresses, &all),
        texts(&[
            "person `missing` is a member of a mailing list but has no email address",
            "lists unknown",
            "members unknown",
        ])
    );
}

#[test]
fn only_the_first_stranger_of_a_list_is_reported() {
    let mut one = list("one@rust-lang.org");
    one.extra_people = texts(&["x", "y", "z"]);
    one.extra_teams = texts(&["a", "b", "c"]);
    let mut two = list("two@rust-lang.org");
    two.extra_people = texts(&["x"]);
    two.extra_teams = texts(&["q"]);
    let mut a = team("a", &[]);
    a.raw_lists = vec![one, two];
    let d = data(vec![person("x", 1)], vec![a]);
    assert_eq!(
        run(validate_list_extra_people, &d),
        texts(&["person `y` does not exist (in list `one@rust-lang.org`)"])
    );
    assert_eq!(
        run(validate_list_extra_teams, &d),
        texts(&[
            "team `b` does not exist (in list `one@rust-lang.org`)",
            "team `q` does not exist (in list `two@rust-lang.org`)",
        ])
    );
}

fn address_errors(address: &str) -> Vec<String> {
    let mut a = team("a", &[]);
    a.raw_lists = vec![list(address)];
    run(validate_list_addresses, &data(vec![], vec![a]))
}

#[test]
fn list_addresses_on_allowed_domains_pass() {
    assert_eq!(address_errors("core@rust-lang.org"), texts(&[]));
    assert_eq!(address_errors("a_b.C-9@crates.io"), texts(&[]));
}

#[test]
fn list_addresses_on_other_domains_are_reported() {
    for address in ["core@example.com", "a@rust-lang.org.x", "a@b", "a@-", "a@Rust-lang.org"] {
        assert_eq!(
            address_errors(address),
            vec![format!("list address on a domain we don't own: `{}`", address)]
        );
    }
}

#[test]
fn invalid_list_addresses_are_reported() {
    for address in [
        "",
        "@",
        "core",
        "@rust-lang.org",
        "core@",
        "a@b@rust-lang.org",
        "a b@rust-lang.org",
        "a+b@rust-lang.org",
        "core@rust-lang.org\n",
        "\ncore@rust-lang.org",
        "é@rust-lang.org",
        "a\\b@rust-lang.org",
    ] {
        assert_eq!(
            address_errors(address),
            vec![format!("invalid list address: `{}`", address)]
        );
    }
}

#[test]
fn characters_of_list_addresses_are_told_apart() {
    for byte in 0u8..128 {
        let c = byte as char;
        let valid = c.is_ascii_alphanumeric() || c == '_' || c == '.' || c == '-';
        let left = format!("a{}b@rust-lang.org", c);
        assert_eq!(address_errors(&left).is_empty(), valid, "{:?}", left);
        let right = format!("a@x{}y", c);
        let expected = if valid {
            format!("list address on a domain we don't own: `{}`", right)
        } else {
            format!("invalid list address: `{}`", right)
        };
        assert_eq!(address_errors(&right), vec![expected]);
    }
}

#[test]
fn email_addresses_hold_an_at() {
    let mut a = person("a", 1);
    a.email = Email::Present("nowhere".to_string());
    let mut b = person("b", 2);
    b.email = Email::Present("@".to_string());
    let mut c = person("c", 3);
    c.email = Email::Missing;
    let mut e = person("e", 4);
    e.email = Email::Present(String::new());
    let d = data(vec![a, b, c, e], vec![]);
    assert_eq!(
        run(validate_people_addresses, &d),
        texts(&["invalid email address of `a`: nowhere", "invalid email address of `e`: "])
    );
}

#[test]
fn permissions_are_not_given_twice() {
    let mut x = person("x", 1);
    x.permissions = direct(&["crater", "perf", "other"]);
    let mut y = person("y", 2);
    y.permissions.implied = texts(&["perf"]);
    let mut z = person("z", 3);
    z.permissions = direct(&["bors.rust.try"]);
    let mut a = team("a", &["x", "y", "z", "stranger"]);
    a.permissions = direct(&["perf", "crater", "other"]);
    a.permissions.implied = texts(&["bors.rust.try"]);
    let mut b = team("b", &[]);
    b.members = Err("unknown".to_string());
    let d = data(vec![x, y, z], vec![a, b, team("c", &["x"])]);
    assert_eq!(
        run(validate_duplicate_permissions, &d),
        texts(&[
            "user `x` has the permission `perf` both explicitly and through the `a` team",
            "user `z` has the permission `bors.rust.try` both explicitly and through the `a` team",
            "unknown",
        ])
    );
}

#[test]
fn faults_of_permissions_name_their_holders() {
    let fault = || {
        Some(PermissionsFault {
            before: "permissions of ".to_string(),
            after: " overlap".to_string(),
        })
    };
    let mut a = team("a", &[]);
    a.permissions.fault = fault();
    let mut x = person("x", 1);
    x.permissions.fault = fault();
    let d = data(vec![x, person("y", 2)], vec![team("b", &[]), a]);
    assert_eq!(
        run(validate_permissions, &d),
        texts(&["permissions of team `a` overlap", "permissions of user `x` overlap"])
    );
}

#[test]
fn holders_of_discord_permissions_have_discord_ids() {
    let mut x = person("x", 1);
    x.permissions = direct(&["discord.two"]);
    let mut y = person("y", 2);
    y.discord_id = Some(7);
    y.permissions = direct(&["discord.one", "discord.two"]);
    let mut a = team("a", &["x", "y", "stranger"]);
    a.permissions = direct(&["discord.one"]);
    let mut b = team("b", &[]);
    b.members = Err("unknown".to_string());
    b.permissions.implied = texts(&["discord.two"]);
    let mut c = team("c", &[]);
    c.members = Err("unread".to_string());
    let d = data(vec![x, y], vec![a, b, c]);
    assert_eq!(
        run(validate_discord_permissions, &d),
        texts(&[
            "person `x` has a Discord permission (`discord.one`) but no Discord ID",
            "missing person stranger",
            "person `x` has a Discord permission (`discord.two`) but no Discord ID",
            "unknown",
        ])
    );
}

fn labelled(name: &str, label: &str, exclude: &[&str], members: &[&str]) -> Team {
    let mut it = team(name, members);
    it.rfcbot =
        Some(Rfcbot { label: label.to_string(), exclude_members: texts(exclude) });
    it
}

#[test]
fn labels_are_used_once() {
    let d = data(
        vec![],
        vec![
            labelled("a", "T-a", &[], &[]),
            labelled("b", "T-b", &[], &[]),
            labelled("c", "T-a", &[], &[]),
            team("d", &[]),
            labelled("e", "T-a", &[], &[]),
        ],
    );
    assert_eq!(
        run(validate_rfcbot_labels, &d),
        texts(&["duplicate rfcbot label: T-a", "duplicate rfcbot label: T-a"])
    );
}

#[test]
fn excluded_members_are_members_named_once() {
    let mut b = labelled("b", "T-b", &[], &[]);
    b.members = Err("unknown".to_string());
    let mut c = team("c", &[]);
    c.members = Err("unread".to_string());
    let d = data(
        vec![],
        vec![labelled("a", "T-a", &["x", "z", "x", "z", "y"], &["x", "y"]), b, c],
    );
    assert_eq!(
        run(validate_rfcbot_exclude_members, &d),
        texts(&[
            "person `z` is not a member of team `a` (in rfcbot.exclude-members)",
            "duplicate member in `a` rfcbot.exclude-members: x",
            "duplicate member in `a` rfcbot.exclude-members: z",
            "unknown",
        ])
    );
}

fn on_github(name: &str, places: &[(&str, &str)]) -> Team {
    let mut it = team(name, &[]);
    it.github_teams = Ok(places
        .iter()
        .map(|(org, name)| GitHubTeam { org: org.to_string(), name: name.to_string() })
        .collect());
    it
}

#[test]
fn github_teams_are_unique_and_in_allowed_orgs() {
    let mut d = team("d", &[]);
    d.github_teams = Err("unknown".to_string());
    let all = data(
        vec![],
        vec![
            on_github("a", &[("rust-lang", "x"), ("elsewhere", "x")]),
            on_github("b", &[("rust-lang-nursery", "x"), ("rust-lang", "x")]),
            on_github("c", &[("rust-lang", "x"), ("elsewhere", "x"), ("rust-lang", "x")]),
            d,
            on_github("e", &[("rust-lang", "y")]),
        ],
    );
    assert_eq!(
        run(validate_github_teams, &all),
        texts(&[
            "GitHub organization `elsewhere` isn't allowed (in team `a`)",
            "GitHub team `rust-lang/x` is defined for both the `b` and `a` teams",
            "GitHub team `rust-lang/x` is defined for both the `c` and `b` teams",
            "GitHub organization `elsewhere` isn't allowed (in team `c`)",
            "GitHub team `rust-lang/x` is defined for both the `c` and `c` teams",
            "unknown",
        ])
    );
}

#[test]
fn accounts_are_asked_about_once() {
    let d = data(vec![person("a", 3), person("b", 1), person("c", 3)], vec![]);
    let mut ids = github_user_ids(&d);
    ids.sort();
    assert_eq!(ids, vec![1, 3]);
}

#[test]
fn changed_usernames_are_reported() {
    let d = data(vec![person("a", 3), person("b", 1), person("c", 3)], vec![]);
    let answer = Ok(vec![(3, "a".to_string()), (1, "b".to_string())]);
    assert!(are_answers_known(&d, &answer));
    let mut errors = texts(&["kept"]);
    validate_github_usernames(&d, &answer, &mut errors);
    assert_eq!(errors, texts(&["kept", "user `c` changed username to `a`"]));
}

#[test]
fn a_missing_answer_is_reported() {
    let d = data(vec![person("a", 3)], vec![]);
    let answer = Err("rate limited".to_string());
    assert!(are_answers_known(&d, &answer));
    let mut errors = vec![];
    validate_github_usernames(&d, &answer, &mut errors);
    assert_eq!(errors, texts(&["couldn't verify GitHub usernames: rate limited"]));
}

#[test]
fn answers_on_other_accounts_are_told_apart() {
    let d = data(vec![person("a", 3)], vec![]);
    assert!(!are_answers_known(&d, &Ok(vec![(3, "a".to_string()), (4, "b".to_string())])));
    assert!(are_answers_known(&d, &Ok(vec![])));
}

#[test]
fn answers_to_what_was_asked_are_known() {
    let d = data(vec![person("a", 3), person("b", 8)], vec![]);
    let answer = github_user_ids(&d).into_iter().map(|id| (id, "n".to_string())).collect();
    assert!(are_answers_known(&d, &Ok(answer)));
}

#[test]
fn lookups_find_the_first_record() {
    let d = data(vec![person("a", 1), person("b", 2), person("a", 3)], vec![team("t", &[])]);
    assert_eq!(d.person("a").unwrap().github_id, 1);
    assert!(d.person("c").is_none());
    assert_eq!(d.team("t").unwrap().name, "t");
    assert!(d.team("T").is_none());
}

#[test]
fn permissions_are_held_by_name_or_along_with_others() {
    let mut p = direct(&["perf"]);
    p.implied = texts(&["crater"]);
    assert!(p.has("perf") && p.has_directly("perf"));
    assert!(p.has("crater") && !p.has_directly("crater"));
    assert!(!p.has("other"));
    assert!(p.has_any());
    assert!(!none().has_any());
    assert_eq!(p.validate("team `a`"), Ok(()));
}

#[test]
fn members_who_are_listed_once_are_reported_once() {
    let d = data(vec![person("x", 1)], vec![team("core", &["y", "x", "z"])]);
    assert_eq!(
        run(validate_team_members, &d),
        texts(&[
            "person `y` is member of team `core` but doesn't exist",
            "person `z` is member of team `core` but doesn't exist",
        ])
    );
}
