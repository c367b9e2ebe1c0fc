//! Validation: which checks are run on the records, and what comes of it.

use vstd::prelude::*;

use crate::checks::{github, hierarchy, lists, membership, naming, permissions, rfcbot};
use crate::findings;
use crate::findings::wrapper;
use crate::schema;
use crate::schema::Data;
use crate::text;

verus! {

/// A check of the records by themselves.
#[derive(Clone, Copy, Debug, PartialEq, Eq, Structural)]
pub enum Check {
    NamePrefixes,
    SubteamOf,
    TeamLeads,
    TeamMembers,
    InactiveMembers,
    ListEmailAddresses,
    ListExtraPeople,
    ListExtraTeams,
    ListAddresses,
    PeopleAddresses,
    DuplicatePermissions,
    Permissions,
    RfcbotLabels,
    RfcbotExcludeMembers,
    TeamNames,
    GithubTeams,
    DiscordPermissions,
    ZulipStreamName,
    ProjectGroupsHaveParentTeams,
}

/// The checks in the order in which they are run.
pub open spec fn checks_in_order() -> Seq<Check> {
    seq![
        Check::NamePrefixes,
        Check::SubteamOf,
        Check::TeamLeads,
        Check::TeamMembers,
        Check::InactiveMembers,
        Check::ListEmailAddresses,
        Check::ListExtraPeople,
        Check::ListExtraTeams,
        Check::ListAddresses,
        Check::PeopleAddresses,
        Check::DuplicatePermissions,
        Check::Permissions,
        Check::RfcbotLabels,
        Check::RfcbotExcludeMembers,
        Check::TeamNames,
        Check::GithubTeams,
        Check::DiscordPermissions,
        Check::ZulipStreamName,
        Check::ProjectGroupsHaveParentTeams,
    ]
}

impl Check {
    /// The name by which the check is skipped.
    pub open spec fn words(self) -> Seq<char> {
        match self {
            Check::NamePrefixes => "validate_name_prefixes"@,
            Check::SubteamOf => "validate_subteam_of"@,
            Check::TeamLeads => "validate_team_leads"@,
            Check::TeamMembers => "validate_team_members"@,
            Check::InactiveMembers => "validate_inactive_members"@,
            Check::ListEmailAddresses => "validate_list_email_addresses"@,
            Check::ListExtraPeople => "validate_list_extra_people"@,
            Check::ListExtraTeams => "validate_list_extra_teams"@,
            Check::ListAddresses => "validate_list_addresses"@,
            Check::PeopleAddresses => "validate_people_addresses"@,
            Check::DuplicatePermissions => "validate_duplicate_permissions"@,
            Check::Permissions => "validate_permissions"@,
            Check::RfcbotLabels => "validate_rfcbot_labels"@,
            Check::RfcbotExcludeMembers => "validate_rfcbot_exclude_members"@,
            Check::TeamNames => "validate_team_names"@,
            Check::GithubTeams => "validate_github_teams"@,
            Check::DiscordPermissions => "validate_discord_permissions"@,
            Check::ZulipStreamName => "validate_zulip_stream_name"@,
            Check::ProjectGroupsHaveParentTeams => "validate_project_groups_have_parent_teams"@,
        }
    }

    /// What the check finds in the records.
    pub open spec fn findings(self, data: Data) -> Seq<Seq<char>> {
        match self {
            Check::NamePrefixes => naming::name_prefix_findings(data),
            Check::SubteamOf => hierarchy::subteam_findings(data),
            Check::TeamLeads => membership::lead_findings(data),
            Check::TeamMembers => membership::member_findings(data),
            Check::InactiveMembers => membership::inactive_findings(data),
            Check::ListEmailAddresses => lists::list_member_findings(data),
            Check::ListExtraPeople => lists::extra_people_findings(data),
            Check::ListExtraTeams => lists::extra_teams_findings(data),
            Check::ListAddresses => lists::list_address_findings(data),
            Check::PeopleAddresses => lists::email_findings(data),
            Check::DuplicatePermissions => permissions::given_twice_findings(data),
            Check::Permissions => permissions::permission_findings(data),
            Check::RfcbotLabels => rfcbot::label_findings(data),
            Check::RfcbotExcludeMembers => rfcbot::exclude_findings(data),
            Check::TeamNames => naming::team_name_findings(data),
            Check::GithubTeams => github::github_findings(data),
            Check::DiscordPermissions => permissions::discord_findings(data),
            Check::ZulipStreamName => naming::zulip_stream_findings(data),
            Check::ProjectGroupsHaveParentTeams => hierarchy::project_group_findings(data),
        }
    }

    /// What the check is there to ensure of the records.
    pub open spec fn holds(self, data: Data) -> bool {
        match self {
            Check::NamePrefixes => naming::names_fit_kinds(data),
            Check::SubteamOf => hierarchy::nested_once(data),
            Check::TeamLeads => membership::leads_are_members(data),
            Check::TeamMembers => membership::members_are_people(data),
            Check::InactiveMembers => membership::people_take_part(data),
            Check::ListEmailAddresses => lists::list_members_have_email(data),
            Check::ListExtraPeople => lists::extra_people_are_real(data),
            Check::ListExtraTeams => lists::extra_teams_are_real(data),
            Check::ListAddresses => lists::list_addresses_are_allowed(data),
            Check::PeopleAddresses => lists::emails_are_valid(data),
            Check::DuplicatePermissions => permissions::permissions_are_given_once(data),
            Check::Permissions => permissions::permissions_are_sound(data),
            Check::RfcbotLabels => rfcbot::labels_differ(data.teams@),
            Check::RfcbotExcludeMembers => rfcbot::exclusions_are_right(data),
            Check::TeamNames => naming::names_are_plain(data),
            Check::GithubTeams => github::github_teams_are_right(data),
            Check::DiscordPermissions => permissions::discord_ids_are_known(data),
            Check::ZulipStreamName => naming::streams_are_named(data),
            Check::ProjectGroupsHaveParentTeams => hierarchy::project_groups_have_parents(data),
        }
    }

    /// The name by which the check is skipped.
    pub fn name(self) -> (name: &'static str)
        ensures
            name@ == self.words(),
    {
        match self {
            Check::NamePrefixes => "validate_name_prefixes",
            Check::SubteamOf => "validate_subteam_of",
            Check::TeamLeads => "validate_team_leads",
            Check::TeamMembers => "validate_team_members",
            Check::InactiveMembers => "validate_inactive_members",
            Check::ListEmailAddresses => "validate_list_email_addresses",
            Check::ListExtraPeople => "validate_list_extra_people",
            Check::ListExtraTeams => "validate_list_extra_teams",
            Check::ListAddresses => "validate_list_addresses",
            Check::PeopleAddresses => "validate_people_addresses",
            Check::DuplicatePermissions => "validate_duplicate_permissions",
            Check::Permissions => "validate_permissions",
            Check::RfcbotLabels => "validate_rfcbot_labels",
            Check::RfcbotExcludeMembers => "validate_rfcbot_exclude_members",
            Check::TeamNames => "validate_team_names",
            Check::GithubTeams => "validate_github_teams",
            Check::DiscordPermissions => "validate_discord_permissions",
            Check::ZulipStreamName => "validate_zulip_stream_name",
            Check::ProjectGroupsHaveParentTeams => "validate_project_groups_have_parent_teams",
        }
    }

    /// The checks in the order in which they are run.
    pub fn in_order() -> (checks: Vec<Check>)
        ensures
            checks@ == checks_in_order(),
    {
        vec![
            Check::NamePrefixes,
            Check::SubteamOf,
            Check::TeamLeads,
            Check::TeamMembers,
            Check::InactiveMembers,
            Check::ListEmailAddresses,
            Check::ListExtraPeople,
            Check::ListExtraTeams,
            Check::ListAddresses,
            Check::PeopleAddresses,
            Check::DuplicatePermissions,
            Check::Permissions,
            Check::RfcbotLabels,
            Check::RfcbotExcludeMembers,
            Check::TeamNames,
            Check::GithubTeams,
            Check::DiscordPermissions,
            Check::ZulipStreamName,
            Check::ProjectGroupsHaveParentTeams,
        ]
    }

    /// Runs the check.
    pub fn run(self, data: &Data, errors: &mut Vec<String>)
        ensures
            final(errors).deep_view() == old(errors).deep_view() + self.findings(*data),
    {
        match self {
            Check::NamePrefixes => naming::validate_name_prefixes(data, errors),
            Check::SubteamOf => hierarchy::validate_subteam_of(data, errors),
            Check::TeamLeads => membership::validate_team_leads(data, errors),
            Check::TeamMembers => membership::validate_team_members(data, errors),
            Check::InactiveMembers => membership::validate_inactive_members(data, errors),
            Check::ListEmailAddresses => lists::validate_list_email_addresses(data, errors),
            Check::ListExtraPeople => lists::validate_list_extra_people(data, errors),
            Check::ListExtraTeams => lists::validate_list_extra_teams(data, errors),
            Check::ListAddresses => lists::validate_list_addresses(data, errors),
            Check::PeopleAddresses => lists::validate_people_addresses(data, errors),
            Check::DuplicatePermissions => {
                permissions::validate_duplicate_permissions(data, errors)
            },
            Check::Permissions => permissions::validate_permissions(data, errors),
            Check::RfcbotLabels => rfcbot::validate_rfcbot_labels(data, errors),
            Check::RfcbotExcludeMembers => rfcbot::validate_rfcbot_exclude_members(data, errors),
            Check::TeamNames => naming::validate_team_names(data, errors),
            Check::GithubTeams => github::validate_github_teams(data, errors),
            Check::DiscordPermissions => permissions::validate_discord_permissions(data, errors),
            Check::ZulipStreamName => naming::validate_zulip_stream_name(data, errors),
            Check::ProjectGroupsHaveParentTeams => {
                hierarchy::validate_project_groups_have_parent_teams(data, errors)
            },
        }
    }
}

/// The name by which the check of the names of GitHub accounts is skipped.
pub const GITHUB_CHECK: &'static str = "validate_github_usernames";

/// Whether a check is to be skipped.
pub open spec fn skips(skip: Seq<&str>, name: Seq<char>) -> bool {
    exists|i: int| 0 <= i < skip.len() && (#[trigger] skip[i])@ == name
}

/// Whether a check is to be skipped.
pub fn is_skipped(skip: &[&str], name: &str) -> (yes: bool)
    ensures
        yes == skips(skip@, name@),
{
    let mut i: usize = 0;
    while i < skip.len()
        invariant
            i <= skip.len(),
            forall|j: int| 0 <= j < i ==> (#[trigger] skip@[j])@ != name@,
        decreases skip.len() - i,
    {
        if text::same_text(skip[i], name) {
            assert(skip@[i as int]@ == name@);
            return true;
        }
        i += 1;
    }
    false
}

/// The checks of the records by themselves that are to be skipped, in the order in which
/// they would be run.
pub open spec fn skipped_in_order(skip: Seq<&str>) -> Seq<Check> {
    checks_in_order().filter(|check: Check| skips(skip, check.words()))
}

/// The checks of the records by themselves that are to be skipped, in the order in which
/// they would be run.
pub fn skipped_checks(skip: &[&str]) -> (checks: Vec<Check>)
    ensures
        checks@ == skipped_in_order(skip@),
{
    let order = Check::in_order();
    let ghost skipped = |check: Check| skips(skip@, check.words());
    let mut checks: Vec<Check> = Vec::new();
    let mut i: usize = 0;
    proof {
        reveal(Seq::filter);
    }
    while i < order.len()
        invariant
            i <= order.len(),
            skipped == (|check: Check| skips(skip@, check.words())),
            checks@ == order@.take(i as int).filter(skipped),
        decreases order.len() - i,
    {
        let check = order[i];
        proof {
            order@.take(i as int).lemma_filter_push(check, skipped);
            assert(order@.take(i + 1) =~= order@.take(i as int).push(check));
        }
        if is_skipped(skip, check.name()) {
            checks.push(check);
        }
        i += 1;
    }
    assert(order@.take(order.len() as int) =~= checks_in_order());
    checks
}

/// The warning that a check is skipped.
pub open spec fn skip_warning(name: Seq<char>) -> Seq<char> {
    "skipped check: "@ + name
}

/// What is warned of once it is known whether GitHub can be asked: what is not checked for
/// that, and why.
pub open spec fn github_warnings(strict: bool, skip: Seq<&str>, auth: Result<(), String>) -> Seq<
    Seq<char>,
> {
    match auth {
        Err(cause) => if strict {
            seq![]
        } else {
            seq![
                "couldn't perform checks relying on the GitHub API, some errors will not be detected"@,
                "cause: "@ + cause@,
            ]
        },
        Ok(_) => if skips(skip, GITHUB_CHECK@) {
            seq![skip_warning(GITHUB_CHECK@)]
        } else {
            seq![]
        },
    }
}

/// What validation warns of, whatever it finds: each check that is skipped, in the order of
/// the checks, and what is not checked for want of GitHub.
pub open spec fn all_warnings(strict: bool, skip: Seq<&str>, auth: Result<(), String>) -> Seq<
    Seq<char>,
> {
    findings::each(skipped_in_order(skip), |check: Check| seq![skip_warning(check.words())])
        + github_warnings(strict, skip, auth)
}

/// What validation warns of, whatever it finds.
pub fn warnings(strict: bool, skip: &[&str], auth: &Result<(), String>) -> (lines: Vec<String>)
    ensures
        lines.deep_view() == all_warnings(strict, skip@, *auth),
{
    let rule = |check: &Check, lines: Vec<String>| -> (out: (Vec<String>, Result<(), String>))
        ensures
            findings::outcome(out) == lines.deep_view() + seq![skip_warning(check.words())],
        { (lines, Err("skipped check: ".to_owned().concat(check.name()))) };
    assert(findings::adds(rule, |check: Check| seq![skip_warning(check.words())]));
    let mut lines: Vec<String> = Vec::new();
    wrapper(&skipped_checks(skip), &mut lines, rule);
    let ghost before = lines.deep_view();
    match auth {
        Err(cause) => {
            if !strict {
                lines.push(
                    "couldn't perform checks relying on the GitHub API, some errors will not be detected".to_owned(),
                );
                lines.push("cause: ".to_owned().concat(cause.as_str()));
            }
        },
        Ok(()) => {
            if is_skipped(skip, GITHUB_CHECK) {
                lines.push("skipped check: ".to_owned().concat(GITHUB_CHECK));
            }
        },
    }
    assert(lines.deep_view() =~= before + github_warnings(strict, skip@, *auth));
    assert(lines.deep_view() =~= all_warnings(strict, skip@, *auth));
    lines
}

/// What a check adds to the findings, which is nothing if it is skipped.
pub open spec fn unskipped_findings(check: Check, data: Data, skip: Seq<&str>) -> Seq<Seq<char>> {
    if skips(skip, check.words()) {
        seq![]
    } else {
        check.findings(data)
    }
}

/// What the checks that are not skipped find in the records by themselves.
pub open spec fn record_findings(data: Data, skip: Seq<&str>) -> Seq<Seq<char>> {
    findings::each(checks_in_order(), |check: Check| unskipped_findings(check, data, skip))
}

/// Runs the checks of the records by themselves that are not skipped.
pub fn run_checks(data: &Data, skip: &[&str]) -> (errors: Vec<String>)
    ensures
        errors.deep_view() == record_findings(*data, skip@),
{
    let rule = |check: &Check, errors: Vec<String>| -> (out: (Vec<String>, Result<(), String>))
        ensures
            findings::outcome(out) == errors.deep_view() + unskipped_findings(*check, *data, skip@),
        {
            let mut errors = errors;
            if !is_skipped(skip, check.name()) {
                check.run(data, &mut errors);
            }
            (errors, Ok(()))
        };
    assert(findings::adds(rule, |check: Check| unskipped_findings(check, *data, skip@)));
    let mut errors: Vec<String> = Vec::new();
    wrapper(&Check::in_order(), &mut errors, rule);
    assert(errors.deep_view() =~= record_findings(*data, skip@));
    errors
}

/// What is to be done once it is known whether GitHub can be asked.
#[derive(Debug)]
pub enum GithubStep {
    /// Validation fails: GitHub cannot be asked and has to be.
    Fail(String),
    /// Validation goes on without GitHub, which cannot be asked.
    GoWithout(String),
    /// Validation goes on without GitHub, as the check that would ask it is skipped.
    Skip,
    /// GitHub is to be asked for the names of the accounts with these numbers.
    Ask(Vec<u64>),
}

/// Says what is to be done once it is known whether GitHub can be asked.
pub fn github_step(
    data: &Data,
    strict: bool,
    skip: &[&str],
    auth: &Result<(), String>,
) -> (step: GithubStep)
    ensures
        match *auth {
            Err(cause) => if strict {
                step matches GithubStep::Fail(message) && message@ == cause@
            } else {
                step matches GithubStep::GoWithout(message) && message@ == cause@
            },
            Ok(_) => if skips(skip@, GITHUB_CHECK@) {
                step is Skip
            } else {
                &&& step matches GithubStep::Ask(ids)
                &&& ids@.no_duplicates()
                &&& forall|id: u64| #[trigger]
                    ids@.contains(id) <==> exists|i: int|
                        0 <= i < data.people.len() && (#[trigger] data.people@[i]).github_id == id
            },
        },
{
    match auth {
        Err(cause) => if strict {
            GithubStep::Fail(cause.clone())
        } else {
            GithubStep::GoWithout(cause.clone())
        },
        Ok(()) => if is_skipped(skip, GITHUB_CHECK) {
            GithubStep::Skip
        } else {
            GithubStep::Ask(github::github_user_ids(data))
        },
    }
}

/// Why validation failed.
#[derive(Debug)]
pub enum Failure {
    /// GitHub could not be asked, for this reason.
    Unauthorized(String),
    /// These errors were found; they are in order, each of them once.
    Invalid(Vec<String>),
}

impl Failure {
    /// The failure in words.
    pub open spec fn words(self) -> Seq<char> {
        match self {
            Failure::Unauthorized(cause) => cause@,
            Failure::Invalid(errors) => text::decimal(errors.len() as int)
                + " validation errors found"@,
        }
    }

    /// The failure in words.
    pub fn message(&self) -> (message: String)
        ensures
            message@ == self.words(),
    {
        match self {
            Failure::Unauthorized(cause) => cause.clone(),
            Failure::Invalid(errors) => text::decimal_text(errors.len()).concat(
                " validation errors found",
            ),
        }
    }

    /// What is reported of the failure, besides the failure itself: each error that was
    /// found.
    pub open spec fn report(self) -> Seq<Seq<char>> {
        match self {
            Failure::Unauthorized(_) => seq![],
            Failure::Invalid(errors) => errors.deep_view().map_values(
                |error: Seq<char>| "validation error: "@ + error,
            ),
        }
    }

    /// What is reported of the failure, besides the failure itself: each error that was
    /// found.
    pub fn lines(&self) -> (lines: Vec<String>)
        ensures
            lines.deep_view() == self.report(),
    {
        let mut lines: Vec<String> = Vec::new();
        match self {
            Failure::Unauthorized(_) => {},
            Failure::Invalid(errors) => {
                let mut i: usize = 0;
                while i < errors.len()
                    invariant
                        i <= errors.len(),
                        lines.len() == i,
                        forall|j: int|
                            0 <= j < i ==> (#[trigger] lines@[j])@ == "validation error: "@
                                + errors@[j]@,
                    decreases errors.len() - i,
                {
                    lines.push("validation error: ".to_owned().concat(errors[i].as_str()));
                    i += 1;
                }
            },
        }
        assert(lines.deep_view() =~= self.report());
        lines
    }
}

/// Whether `result` is what comes of the findings: success if there are none, and
/// otherwise a failure that reports them in order, each of them once.
pub open spec fn concludes(found: Seq<Seq<char>>, result: Result<(), Failure>) -> bool {
    if found.len() == 0 {
        result is Ok
    } else {
        result matches Err(Failure::Invalid(errors)) && findings::ascending(errors.deep_view())
            && findings::same_findings(errors.deep_view(), found)
    }
}

/// What comes of findings.
pub fn conclude(errors: Vec<String>) -> (result: Result<(), Failure>)
    ensures
        concludes(errors.deep_view(), result),
{
    if errors.len() == 0 {
        Ok(())
    } else {
        Err(Failure::Invalid(findings::sort_and_dedup(errors)))
    }
}

/// Whether GitHub is asked for the names of accounts.
pub open spec fn asks_github(skip: Seq<&str>, auth: Result<(), String>) -> bool {
    auth is Ok && !skips(skip, GITHUB_CHECK@)
}

/// All that the checks that are not skipped find.
pub open spec fn all_findings(
    data: Data,
    skip: Seq<&str>,
    auth: Result<(), String>,
    usernames: Result<Vec<(u64, String)>, String>,
) -> Seq<Seq<char>> {
    record_findings(data, skip) + if asks_github(skip, auth) {
        github::username_findings(data, usernames)
    } else {
        seq![]
    }
}

/// Whether `result` is what comes of validation: the reason why GitHub could not be asked
/// if it had to be, and otherwise what comes of the findings.
pub open spec fn comes_of(
    data: Data,
    strict: bool,
    skip: Seq<&str>,
    auth: Result<(), String>,
    usernames: Result<Vec<(u64, String)>, String>,
    result: Result<(), Failure>,
) -> bool {
    match auth {
        Err(cause) if strict => result matches Err(Failure::Unauthorized(message)) && message@
            == cause@,
        _ => concludes(all_findings(data, skip, auth, usernames), result),
    }
}

/// Validates the records: runs the checks that are not skipped and says what comes of it.
///
/// `auth` says whether GitHub can be asked, or why not; that it cannot is a failure if
/// validation is strict. `usernames` is what it answered, and is read only if it was
/// asked. What is to be warned of, [`warnings`] says.
pub fn validate(
    data: &Data,
    strict: bool,
    skip: &[&str],
    auth: &Result<(), String>,
    usernames: &Result<Vec<(u64, String)>, String>,
) -> (result: Result<(), Failure>)
    requires
        asks_github(skip@, *auth) ==> github::answers_known(*data, *usernames),
    ensures
        comes_of(*data, strict, skip@, *auth, *usernames, result),
{
    let mut errors = run_checks(data, skip);
    match auth {
        Err(cause) => {
            if strict {
                return Err(Failure::Unauthorized(cause.clone()));
            }
        },
        Ok(()) => {
            if !is_skipped(skip, GITHUB_CHECK) {
                github::validate_github_usernames(data, usernames, &mut errors);
            }
        },
    }
    assert(errors.deep_view() =~= all_findings(*data, skip@, *auth, *usernames));
    conclude(errors)
}

/// Every check is run, and each of them once.
pub proof fn law_every_check(check: Check)
    ensures
        checks_in_order().contains(check),
        checks_in_order().no_duplicates(),
{
    let order = checks_in_order();
    assert(order[0] == Check::NamePrefixes);
    assert(order[1] == Check::SubteamOf);
    assert(order[2] == Check::TeamLeads);
    assert(order[3] == Check::TeamMembers);
    assert(order[4] == Check::InactiveMembers);
    assert(order[5] == Check::ListEmailAddresses);
    assert(order[6] == Check::ListExtraPeople);
    assert(order[7] == Check::ListExtraTeams);
    assert(order[8] == Check::ListAddresses);
    assert(order[9] == Check::PeopleAddresses);
    assert(order[10] == Check::DuplicatePermissions);
    assert(order[11] == Check::Permissions);
    assert(order[12] == Check::RfcbotLabels);
    assert(order[13] == Check::RfcbotExcludeMembers);
    assert(order[14] == Check::TeamNames);
    assert(order[15] == Check::GithubTeams);
    assert(order[16] == Check::DiscordPermissions);
    assert(order[17] == Check::ZulipStreamName);
    assert(order[18] == Check::ProjectGroupsHaveParentTeams);
}

/// If a check finds nothing, what it is there to ensure holds. As long as no two teams go
/// by one name, the converse holds too.
pub proof fn law_check(check: Check, data: Data)
    ensures
        check.findings(data).len() == 0 ==> check.holds(data),
        schema::named_once(data.teams@) && check.holds(data) ==> check.findings(data).len() == 0,
{
    match check {
        Check::NamePrefixes => naming::law_name_prefixes(data),
        Check::SubteamOf => hierarchy::law_subteams(data),
        Check::TeamLeads => membership::law_team_leads(data),
        Check::TeamMembers => membership::law_team_members(data),
        Check::InactiveMembers => membership::law_inactive_members(data),
        Check::ListEmailAddresses => lists::law_list_email_addresses(data),
        Check::ListExtraPeople => lists::law_list_extra_people(data),
        Check::ListExtraTeams => lists::law_list_extra_teams(data),
        Check::ListAddresses => lists::law_list_addresses(data),
        Check::PeopleAddresses => lists::law_people_addresses(data),
        Check::DuplicatePermissions => permissions::law_duplicate_permissions(data),
        Check::Permissions => permissions::law_permissions(data),
        Check::RfcbotLabels => rfcbot::law_rfcbot_labels(data),
        Check::RfcbotExcludeMembers => rfcbot::law_rfcbot_exclude_members(data),
        Check::TeamNames => naming::law_team_names(data),
        Check::GithubTeams => github::law_github_teams(data),
        Check::DiscordPermissions => permissions::law_discord_permissions(data),
        Check::ZulipStreamName => naming::law_zulip_stream_names(data),
        Check::ProjectGroupsHaveParentTeams => hierarchy::law_project_groups(data),
    }
}

/// What tells the name of a check from those of the others: its length and two of its
/// characters.
spec fn marks(check: Check) -> (int, char, char) {
    match check {
        Check::NamePrefixes => (22, 'n', 'p'),
        Check::SubteamOf => (19, 's', 'a'),
        Check::TeamLeads => (19, 't', 'l'),
        Check::TeamMembers => (21, 't', 'm'),
        Check::InactiveMembers => (25, 'i', 'i'),
        Check::ListEmailAddresses => (29, 'l', 'e'),
        Check::ListExtraPeople => (26, 'l', 'e'),
        Check::ListExtraTeams => (25, 'l', 'e'),
        Check::ListAddresses => (23, 'l', 'a'),
        Check::PeopleAddresses => (25, 'p', 'e'),
        Check::DuplicatePermissions => (30, 'd', 'c'),
        Check::Permissions => (20, 'p', 's'),
        Check::RfcbotLabels => (22, 'r', 't'),
        Check::RfcbotExcludeMembers => (31, 'r', 't'),
        Check::TeamNames => (19, 't', 'n'),
        Check::GithubTeams => (21, 'g', 'b'),
        Check::DiscordPermissions => (28, 'd', 'r'),
        Check::ZulipStreamName => (26, 'z', '_'),
        Check::ProjectGroupsHaveParentTeams => (41, 'p', 'c'),
    }
}

proof fn lemma_marks(check: Check)
    ensures
        check.words().len() == marks(check).0,
        check.words()[9] == marks(check).1,
        check.words()[14] == marks(check).2,
{
    match check {
        Check::NamePrefixes => {
            reveal_strlit("validate_name_prefixes");
        },
        Check::SubteamOf => {
            reveal_strlit("validate_subteam_of");
        },
        Check::TeamLeads => {
            reveal_strlit("validate_team_leads");
        },
        Check::TeamMembers => {
            reveal_strlit("validate_team_members");
        },
        Check::InactiveMembers => {
            reveal_strlit("validate_inactive_members");
        },
        Check::ListEmailAddresses => {
            reveal_strlit("validate_list_email_addresses");
        },
        Check::ListExtraPeople => {
            reveal_strlit("validate_list_extra_people");
        },
        Check::ListExtraTeams => {
            reveal_strlit("validate_list_extra_teams");
        },
        Check::ListAddresses => {
            reveal_strlit("validate_list_addresses");
        },
        Check::PeopleAddresses => {
            reveal_strlit("validate_people_addresses");
        },
        Check::DuplicatePermissions => {
            reveal_strlit("validate_duplicate_permissions");
        },
        Check::Permissions => {
            reveal_strlit("validate_permissions");
        },
        Check::RfcbotLabels => {
            reveal_strlit("validate_rfcbot_labels");
        },
        Check::RfcbotExcludeMembers => {
            reveal_strlit("validate_rfcbot_exclude_members");
        },
        Check::TeamNames => {
            reveal_strlit("validate_team_names");
        },
        Check::GithubTeams => {
            reveal_strlit("validate_github_teams");
        },
        Check::DiscordPermissions => {
            reveal_strlit("validate_discord_permissions");
        },
        Check::ZulipStreamName => {
            reveal_strlit("validate_zulip_stream_name");
        },
        Check::ProjectGroupsHaveParentTeams => {
            reveal_strlit("validate_project_groups_have_parent_teams");
        },
    }
}

/// No two checks are skipped by one name.
pub proof fn law_check_names_differ(a: Check, b: Check)
    ensures
        a.words() == b.words() ==> a == b,
        a.words() != GITHUB_CHECK@,
{
    lemma_marks(a);
    lemma_marks(b);
    reveal_strlit("validate_github_usernames");
    assert(GITHUB_CHECK@.len() == 25 && GITHUB_CHECK@[9] == 'g');
}

/// What is found in the records by themselves is what one of the checks that are not
/// skipped finds.
pub proof fn law_found_by_a_check(data: Data, skip: Seq<&str>, message: Seq<char>)
    ensures
        record_findings(data, skip).contains(message) <==> exists|check: Check|
            !skips(skip, check.words()) && #[trigger] check.findings(data).contains(message),
{
    let order = checks_in_order();
    let rule = |check: Check| unskipped_findings(check, data, skip);
    findings::law_each_contains(order, rule, message);
    if exists|check: Check|
        !skips(skip, check.words()) && #[trigger] check.findings(data).contains(message) {
        let check = choose|check: Check|
            !skips(skip, check.words()) && #[trigger] check.findings(data).contains(message);
        law_every_check(check);
        let i = choose|i: int| 0 <= i < order.len() && order[i] == check;
        assert(rule(order[i]).contains(message));
    }
    if record_findings(data, skip).contains(message) {
        let i = choose|i: int|
            #![trigger order[i]]
            0 <= i < order.len() && rule(order[i]).contains(message);
        assert(!skips(skip, order[i].words()) && order[i].findings(data).contains(message));
    }
}

/// Nothing is found in the records by themselves exactly if none of the checks that are
/// not skipped finds anything.
pub proof fn law_nothing_found(data: Data, skip: Seq<&str>)
    ensures
        record_findings(data, skip).len() == 0 <==> forall|check: Check|
            !skips(skip, check.words()) ==> (#[trigger] check.findings(data)).len() == 0,
{
    let order = checks_in_order();
    let rule = |check: Check| unskipped_findings(check, data, skip);
    findings::law_each_empty(order, rule);
    if record_findings(data, skip).len() == 0 {
        assert forall|check: Check| !skips(skip, check.words()) implies (
        #[trigger] check.findings(data)).len() == 0 by {
            law_every_check(check);
            let i = choose|i: int| 0 <= i < order.len() && order[i] == check;
            assert(rule(order[i]).len() == 0);
        }
    }
}

/// If nothing is found in the records by themselves, all that the checks that are not
/// skipped are there to ensure holds of them. As long as no two teams go by one name, the
/// converse holds too.
pub proof fn law_valid_records(data: Data, skip: Seq<&str>)
    ensures
        record_findings(data, skip).len() == 0 ==> forall|check: Check|
            !skips(skip, check.words()) ==> #[trigger] check.holds(data),
        schema::named_once(data.teams@) && (forall|check: Check|
            !skips(skip, check.words()) ==> #[trigger] check.holds(data)) ==> record_findings(
            data,
            skip,
        ).len() == 0,
{
    law_nothing_found(data, skip);
    assert forall|check: Check| true implies {
        &&& (#[trigger] check.findings(data)).len() == 0 ==> check.holds(data)
        &&& schema::named_once(data.teams@) && check.holds(data) ==> check.findings(data).len() == 0
    } by {
        law_check(check, data);
    }
    if record_findings(data, skip).len() == 0 {
        assert forall|check: Check| !skips(skip, check.words()) implies #[trigger] check.holds(
            data,
        ) by {
            assert(check.findings(data).len() == 0);
        }
    }
}

/// To skip more adds no findings.
pub proof fn law_skipping_adds_nothing(
    data: Data,
    skip: Seq<&str>,
    more: Seq<&str>,
    message: Seq<char>,
)
    requires
        forall|name: Seq<char>| #[trigger] skips(skip, name) ==> skips(more, name),
        record_findings(data, more).contains(message),
    ensures
        record_findings(data, skip).contains(message),
{
    law_found_by_a_check(data, more, message);
    law_found_by_a_check(data, skip, message);
    let check = choose|check: Check|
        !skips(more, check.words()) && #[trigger] check.findings(data).contains(message);
    assert(!skips(skip, check.words()));
}

/// What is found depends on which checks are skipped, and on nothing else that the list of
/// names to skip has to it: not on its order, on repetitions or on names of no check.
pub proof fn law_skip_by_checks(
    data: Data,
    a: Seq<&str>,
    b: Seq<&str>,
    auth: Result<(), String>,
    usernames: Result<Vec<(u64, String)>, String>,
)
    requires
        forall|check: Check|
            skips(a, #[trigger] check.words()) <==> skips(b, check.words()),
        skips(a, GITHUB_CHECK@) <==> skips(b, GITHUB_CHECK@),
    ensures
        all_findings(data, a, auth, usernames) == all_findings(data, b, auth, usernames),
{
    assert forall|check: Check| true implies #[trigger] unskipped_findings(check, data, a)
        == unskipped_findings(check, data, b) by {
        assert(skips(a, check.words()) <==> skips(b, check.words()));
    }
    assert((|check: Check| unskipped_findings(check, data, a)) =~= (|check: Check|
        unskipped_findings(check, data, b)));
}

proof fn lemma_filter_keeps_once(checks: Seq<Check>, kept: spec_fn(Check) -> bool)
    requires
        checks.no_duplicates(),
    ensures
        checks.filter(kept).no_duplicates(),
    decreases checks.len(),
{
    reveal(Seq::filter);
    if checks.len() > 0 {
        let init = checks.drop_last();
        lemma_filter_keeps_once(init, kept);
        assert forall|i: int| 0 <= i < init.filter(kept).len() implies #[trigger] init.filter(
            kept,
        )[i] != checks.last() by {
            assert(init.filter(kept).contains(init.filter(kept)[i]));
            init.lemma_filter_contains_rev(kept, init.filter(kept)[i]);
        }
    }
}

/// The checks that are said to be skipped are those whose names are to be skipped, each of
/// them once, however often it is named.
pub proof fn law_skipped_once(skip: Seq<&str>, check: Check)
    ensures
        skipped_in_order(skip).contains(check) <==> skips(skip, check.words()),
        skipped_in_order(skip).no_duplicates(),
{
    let order = checks_in_order();
    let skipped = |check: Check| skips(skip, check.words());
    law_every_check(check);
    lemma_filter_keeps_once(order, skipped);
    let i = choose|i: int| 0 <= i < order.len() && order[i] == check;
    if skipped(check) {
        order.lemma_filter_contains(skipped, i);
    }
    if order.filter(skipped).contains(check) {
        let k = choose|k: int|
            0 <= k < order.filter(skipped).len() && order.filter(skipped)[k] == check;
        order.lemma_filter_pred(skipped, k);
    }
}

/// Nothing is warned of twice.
pub proof fn law_warned_once(strict: bool, skip: Seq<&str>, auth: Result<(), String>)
    ensures
        all_warnings(strict, skip, auth).no_duplicates(),
{
    let checks = skipped_in_order(skip);
    let rule = |check: Check| seq![skip_warning(check.words())];
    let of_checks = findings::each(checks, rule);
    let of_github = github_warnings(strict, skip, auth);
    law_skipped_once(skip, Check::NamePrefixes);
    assert forall|a: Seq<char>, b: Seq<char>| #[trigger] skip_warning(a) == #[trigger] skip_warning(
        b,
    ) implies a == b by {
        let n = "skipped check: "@.len() as int;
        assert(skip_warning(a).skip(n) =~= a);
        assert(skip_warning(b).skip(n) =~= b);
    }
    assert forall|i: int, j: int, message: Seq<char>|
        #![trigger rule(checks[i]).contains(message), rule(checks[j])]
        0 <= i < j < checks.len() && rule(checks[i]).contains(message) implies !rule(
        checks[j],
    ).contains(message) by {
        law_check_names_differ(checks[i], checks[j]);
    }
    findings::law_each_once(checks, rule);
    reveal_strlit("skipped check: ");
    reveal_strlit(
        "couldn't perform checks relying on the GitHub API, some errors will not be detected",
    );
    reveal_strlit("cause: ");
    assert(of_github.no_duplicates()) by {
        if of_github.len() == 2 {
            assert(of_github[0][1] != of_github[1][1]);
        }
    }
    assert forall|a: int, b: int|
        0 <= a < of_checks.len() && 0 <= b < of_github.len() implies of_checks[a]
        != of_github[b] by {
        assert(of_checks.contains(of_checks[a]));
        findings::law_each_contains(checks, rule, of_checks[a]);
        let i = choose|i: int|
            #![trigger checks[i]]
            0 <= i < checks.len() && rule(checks[i]).contains(of_checks[a]);
        law_check_names_differ(checks[i], checks[i]);
        assert(of_checks[a][0] == 's');
    }
}

/// What is warned of depends on which checks are skipped, and on nothing else that the list
/// of names to skip has to it: not on its order, on repetitions or on names of no check.
pub proof fn law_warnings_by_checks(
    strict: bool,
    a: Seq<&str>,
    b: Seq<&str>,
    auth: Result<(), String>,
)
    requires
        forall|check: Check|
            skips(a, #[trigger] check.words()) <==> skips(b, check.words()),
        skips(a, GITHUB_CHECK@) <==> skips(b, GITHUB_CHECK@),
    ensures
        all_warnings(strict, a, auth) == all_warnings(strict, b, auth),
{
    assert((|check: Check| skips(a, check.words())) =~= (|check: Check| skips(b, check.words())));
}

/// Validation succeeds exactly if GitHub could be asked or did not have to be, and nothing
/// is found. Then all that the checks that are not skipped are there to ensure holds of
/// the records, and the names of accounts are those that GitHub answered, if it was asked.
pub proof fn law_success(
    data: Data,
    strict: bool,
    skip: Seq<&str>,
    auth: Result<(), String>,
    usernames: Result<Vec<(u64, String)>, String>,
    result: Result<(), Failure>,
)
    requires
        asks_github(skip, auth) ==> github::answers_known(data, usernames),
        comes_of(data, strict, skip, auth, usernames, result),
    ensures
        result is Ok <==> {
            &&& strict ==> auth is Ok
            &&& record_findings(data, skip).len() == 0
            &&& asks_github(skip, auth) ==> github::names_unchanged(data, usernames)
        },
        result is Ok ==> forall|check: Check|
            !skips(skip, check.words()) ==> #[trigger] check.holds(data),
{
    if asks_github(skip, auth) {
        github::law_github_usernames(data, usernames);
    }
    law_valid_records(data, skip);
}

/// If GitHub answers on accounts that it was asked about only, its answer can be read.
pub proof fn law_answers_to_what_was_asked(
    data: Data,
    ids: Seq<u64>,
    usernames: Result<Vec<(u64, String)>, String>,
)
    requires
        forall|id: u64| #[trigger]
            ids.contains(id) ==> exists|i: int|
                0 <= i < data.people.len() && (#[trigger] data.people@[i]).github_id == id,
        usernames matches Ok(names) ==> forall|i: int|
            0 <= i < names.len() ==> ids.contains((#[trigger] names@[i]).0),
    ensures
        github::answers_known(data, usernames),
{
    if usernames is Ok {
        let names = usernames->Ok_0;
        assert forall|i: int| 0 <= i < names.len() implies github::last_with_id(
            data.people@,
            (#[trigger] names@[i]).0,
        ) is Some by {
            assert(ids.contains(names@[i].0));
            github::law_account_lookup(data.people@, names@[i].0);
        }
    }
}

/// Whether two results say the same.
pub open spec fn same_result(a: Result<(), Failure>, b: Result<(), Failure>) -> bool {
    match (a, b) {
        (Ok(_), Ok(_)) => true,
        (Err(Failure::Unauthorized(x)), Err(Failure::Unauthorized(y))) => x@ == y@,
        (Err(Failure::Invalid(x)), Err(Failure::Invalid(y))) => x.deep_view() == y.deep_view(),
        _ => false,
    }
}

/// The order in which errors are found, and how often, make no difference to what comes of
/// them.
pub proof fn law_order_leaves_no_trace(
    a: Seq<Seq<char>>,
    b: Seq<Seq<char>>,
    x: Result<(), Failure>,
    y: Result<(), Failure>,
)
    requires
        findings::same_findings(a, b),
        concludes(a, x),
        concludes(b, y),
    ensures
        same_result(x, y),
{
    if a.len() > 0 {
        assert(a.contains(a[0]));
    }
    if b.len() > 0 {
        assert(b.contains(b[0]));
    }
    if a.len() > 0 && b.len() > 0 {
        let s = x->Err_0->Invalid_0.deep_view();
        let t = y->Err_0->Invalid_0.deep_view();
        assert forall|message: Seq<char>| #[trigger] s.contains(message) <==> t.contains(
            message,
        ) by {
            assert(a.contains(message) <==> b.contains(message));
        }
        findings::law_one_report(s, t);
    }
}

/// To be strict makes a difference only if GitHub cannot be asked.
pub proof fn law_strict_matters_without_github(
    data: Data,
    skip: Seq<&str>,
    auth: Result<(), String>,
    usernames: Result<Vec<(u64, String)>, String>,
    strict: Result<(), Failure>,
    lenient: Result<(), Failure>,
)
    requires
        auth is Ok,
        comes_of(data, true, skip, auth, usernames, strict),
        comes_of(data, false, skip, auth, usernames, lenient),
    ensures
        same_result(strict, lenient),
{
    let found = all_findings(data, skip, auth, usernames);
    law_order_leaves_no_trace(found, found, strict, lenient);
}

/// If GitHub cannot be asked and need not be, what comes of validation is what comes of
/// the checks of the records by themselves.
pub proof fn law_without_github(
    data: Data,
    skip: Seq<&str>,
    auth: Result<(), String>,
    usernames: Result<Vec<(u64, String)>, String>,
    result: Result<(), Failure>,
)
    requires
        auth is Err,
        comes_of(data, false, skip, auth, usernames, result),
    ensures
        concludes(record_findings(data, skip), result),
{
    assert(all_findings(data, skip, auth, usernames) =~= record_findings(data, skip));
}

/// The number that a failure speaks of is that of the different errors that were found.
pub proof fn law_number_of_errors(found: Seq<Seq<char>>, result: Result<(), Failure>)
    requires
        found.len() > 0,
        concludes(found, result),
    ensures
        result->Err_0.words() == text::decimal(found.to_set().len() as int)
            + " validation errors found"@,
{
    let errors = result->Err_0->Invalid_0.deep_view();
    assert(errors.no_duplicates()) by {
        assert forall|i: int, j: int|
            0 <= i < errors.len() && 0 <= j < errors.len() && i != j implies errors[i]
            != errors[j] by {
            text::law_precedes_irreflexive(errors[i]);
            if i < j {
                assert(text::precedes(errors[i], errors[j]));
            } else {
                assert(text::precedes(errors[j], errors[i]));
            }
        }
    }
    errors.unique_seq_to_set();
    assert(errors.to_set() =~= found.to_set()) by {
        assert forall|message: Seq<char>| #[trigger] errors.to_set().contains(message)
            <==> found.to_set().contains(message) by {
            assert(errors.contains(message) <==> found.contains(message));
        }
    }
}

/// The names by which checks are skipped, in the order in which the checks are run.
pub proof fn law_names_in_order()
    ensures
        checks_in_order().map_values(|check: Check| check.words()) == seq![
            "validate_name_prefixes"@,
            "validate_subteam_of"@,
            "validate_team_leads"@,
            "validate_team_members"@,
            "validate_inactive_members"@,
            "validate_list_email_addresses"@,
            "validate_list_extra_people"@,
            "validate_list_extra_teams"@,
            "validate_list_addresses"@,
            "validate_people_addresses"@,
            "validate_duplicate_permissions"@,
            "validate_permissions"@,
            "validate_rfcbot_labels"@,
            "validate_rfcbot_exclude_members"@,
            "validate_team_names"@,
            "validate_github_teams"@,
            "validate_discord_permissions"@,
            "validate_zulip_stream_name"@,
            "validate_project_groups_have_parent_teams"@,
        ],
        GITHUB_CHECK@ == "validate_github_usernames"@,
{
    assert(checks_in_order().map_values(|check: Check| check.words()) =~= seq![
            "validate_name_prefixes"@,
            "validate_subteam_of"@,
            "validate_team_leads"@,
            "validate_team_members"@,
            "validate_inactive_members"@,
            "validate_list_email_addresses"@,
            "validate_list_extra_people"@,
            "validate_list_extra_teams"@,
            "validate_list_addresses"@,
            "validate_people_addresses"@,
            "validate_duplicate_permissions"@,
            "validate_permissions"@,
            "validate_rfcbot_labels"@,
            "validate_rfcbot_exclude_members"@,
            "validate_team_names"@,
            "validate_github_teams"@,
            "validate_discord_permissions"@,
            "validate_zulip_stream_name"@,
            "validate_project_groups_have_parent_teams"@,
    ]);
}

/// What the check of a name finds.
pub proof fn law_found_by_name(check: Check, data: Data)
    ensures
        check.words() == "validate_name_prefixes"@ ==> check.findings(data)
            == naming::name_prefix_findings(data),
        check.words() == "validate_subteam_of"@ ==> check.findings(data)
            == hierarchy::subteam_findings(data),
        check.words() == "validate_team_leads"@ ==> check.findings(data)
            == membership::lead_findings(data),
        check.words() == "validate_team_members"@ ==> check.findings(data)
            == membership::member_findings(data),
        check.words() == "validate_inactive_members"@ ==> check.findings(data)
            == membership::inactive_findings(data),
        check.words() == "validate_list_email_addresses"@ ==> check.findings(data)
            == lists::list_member_findings(data),
        check.words() == "validate_list_extra_people"@ ==> check.findings(data)
            == lists::extra_people_findings(data),
        check.words() == "validate_list_extra_teams"@ ==> check.findings(data)
            == lists::extra_teams_findings(data),
        check.words() == "validate_list_addresses"@ ==> check.findings(data)
            == lists::list_address_findings(data),
        check.words() == "validate_people_addresses"@ ==> check.findings(data)
            == lists::email_findings(data),
        check.words() == "validate_duplicate_permissions"@ ==> check.findings(data)
            == permissions::given_twice_findings(data),
        check.words() == "validate_permissions"@ ==> check.findings(data)
            == permissions::permission_findings(data),
        check.words() == "validate_rfcbot_labels"@ ==> check.findings(data)
            == rfcbot::label_findings(data),
        check.words() == "validate_rfcbot_exclude_members"@ ==> check.findings(data)
            == rfcbot::exclude_findings(data),
        check.words() == "validate_team_names"@ ==> check.findings(data)
            == naming::team_name_findings(data),
        check.words() == "validate_github_teams"@ ==> check.findings(data)
            == github::github_findings(data),
        check.words() == "validate_discord_permissions"@ ==> check.findings(data)
            == permissions::discord_findings(data),
        check.words() == "validate_zulip_stream_name"@ ==> check.findings(data)
            == naming::zulip_stream_findings(data),
        check.words() == "validate_project_groups_have_parent_teams"@ ==> check.findings(data)
            == hierarchy::project_group_findings(data),
{
    law_check_names_differ(check, Check::NamePrefixes);
    law_check_names_differ(check, Check::SubteamOf);
    law_check_names_differ(check, Check::TeamLeads);
    law_check_names_differ(check, Check::TeamMembers);
    law_check_names_differ(check, Check::InactiveMembers);
    law_check_names_differ(check, Check::ListEmailAddresses);
    law_check_names_differ(check, Check::ListExtraPeople);
    law_check_names_differ(check, Check::ListExtraTeams);
    law_check_names_differ(check, Check::ListAddresses);
    law_check_names_differ(check, Check::PeopleAddresses);
    law_check_names_differ(check, Check::DuplicatePermissions);
    law_check_names_differ(check, Check::Permissions);
    law_check_names_differ(check, Check::RfcbotLabels);
    law_check_names_differ(check, Check::RfcbotExcludeMembers);
    law_check_names_differ(check, Check::TeamNames);
    law_check_names_differ(check, Check::GithubTeams);
    law_check_names_differ(check, Check::DiscordPermissions);
    law_check_names_differ(check, Check::ZulipStreamName);
    law_check_names_differ(check, Check::ProjectGroupsHaveParentTeams);
}

/// A check is to be skipped exactly if its name, taken whole, is one of those to skip.
pub proof fn law_skips(skip: Seq<&str>, name: Seq<char>)
    ensures
        skips(skip, name) <==> skip.map_values(|listed: &str| listed@).contains(name),
{
    let names = skip.map_values(|listed: &str| listed@);
    if skips(skip, name) {
        let i = choose|i: int| 0 <= i < skip.len() && (#[trigger] skip[i])@ == name;
        assert(names[i] == name);
    }
    if names.contains(name) {
        let i = choose|i: int| 0 <= i < names.len() && names[i] == name;
        assert(skip[i]@ == name);
    }
}

proof fn lemma_found_of_the_kept(
    checks: Seq<Check>,
    data: Data,
    skip: Seq<&str>,
    kept: spec_fn(Check) -> bool,
)
    requires
        forall|check: Check| #[trigger] kept(check) <==> !skips(skip, check.words()),
    ensures
        findings::each(checks, |check: Check| unskipped_findings(check, data, skip))
            == checks.filter(kept).flat_map(|check: Check| check.findings(data)),
    decreases checks.len(),
{
    reveal(Seq::filter);
    let found = |check: Check| check.findings(data);
    if checks.len() == 0 {
        assert(checks.filter(kept).flat_map(found) =~= seq![]);
    } else {
        let init = checks.drop_last();
        let last = checks.last();
        lemma_found_of_the_kept(init, data, skip, kept);
        assert(kept(last) <==> !skips(skip, last.words()));
        if kept(last) {
            init.filter(kept).lemma_flat_map_push(found, last);
        } else {
            assert(findings::each(checks, |check: Check| unskipped_findings(check, data, skip))
                =~= init.filter(kept).flat_map(found));
        }
    }
}

/// What is found in the records by themselves is what the checks find whose names are not
/// among those to skip, one after the other.
pub proof fn law_record_findings(data: Data, skip: Seq<&str>)
    ensures
        record_findings(data, skip) == checks_in_order().filter(
            |check: Check| !skip.map_values(|listed: &str| listed@).contains(check.words()),
        ).flat_map(|check: Check| check.findings(data)),
{
    let kept = |check: Check| !skip.map_values(|listed: &str| listed@).contains(check.words());
    assert forall|check: Check| #[trigger] kept(check) <==> !skips(skip, check.words()) by {
        law_skips(skip, check.words());
    }
    lemma_found_of_the_kept(checks_in_order(), data, skip, kept);
}

/// The checks that are to be skipped are those whose names are among those to skip, in the
/// order in which they would be run.
pub proof fn law_skipped_in_order(skip: Seq<&str>)
    ensures
        skipped_in_order(skip) == checks_in_order().filter(
            |check: Check| skip.map_values(|listed: &str| listed@).contains(check.words()),
        ),
{
    let named = |check: Check| skip.map_values(|listed: &str| listed@).contains(check.words());
    let skipped = |check: Check| skips(skip, check.words());
    assert forall|check: Check| #[trigger] named(check) == skipped(check) by {
        law_skips(skip, check.words());
    }
    assert(named =~= skipped);
}

/// What is warned of: the checks whose names are among those to skip, in their order, and
/// then, if GitHub cannot be asked and need not be, that and why, and if it can, that its own
/// check is skipped where that is so.
pub proof fn law_warnings(strict: bool, skip: Seq<&str>, auth: Result<(), String>)
    ensures
        all_warnings(strict, skip, auth) == checks_in_order().filter(
            |check: Check| skip.map_values(|listed: &str| listed@).contains(check.words()),
        ).map_values(|check: Check| "skipped check: "@ + check.words()) + match auth {
            Ok(_) => if skip.map_values(|listed: &str| listed@).contains(
                "validate_github_usernames"@,
            ) {
                seq!["skipped check: "@ + "validate_github_usernames"@]
            } else {
                seq![]
            },
            Err(cause) => if strict {
                seq![]
            } else {
                seq![
                    "couldn't perform checks relying on the GitHub API, some errors will not be detected"@,
                    "cause: "@ + cause@,
                ]
            },
        },
{
    law_skipped_in_order(skip);
    law_skips(skip, "validate_github_usernames"@);
    let rule = |check: Check| seq![skip_warning(check.words())];
    findings::law_each_of_the_wrong(
        skipped_in_order(skip),
        rule,
        |check: Check| true,
        |check: Check| "skipped check: "@ + check.words(),
    );
    lemma_filter_all(skipped_in_order(skip), |check: Check| true);
}

proof fn lemma_filter_all(checks: Seq<Check>, kept: spec_fn(Check) -> bool)
    requires
        forall|check: Check| #[trigger] kept(check),
    ensures
        checks.filter(kept) == checks,
    decreases checks.len(),
{
    reveal(Seq::filter);
    if checks.len() > 0 {
        lemma_filter_all(checks.drop_last(), kept);
        assert(kept(checks.last()));
        assert(checks.drop_last().push(checks.last()) =~= checks);
    }
}

/// What is said of a failure: why GitHub could not be asked, or how many errors were found;
/// and in the latter case each of them, in order.
pub proof fn law_failure(failure: Failure)
    ensures
        failure matches Failure::Unauthorized(cause) ==> failure.words() == cause@
            && failure.report().len() == 0,
        failure matches Failure::Invalid(errors) ==> {
            &&& failure.words() == text::decimal(errors.len() as int) + " validation errors found"@
            &&& failure.report().len() == errors.len()
            &&& forall|i: int|
                0 <= i < errors.len() ==> #[trigger] failure.report()[i] == "validation error: "@
                    + errors@[i]@
        },
{
}

/// What comes of validation. If GitHub could not be asked and had to be, the reason, whatever
/// else is found. Otherwise, all that is found counts: what the checks that are not skipped
/// find in the records, and, if GitHub was asked, what is found as to the names of accounts.
/// If that is nothing, validation succeeds, and if not, it fails with a report of all that is
/// found, and of nothing else, each once and in order.
pub proof fn law_result(
    data: Data,
    strict: bool,
    skip: Seq<&str>,
    auth: Result<(), String>,
    usernames: Result<Vec<(u64, String)>, String>,
    result: Result<(), Failure>,
    message: Seq<char>,
)
    requires
        comes_of(data, strict, skip, auth, usernames, result),
    ensures
        auth is Err && strict ==> (result matches Err(Failure::Unauthorized(cause)) && cause@
            == auth->Err_0@),
        !(auth is Err && strict) ==> {
            let found = record_findings(data, skip).contains(message) || (auth is Ok
                && !skip.map_values(|listed: &str| listed@).contains(
                "validate_github_usernames"@,
            ) && github::username_findings(data, usernames).contains(message));
            match result {
                Ok(_) => !found,
                Err(Failure::Unauthorized(_)) => false,
                Err(Failure::Invalid(errors)) => {
                    &&& errors.len() > 0
                    &&& errors.deep_view().contains(message) <==> found
                    &&& errors.deep_view().no_duplicates()
                    &&& forall|i: int, j: int|
                        #![trigger errors.deep_view()[i], errors.deep_view()[j]]
                        0 <= i < j < errors.len() ==> text::precedes(
                            errors.deep_view()[i],
                            errors.deep_view()[j],
                        )
                },
            }
        },
{
    law_skips(skip, "validate_github_usernames"@);
    if !(auth is Err && strict) {
        let all = all_findings(data, skip, auth, usernames);
        let a = record_findings(data, skip);
        let b = if asks_github(skip, auth) {
            github::username_findings(data, usernames)
        } else {
            seq![]
        };
        assert(all == a + b);
        assert(all.contains(message) <==> a.contains(message) || b.contains(message)) by {
            if a.contains(message) {
                let k = choose|k: int| 0 <= k < a.len() && a[k] == message;
                assert((a + b)[k] == message);
            }
            if b.contains(message) {
                let k = choose|k: int| 0 <= k < b.len() && b[k] == message;
                assert((a + b)[a.len() + k] == message);
            }
            if all.contains(message) {
                let k = choose|k: int| 0 <= k < all.len() && all[k] == message;
                if k < a.len() {
                    assert(a[k] == message);
                } else {
                    assert(b[k - a.len()] == message);
                }
            }
        }
        if result is Err {
            let errors = result->Err_0->Invalid_0.deep_view();
            findings::law_report(errors, all);
            assert(errors.contains(message) <==> all.contains(message));
            assert(all.contains(all[0]));
            assert(errors.contains(all[0]));
        }
    }
}

} // verus!
