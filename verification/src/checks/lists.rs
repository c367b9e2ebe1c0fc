//! Mailing lists and email addresses.

use regex::Regex;
use vstd::prelude::*;

use crate::findings;
use crate::findings::wrapper;
use crate::schema;
use crate::schema::{Data, Email, List, Person, Team};
use crate::text;

verus! {

/// What is wrong with a member of a team that has a mailing list.
pub open spec fn list_member_fault(data: Data, member: Seq<char>) -> Option<Seq<char>> {
    match data.person_named(member) {
        Some(person) => if person.email is Missing {
            Some(
                "person `"@ + person.github@
                    + "` is a member of a mailing list but has no email address"@,
            )
        } else {
            None
        },
        None => None,
    }
}

/// What is found wrong with the members of a team on its mailing lists.
pub open spec fn list_members_of_team_findings(data: Data, team: Team) -> Seq<Seq<char>> {
    match team.lists {
        Ok(lists) => if lists.len() == 0 {
            seq![]
        } else {
            match team.members {
                Ok(members) => findings::each(
                    members@,
                    |member: String| findings::listed(list_member_fault(data, member@)),
                ),
                Err(message) => seq![message@],
            }
        },
        Err(message) => seq![message@],
    }
}

/// What is found wrong with the members of teams on mailing lists.
pub open spec fn list_member_findings(data: Data) -> Seq<Seq<char>> {
    findings::each(data.teams@, |team: Team| list_members_of_team_findings(data, team))
}

fn ensure_email(data: &Data, member: &str) -> (verdict: Result<(), String>)
    ensures
        findings::fault(verdict) == list_member_fault(*data, member@),
{
    match data.person(member) {
        Some(person) => match &person.email {
            Email::Missing => Err(
                "person `".to_owned().concat(person.github.as_str()).concat(
                    "` is a member of a mailing list but has no email address",
                ),
            ),
            _ => Ok(()),
        },
        None => Ok(()),
    }
}

/// Ensures that every member of a team with a mailing list has an email address.
pub fn validate_list_email_addresses(data: &Data, errors: &mut Vec<String>)
    ensures
        final(errors).deep_view() == old(errors).deep_view() + list_member_findings(*data),
{
    let rule = |team: &Team, errors: Vec<String>| -> (out: (Vec<String>, Result<(), String>))
        ensures
            findings::outcome(out) == errors.deep_view() + list_members_of_team_findings(
                *data,
                *team,
            ),
        {
            match &team.lists {
                Ok(lists) => {
                    if lists.len() == 0 {
                        return (errors, Ok(()));
                    }
                },
                Err(message) => {
                    return (errors, Err(message.clone()));
                },
            }
            match &team.members {
                Ok(members) => {
                    let member_rule = |
                        member: &String,
                        errors: Vec<String>,
                    | -> (out: (Vec<String>, Result<(), String>))
                        ensures
                            findings::outcome(out) == errors.deep_view() + findings::listed(
                                list_member_fault(*data, member@),
                            ),
                        { (errors, ensure_email(data, member.as_str())) };
                    assert(findings::adds(
                        member_rule,
                        |member: String| findings::listed(list_member_fault(*data, member@)),
                    ));
                    let mut errors = errors;
                    wrapper(members, &mut errors, member_rule);
                    (errors, Ok(()))
                },
                Err(message) => (errors, Err(message.clone())),
            }
        };
    assert(findings::adds(rule, |team: Team| list_members_of_team_findings(*data, team)));
    wrapper(&data.teams, errors, rule);
}

/// The first of the names that nobody goes by.
pub open spec fn first_stranger(data: Data, names: Seq<String>) -> Option<Seq<char>>
    decreases names.len(),
{
    if names.len() == 0 {
        None
    } else if data.person_named(names.first()@) is None {
        Some(names.first()@)
    } else {
        first_stranger(data, names.drop_first())
    }
}

/// What is wrong with the people on a list besides the members of its team.
pub open spec fn extra_people_fault(data: Data, list: List) -> Option<Seq<char>> {
    match first_stranger(data, list.extra_people@) {
        Some(person) => Some(
            "person `"@ + person + "` does not exist (in list `"@ + list.address@ + "`)"@,
        ),
        None => None,
    }
}

/// What is found wrong with the people on a team's lists besides its members.
pub open spec fn extra_people_of_team_findings(data: Data, team: Team) -> Seq<Seq<char>> {
    findings::each(
        team.raw_lists@,
        |list: List| findings::listed(extra_people_fault(data, list)),
    )
}

/// What is found wrong with the people on lists besides the members of teams.
pub open spec fn extra_people_findings(data: Data) -> Seq<Seq<char>> {
    findings::each(data.teams@, |team: Team| extra_people_of_team_findings(data, team))
}

fn ensure_extra_people(data: &Data, list: &List) -> (verdict: Result<(), String>)
    ensures
        findings::fault(verdict) == extra_people_fault(*data, *list),
{
    let mut i: usize = 0;
    assert(list.extra_people@.skip(0) =~= list.extra_people@);
    while i < list.extra_people.len()
        invariant
            i <= list.extra_people.len(),
            first_stranger(*data, list.extra_people@) == first_stranger(
                *data,
                list.extra_people@.skip(i as int),
            ),
        decreases list.extra_people.len() - i,
    {
        let person = &list.extra_people[i];
        if data.person(person.as_str()).is_none() {
            return Err(
                "person `".to_owned().concat(person.as_str()).concat(
                    "` does not exist (in list `",
                ).concat(list.address.as_str()).concat("`)"),
            );
        }
        assert(list.extra_people@.skip(i as int).drop_first() =~= list.extra_people@.skip(i + 1));
        i += 1;
    }
    Ok(())
}

/// Ensures that the people on lists besides the members of teams are real people.
pub fn validate_list_extra_people(data: &Data, errors: &mut Vec<String>)
    ensures
        final(errors).deep_view() == old(errors).deep_view() + extra_people_findings(*data),
{
    let rule = |team: &Team, errors: Vec<String>| -> (out: (Vec<String>, Result<(), String>))
        ensures
            findings::outcome(out) == errors.deep_view() + extra_people_of_team_findings(
                *data,
                *team,
            ),
        {
            let list_rule = |
                list: &List,
                errors: Vec<String>,
            | -> (out: (Vec<String>, Result<(), String>))
                ensures
                    findings::outcome(out) == errors.deep_view() + findings::listed(
                        extra_people_fault(*data, *list),
                    ),
                { (errors, ensure_extra_people(data, list)) };
            assert(findings::adds(
                list_rule,
                |list: List| findings::listed(extra_people_fault(*data, list)),
            ));
            let mut errors = errors;
            wrapper(&team.raw_lists, &mut errors, list_rule);
            (errors, Ok(()))
        };
    assert(findings::adds(rule, |team: Team| extra_people_of_team_findings(*data, team)));
    wrapper(&data.teams, errors, rule);
}

/// The first of the names that no team goes by.
pub open spec fn first_unknown_team(data: Data, names: Seq<String>) -> Option<Seq<char>>
    decreases names.len(),
{
    if names.len() == 0 {
        None
    } else if data.team_named(names.first()@) is None {
        Some(names.first()@)
    } else {
        first_unknown_team(data, names.drop_first())
    }
}

/// What is wrong with the teams on a list besides the one whose list it is.
pub open spec fn extra_teams_fault(data: Data, list: List) -> Option<Seq<char>> {
    match first_unknown_team(data, list.extra_teams@) {
        Some(team) => Some(
            "team `"@ + team + "` does not exist (in list `"@ + list.address@ + "`)"@,
        ),
        None => None,
    }
}

/// What is found wrong with the teams on a team's lists besides itself.
pub open spec fn extra_teams_of_team_findings(data: Data, team: Team) -> Seq<Seq<char>> {
    findings::each(
        team.raw_lists@,
        |list: List| findings::listed(extra_teams_fault(data, list)),
    )
}

/// What is found wrong with the teams on lists besides those whose lists they are.
pub open spec fn extra_teams_findings(data: Data) -> Seq<Seq<char>> {
    findings::each(data.teams@, |team: Team| extra_teams_of_team_findings(data, team))
}

fn ensure_extra_teams(data: &Data, list: &List) -> (verdict: Result<(), String>)
    ensures
        findings::fault(verdict) == extra_teams_fault(*data, *list),
{
    let mut i: usize = 0;
    assert(list.extra_teams@.skip(0) =~= list.extra_teams@);
    while i < list.extra_teams.len()
        invariant
            i <= list.extra_teams.len(),
            first_unknown_team(*data, list.extra_teams@) == first_unknown_team(
                *data,
                list.extra_teams@.skip(i as int),
            ),
        decreases list.extra_teams.len() - i,
    {
        let team = &list.extra_teams[i];
        if data.team(team.as_str()).is_none() {
            return Err(
                "team `".to_owned().concat(team.as_str()).concat(
                    "` does not exist (in list `",
                ).concat(list.address.as_str()).concat("`)"),
            );
        }
        assert(list.extra_teams@.skip(i as int).drop_first() =~= list.extra_teams@.skip(i + 1));
        i += 1;
    }
    Ok(())
}

/// Ensures that the teams on lists besides those whose lists they are are real teams.
pub fn validate_list_extra_teams(data: &Data, errors: &mut Vec<String>)
    ensures
        final(errors).deep_view() == old(errors).deep_view() + extra_teams_findings(*data),
{
    let rule = |team: &Team, errors: Vec<String>| -> (out: (Vec<String>, Result<(), String>))
        ensures
            findings::outcome(out) == errors.deep_view() + extra_teams_of_team_findings(
                *data,
                *team,
            ),
        {
            let list_rule = |
                list: &List,
                errors: Vec<String>,
            | -> (out: (Vec<String>, Result<(), String>))
                ensures
                    findings::outcome(out) == errors.deep_view() + findings::listed(
                        extra_teams_fault(*data, *list),
                    ),
                { (errors, ensure_extra_teams(data, list)) };
            assert(findings::adds(
                list_rule,
                |list: List| findings::listed(extra_teams_fault(*data, list)),
            ));
            let mut errors = errors;
            wrapper(&team.raw_lists, &mut errors, list_rule);
            (errors, Ok(()))
        };
    assert(findings::adds(rule, |team: Team| extra_teams_of_team_findings(*data, team)));
    wrapper(&data.teams, errors, rule);
}

/// What a list address looks like; the group is its domain.
pub const LIST_ADDRESS: &'static str = r"^[a-zA-Z0-9_\.-]+@([a-zA-Z0-9_\.-]+)$";

/// Whether a character may stand on either side of the `@` of a list address.
pub open spec fn address_char(c: char) -> bool {
    text::ascii_alphanumeric(c) || c == '_' || c == '.' || c == '-'
}

/// Whether `address` is a list address with its `@` at `at`.
pub open spec fn address_split(address: Seq<char>, at: int) -> bool {
    &&& 0 < at < address.len() - 1
    &&& address[at] == '@'
    &&& forall|i: int| 0 <= i < address.len() && i != at ==> address_char(#[trigger] address[i])
}

/// `regex::Regex::new`, `regex::Regex::captures` and the group at index 1 of what they
/// find, for the one pattern that is used: [`LIST_ADDRESS`] is a valid pattern that
/// matches a text as a whole or not at all; it does so if the text is made up of two
/// runs of one or more of its characters with an `@` between them, and the group is the
/// second run.
#[verifier::external_body]
fn first_group(pattern: &str, text: &str) -> (group: Option<String>)
    requires
        pattern@ == LIST_ADDRESS@,
    ensures
        match group {
            Some(domain) => exists|at: int| #[trigger]
                address_split(text@, at) && domain@ == text@.skip(at + 1),
            None => forall|at: int| !#[trigger] address_split(text@, at),
        },
{
    Regex::new(pattern).unwrap().captures(text).map(|captures| captures[1].to_string())
}

/// Whether `address` is a list address on `domain`.
pub open spec fn on_domain(address: Seq<char>, domain: Seq<char>) -> bool {
    exists|at: int| #[trigger] address_split(address, at) && domain == address.skip(at + 1)
}

/// What is wrong with the address of a list.
pub open spec fn list_address_fault(data: Data, list: List) -> Option<Seq<char>> {
    if exists|domain: Seq<char>|
        on_domain(list.address@, domain)
            && #[trigger] data.config.allowed_mailing_lists_domains.deep_view().contains(domain) {
        None
    } else if exists|domain: Seq<char>| #[trigger] on_domain(list.address@, domain) {
        Some("list address on a domain we don't own: `"@ + list.address@ + "`"@)
    } else {
        Some("invalid list address: `"@ + list.address@ + "`"@)
    }
}

/// What is found wrong with the addresses of a team's lists.
pub open spec fn list_address_of_team_findings(data: Data, team: Team) -> Seq<Seq<char>> {
    findings::each(
        team.raw_lists@,
        |list: List| findings::listed(list_address_fault(data, list)),
    )
}

/// What is found wrong with the addresses of lists.
pub open spec fn list_address_findings(data: Data) -> Seq<Seq<char>> {
    findings::each(data.teams@, |team: Team| list_address_of_team_findings(data, team))
}

fn ensure_list_address(data: &Data, list: &List) -> (verdict: Result<(), String>)
    ensures
        findings::fault(verdict) == list_address_fault(*data, *list),
{
    let ghost address = list.address@;
    match first_group(LIST_ADDRESS, list.address.as_str()) {
        Some(domain) => {
            proof {
                assert(on_domain(address, domain@));
                assert forall|other: Seq<char>| #[trigger] on_domain(address, other) implies other
                    == domain@ by {
                    let k = choose|k: int| #[trigger]
                        address_split(address, k) && other == address.skip(k + 1);
                    let l = choose|l: int| #[trigger]
                        address_split(address, l) && domain@ == address.skip(l + 1);
                    if k != l {
                        assert(address_char(address[k]));
                    }
                }
            }
            if text::contains_text(&data.config.allowed_mailing_lists_domains, domain.as_str()) {
                Ok(())
            } else {
                Err(
                    "list address on a domain we don't own: `".to_owned().concat(
                        list.address.as_str(),
                    ).concat("`"),
                )
            }
        },
        None => Err(
            "invalid list address: `".to_owned().concat(list.address.as_str()).concat("`"),
        ),
    }
}

/// Ensures that the addresses of lists are valid and on domains that lists may be on.
pub fn validate_list_addresses(data: &Data, errors: &mut Vec<String>)
    ensures
        final(errors).deep_view() == old(errors).deep_view() + list_address_findings(*data),
{
    let rule = |team: &Team, errors: Vec<String>| -> (out: (Vec<String>, Result<(), String>))
        ensures
            findings::outcome(out) == errors.deep_view() + list_address_of_team_findings(
                *data,
                *team,
            ),
        {
            let list_rule = |
                list: &List,
                errors: Vec<String>,
            | -> (out: (Vec<String>, Result<(), String>))
                ensures
                    findings::outcome(out) == errors.deep_view() + findings::listed(
                        list_address_fault(*data, *list),
                    ),
                { (errors, ensure_list_address(data, list)) };
            assert(findings::adds(
                list_rule,
                |list: List| findings::listed(list_address_fault(*data, list)),
            ));
            let mut errors = errors;
            wrapper(&team.raw_lists, &mut errors, list_rule);
            (errors, Ok(()))
        };
    assert(findings::adds(rule, |team: Team| list_address_of_team_findings(*data, team)));
    wrapper(&data.teams, errors, rule);
}

/// What is wrong with the email address of a person.
pub open spec fn email_fault(person: Person) -> Option<Seq<char>> {
    match person.email {
        Email::Present(email) => if email@.contains('@') {
            None
        } else {
            Some("invalid email address of `"@ + person.github@ + "`: "@ + email@)
        },
        _ => None,
    }
}

/// What is found wrong with the email addresses of people.
pub open spec fn email_findings(data: Data) -> Seq<Seq<char>> {
    findings::each(data.people@, |person: Person| findings::listed(email_fault(person)))
}

/// Ensures that the email addresses of people are valid.
pub fn validate_people_addresses(data: &Data, errors: &mut Vec<String>)
    ensures
        final(errors).deep_view() == old(errors).deep_view() + email_findings(*data),
{
    let rule = |person: &Person, errors: Vec<String>| -> (out: (Vec<String>, Result<(), String>))
        ensures
            findings::outcome(out) == errors.deep_view() + findings::listed(email_fault(*person)),
        {
            let verdict = match &person.email {
                Email::Present(email) => if text::has_char(email.as_str(), '@') {
                    Ok(())
                } else {
                    Err(
                        "invalid email address of `".to_owned().concat(
                            person.github.as_str(),
                        ).concat("`: ").concat(email.as_str()),
                    )
                },
                _ => Ok(()),
            };
            (errors, verdict)
        };
    assert(findings::adds(rule, |person: Person| findings::listed(email_fault(person))));
    wrapper(&data.people, errors, rule);
}

/// Whether the members of a team are known and none of those who have a record lacks an
/// email address.
pub open spec fn members_have_email(data: Data, team: Team) -> bool {
    team.members matches Ok(members) && forall|i: int|
        0 <= i < members.len() ==> (data.person_named((#[trigger] members@[i])@) matches Some(
            person,
        ) ==> !(person.email is Missing))
}

/// Whether the lists of every team are known and the members of every team that has one
/// have email addresses.
pub open spec fn list_members_have_email(data: Data) -> bool {
    forall|i: int|
        0 <= i < data.teams.len() ==> ((#[trigger] data.teams@[i]).lists matches Ok(lists) && (
        lists.len() > 0 ==> members_have_email(data, data.teams@[i])))
}

/// Nothing is found wrong with the members of teams on mailing lists exactly if the
/// lists of every team are known and, for every team that has one, the members are known
/// and none of those who have a record lacks an email address.
pub proof fn law_list_email_addresses(data: Data)
    ensures
        list_member_findings(data).len() == 0 <==> list_members_have_email(data),
{
    findings::law_each_empty(data.teams@, |team: Team| list_members_of_team_findings(data, team));
    assert forall|i: int| 0 <= i < data.teams.len() implies (list_members_of_team_findings(
        data,
        #[trigger] data.teams@[i],
    ).len() == 0 <==> (data.teams@[i].lists matches Ok(lists) && (lists.len() > 0
        ==> members_have_email(data, data.teams@[i])))) by {
        let team = data.teams@[i];
        if team.members is Ok {
            findings::law_each_empty(
                team.members->Ok_0@,
                |member: String| findings::listed(list_member_fault(data, member@)),
            );
        }
    }
}

/// Whether all on a list besides the members of its team are people with a record.
pub open spec fn real_people(data: Data, list: List) -> bool {
    forall|i: int|
        0 <= i < list.extra_people.len() ==> data.person_named(
            (#[trigger] list.extra_people@[i])@,
        ) is Some
}

/// Whether all teams on a list besides the one whose list it is have a record.
pub open spec fn real_teams(data: Data, list: List) -> bool {
    forall|i: int|
        0 <= i < list.extra_teams.len() ==> data.team_named(
            (#[trigger] list.extra_teams@[i])@,
        ) is Some
}

/// Whether the address of a list is valid and on a domain that lists may be on.
pub open spec fn allowed_address(data: Data, list: List) -> bool {
    exists|domain: Seq<char>|
        on_domain(list.address@, domain)
            && #[trigger] data.config.allowed_mailing_lists_domains.deep_view().contains(domain)
}

proof fn lemma_first_stranger(data: Data, names: Seq<String>)
    ensures
        first_stranger(data, names) is None <==> forall|i: int|
            0 <= i < names.len() ==> data.person_named((#[trigger] names[i])@) is Some,
    decreases names.len(),
{
    if names.len() > 0 {
        let rest = names.drop_first();
        lemma_first_stranger(data, rest);
        assert(forall|i: int| 0 <= i < rest.len() ==> #[trigger] rest[i] == names[i + 1]);
        if forall|i: int| 0 <= i < rest.len() ==> data.person_named((#[trigger] rest[i])@) is Some {
            assert forall|i: int| 0 < i < names.len() implies data.person_named(
                (#[trigger] names[i])@,
            ) is Some by {
                assert(rest[i - 1] == names[i]);
            }
        }
        assert(names.first() == names[0]);
    }
}

proof fn lemma_first_unknown_team(data: Data, names: Seq<String>)
    ensures
        first_unknown_team(data, names) is None <==> forall|i: int|
            0 <= i < names.len() ==> data.team_named((#[trigger] names[i])@) is Some,
    decreases names.len(),
{
    if names.len() > 0 {
        let rest = names.drop_first();
        lemma_first_unknown_team(data, rest);
        assert(forall|i: int| 0 <= i < rest.len() ==> #[trigger] rest[i] == names[i + 1]);
        if forall|i: int| 0 <= i < rest.len() ==> data.team_named((#[trigger] rest[i])@) is Some {
            assert forall|i: int| 0 < i < names.len() implies data.team_named(
                (#[trigger] names[i])@,
            ) is Some by {
                assert(rest[i - 1] == names[i]);
            }
        }
        assert(names.first() == names[0]);
    }
}

/// Whether the people on lists besides the members of teams have a record.
pub open spec fn extra_people_are_real(data: Data) -> bool {
    forall|i: int, j: int|
        #![trigger data.teams@[i].raw_lists@[j]]
        0 <= i < data.teams.len() && 0 <= j < data.teams@[i].raw_lists.len() ==> real_people(
            data,
            data.teams@[i].raw_lists@[j],
        )
}

/// Nothing is found wrong with the people on lists besides the members of teams exactly if
/// all of them have a record.
pub proof fn law_list_extra_people(data: Data)
    ensures
        extra_people_findings(data).len() == 0 <==> extra_people_are_real(data),
{
    findings::law_each_empty(data.teams@, |team: Team| extra_people_of_team_findings(data, team));
    assert forall|i: int| 0 <= i < data.teams.len() implies (extra_people_of_team_findings(
        data,
        #[trigger] data.teams@[i],
    ).len() == 0 <==> forall|j: int|
        0 <= j < data.teams@[i].raw_lists.len() ==> real_people(
            data,
            #[trigger] data.teams@[i].raw_lists@[j],
        )) by {
        let lists = data.teams@[i].raw_lists@;
        findings::law_each_empty(lists, |list: List| findings::listed(extra_people_fault(data, list)));
        assert forall|j: int| 0 <= j < lists.len() implies (extra_people_fault(
            data,
            #[trigger] lists[j],
        ) is None <==> real_people(data, lists[j])) by {
            lemma_first_stranger(data, lists[j].extra_people@);
        }
    }
    if forall|i: int| 0 <= i < data.teams.len() ==> extra_people_of_team_findings(
        data,
        #[trigger] data.teams@[i],
    ).len() == 0 {
        assert forall|i: int, j: int|
            #![trigger data.teams@[i].raw_lists@[j]]
            0 <= i < data.teams.len() && 0 <= j
                < data.teams@[i].raw_lists.len() implies real_people(
            data,
            data.teams@[i].raw_lists@[j],
        ) by {
            assert(extra_people_of_team_findings(data, data.teams@[i]).len() == 0);
        }
    }
}

/// Whether the teams on lists besides those whose lists they are have a record.
pub open spec fn extra_teams_are_real(data: Data) -> bool {
    forall|i: int, j: int|
        #![trigger data.teams@[i].raw_lists@[j]]
        0 <= i < data.teams.len() && 0 <= j < data.teams@[i].raw_lists.len() ==> real_teams(
            data,
            data.teams@[i].raw_lists@[j],
        )
}

/// Nothing is found wrong with the teams on lists besides those whose lists they are
/// exactly if all of them have a record.
pub proof fn law_list_extra_teams(data: Data)
    ensures
        extra_teams_findings(data).len() == 0 <==> extra_teams_are_real(data),
{
    findings::law_each_empty(data.teams@, |team: Team| extra_teams_of_team_findings(data, team));
    assert forall|i: int| 0 <= i < data.teams.len() implies (extra_teams_of_team_findings(
        data,
        #[trigger] data.teams@[i],
    ).len() == 0 <==> forall|j: int|
        0 <= j < data.teams@[i].raw_lists.len() ==> real_teams(
            data,
            #[trigger] data.teams@[i].raw_lists@[j],
        )) by {
        let lists = data.teams@[i].raw_lists@;
        findings::law_each_empty(lists, |list: List| findings::listed(extra_teams_fault(data, list)));
        assert forall|j: int| 0 <= j < lists.len() implies (extra_teams_fault(
            data,
            #[trigger] lists[j],
        ) is None <==> real_teams(data, lists[j])) by {
            lemma_first_unknown_team(data, lists[j].extra_teams@);
        }
    }
    if forall|i: int| 0 <= i < data.teams.len() ==> extra_teams_of_team_findings(
        data,
        #[trigger] data.teams@[i],
    ).len() == 0 {
        assert forall|i: int, j: int|
            #![trigger data.teams@[i].raw_lists@[j]]
            0 <= i < data.teams.len() && 0 <= j < data.teams@[i].raw_lists.len() implies real_teams(
            data,
            data.teams@[i].raw_lists@[j],
        ) by {
            assert(extra_teams_of_team_findings(data, data.teams@[i]).len() == 0);
        }
    }
}

/// Whether the addresses of lists are valid and on domains that lists may be on.
pub open spec fn list_addresses_are_allowed(data: Data) -> bool {
    forall|i: int, j: int|
        #![trigger data.teams@[i].raw_lists@[j]]
        0 <= i < data.teams.len() && 0 <= j < data.teams@[i].raw_lists.len() ==> allowed_address(
            data,
            data.teams@[i].raw_lists@[j],
        )
}

/// Nothing is found wrong with the addresses of lists exactly if all of them are valid and
/// on domains that lists may be on.
pub proof fn law_list_addresses(data: Data)
    ensures
        list_address_findings(data).len() == 0 <==> list_addresses_are_allowed(data),
{
    findings::law_each_empty(data.teams@, |team: Team| list_address_of_team_findings(data, team));
    assert forall|i: int| 0 <= i < data.teams.len() implies (list_address_of_team_findings(
        data,
        #[trigger] data.teams@[i],
    ).len() == 0 <==> forall|j: int|
        0 <= j < data.teams@[i].raw_lists.len() ==> allowed_address(
            data,
            #[trigger] data.teams@[i].raw_lists@[j],
        )) by {
        let lists = data.teams@[i].raw_lists@;
        findings::law_each_empty(lists, |list: List| findings::listed(list_address_fault(data, list)));
        assert forall|j: int| 0 <= j < lists.len() implies (list_address_fault(
            data,
            #[trigger] lists[j],
        ) is None <==> allowed_address(data, lists[j])) by {
        }
    }
    if forall|i: int| 0 <= i < data.teams.len() ==> list_address_of_team_findings(
        data,
        #[trigger] data.teams@[i],
    ).len() == 0 {
        assert forall|i: int, j: int|
            #![trigger data.teams@[i].raw_lists@[j]]
            0 <= i < data.teams.len() && 0 <= j < data.teams@[i].raw_lists.len() implies allowed_address(
            data,
            data.teams@[i].raw_lists@[j],
        ) by {
            assert(list_address_of_team_findings(data, data.teams@[i]).len() == 0);
        }
    }
}

/// Whether the email addresses that are given hold an `@`.
pub open spec fn emails_are_valid(data: Data) -> bool {
    forall|i: int|
        0 <= i < data.people.len() ==> ((#[trigger] data.people@[i]).email matches Email::Present(
            email,
        ) ==> email@.contains('@'))
}

/// Nothing is found wrong with the email addresses of people exactly if all that are given
/// hold an `@`.
pub proof fn law_people_addresses(data: Data)
    ensures
        email_findings(data).len() == 0 <==> emails_are_valid(data),
{
    findings::law_each_empty(
        data.people@,
        |person: Person| findings::listed(email_fault(person)),
    );
}

/// Of a team that has a mailing list, there is a finding for each member the first record of
/// whom has no email address, in the order of the members. Where lists or members are not
/// known, why is said instead.
pub proof fn law_list_member_findings(data: Data)
    ensures
        list_member_findings(data) == data.teams@.flat_map(
            |team: Team|
                match (team.lists, team.members) {
                    (Err(message), _) => seq![message@],
                    (Ok(lists), Err(message)) => if lists.len() == 0 {
                        seq![]
                    } else {
                        seq![message@]
                    },
                    (Ok(lists), Ok(members)) => if lists.len() == 0 {
                        seq![]
                    } else {
                        members.deep_view().filter(
                            |member: Seq<char>|
                                exists|j: int|
                                    {
                                        &&& 0 <= j < data.people.len()
                                        &&& (#[trigger] data.people@[j]).github@ == member
                                        &&& data.people@[j].email is Missing
                                        &&& forall|k: int|
                                            0 <= k < j ==> (#[trigger] data.people@[k]).github@
                                                != member
                                    },
                        ).map_values(
                            |member: Seq<char>|
                                "person `"@ + member
                                    + "` is a member of a mailing list but has no email address"@,
                        )
                    },
                },
        ),
{
    let wrong = |member: Seq<char>|
        exists|j: int|
            {
                &&& 0 <= j < data.people.len()
                &&& (#[trigger] data.people@[j]).github@ == member
                &&& data.people@[j].email is Missing
                &&& forall|k: int| 0 <= k < j ==> (#[trigger] data.people@[k]).github@ != member
            };
    let words = |member: Seq<char>|
        "person `"@ + member + "` is a member of a mailing list but has no email address"@;
    let parts = |team: Team|
        match (team.lists, team.members) {
            (Err(message), _) => seq![message@],
            (Ok(lists), Err(message)) => if lists.len() == 0 {
                seq![]
            } else {
                seq![message@]
            },
            (Ok(lists), Ok(members)) => if lists.len() == 0 {
                seq![]
            } else {
                members.deep_view().filter(wrong).map_values(words)
            },
        };
    let rule = |team: Team| list_members_of_team_findings(data, team);
    let member_rule = |member: String| findings::listed(list_member_fault(data, member@));
    assert forall|member: String| #[trigger] member_rule(member) == (if wrong(member@) {
        seq![words(member@)]
    } else {
        seq![]
    }) by {
        schema::law_first_person(data, member@);
        if data.person_named(member@) is Some {
            let person = data.person_named(member@)->0;
            let i = choose|i: int|
                {
                    &&& 0 <= i < data.people.len()
                    &&& #[trigger] data.people@[i] == person
                    &&& person.github@ == member@
                    &&& forall|j: int|
                        0 <= j < i ==> (#[trigger] data.people@[j]).github@ != member@
                };
            if wrong(member@) {
                let j = choose|j: int|
                    {
                        &&& 0 <= j < data.people.len()
                        &&& (#[trigger] data.people@[j]).github@ == member@
                        &&& data.people@[j].email is Missing
                        &&& forall|k: int|
                            0 <= k < j ==> (#[trigger] data.people@[k]).github@ != member@
                    };
                if i < j {
                    assert(data.people@[i].github@ != member@);
                } else if j < i {
                    assert(data.people@[j].github@ != member@);
                }
            } else {
                assert(data.people@[i].github@ == member@);
            }
        }
    }
    assert forall|team: Team| #[trigger] rule(team) == parts(team) by {
        if team.members is Ok {
            findings::law_each_of_the_wrong_texts(
                team.members->Ok_0,
                member_rule,
                wrong,
                words,
            );
        }
    }
    assert(rule =~= parts);
    findings::law_each_in_turn(data.teams@, rule);
}

proof fn lemma_first_stranger_left(
    data: Data,
    names: Seq<String>,
    unknown: spec_fn(Seq<char>) -> bool,
)
    requires
        forall|name: Seq<char>| #[trigger] unknown(name) <==> data.person_named(name) is None,
    ensures
        ({
            let left = names.map_values(|name: String| name@).filter(unknown);
            first_stranger(data, names) == (if left.len() > 0 {
                Some(left.first())
            } else {
                None
            })
        }),
    decreases names.len(),
{
    reveal(Seq::filter);
    if names.len() > 0 {
        let name = names.first()@;
        let head = seq![name];
        let rest = names.drop_first().map_values(|name: String| name@);
        lemma_first_stranger_left(data, names.drop_first(), unknown);
        assert(names.map_values(|name: String| name@) =~= head + rest);
        Seq::filter_distributes_over_add(head, rest, unknown);
        let none = Seq::<Seq<char>>::empty();
        none.lemma_filter_push(name, unknown);
        assert(none.push(name) =~= head);
        assert(none.filter(unknown) =~= none);
        if unknown(name) {
            assert(head.filter(unknown) =~= head);
        } else {
            assert(head.filter(unknown) + rest.filter(unknown) =~= rest.filter(unknown));
        }
    }
}

/// There is a finding for each list with someone besides the members on it whom no record is
/// of; it names the first of them.
pub proof fn law_extra_people_findings(data: Data)
    ensures
        ({
            let unknown = |name: Seq<char>| data.person_named(name) is None;
            extra_people_findings(data) == data.teams@.flat_map(
                |team: Team|
                    team.raw_lists@.filter(
                        |list: List| list.extra_people.deep_view().filter(unknown).len() > 0,
                    ).map_values(
                        |list: List|
                            "person `"@ + list.extra_people.deep_view().filter(unknown).first()
                                + "` does not exist (in list `"@ + list.address@ + "`)"@,
                    ),
            )
        }),
{
    let unknown = |name: Seq<char>| data.person_named(name) is None;
    let wrong = |list: List| list.extra_people.deep_view().filter(unknown).len() > 0;
    let words = |list: List|
        "person `"@ + list.extra_people.deep_view().filter(unknown).first()
            + "` does not exist (in list `"@ + list.address@ + "`)"@;
    let parts = |team: Team| team.raw_lists@.filter(wrong).map_values(words);
    let rule = |team: Team| extra_people_of_team_findings(data, team);
    let list_rule = |list: List| findings::listed(extra_people_fault(data, list));
    assert forall|list: List| #[trigger] list_rule(list) == (if wrong(list) {
        seq![words(list)]
    } else {
        seq![]
    }) by {
        let names = list.extra_people;
        lemma_first_stranger_left(data, names@, unknown);
        assert(names@.map_values(|name: String| name@) =~= names.deep_view());
    }
    assert forall|team: Team| #[trigger] rule(team) == parts(team) by {
        findings::law_each_of_the_wrong(team.raw_lists@, list_rule, wrong, words);
    }
    assert(rule =~= parts);
    findings::law_each_in_turn(data.teams@, rule);
}

proof fn lemma_first_unknown_team_left(
    data: Data,
    names: Seq<String>,
    unknown: spec_fn(Seq<char>) -> bool,
)
    requires
        forall|name: Seq<char>| #[trigger] unknown(name) <==> data.team_named(name) is None,
    ensures
        ({
            let left = names.map_values(|name: String| name@).filter(unknown);
            first_unknown_team(data, names) == (if left.len() > 0 {
                Some(left.first())
            } else {
                None
            })
        }),
    decreases names.len(),
{
    reveal(Seq::filter);
    if names.len() > 0 {
        let name = names.first()@;
        let head = seq![name];
        let rest = names.drop_first().map_values(|name: String| name@);
        lemma_first_unknown_team_left(data, names.drop_first(), unknown);
        assert(names.map_values(|name: String| name@) =~= head + rest);
        Seq::filter_distributes_over_add(head, rest, unknown);
        let none = Seq::<Seq<char>>::empty();
        none.lemma_filter_push(name, unknown);
        assert(none.push(name) =~= head);
        assert(none.filter(unknown) =~= none);
        if unknown(name) {
            assert(head.filter(unknown) =~= head);
        } else {
            assert(head.filter(unknown) + rest.filter(unknown) =~= rest.filter(unknown));
        }
    }
}

/// There is a finding for each list with a team on it that no record is of; it names the
/// first of them.
pub proof fn law_extra_teams_findings(data: Data)
    ensures
        ({
            let unknown = |name: Seq<char>| data.team_named(name) is None;
            extra_teams_findings(data) == data.teams@.flat_map(
                |team: Team|
                    team.raw_lists@.filter(
                        |list: List| list.extra_teams.deep_view().filter(unknown).len() > 0,
                    ).map_values(
                        |list: List|
                            "team `"@ + list.extra_teams.deep_view().filter(unknown).first()
                                + "` does not exist (in list `"@ + list.address@ + "`)"@,
                    ),
            )
        }),
{
    let unknown = |name: Seq<char>| data.team_named(name) is None;
    let wrong = |list: List| list.extra_teams.deep_view().filter(unknown).len() > 0;
    let words = |list: List|
        "team `"@ + list.extra_teams.deep_view().filter(unknown).first()
            + "` does not exist (in list `"@ + list.address@ + "`)"@;
    let parts = |team: Team| team.raw_lists@.filter(wrong).map_values(words);
    let rule = |team: Team| extra_teams_of_team_findings(data, team);
    let list_rule = |list: List| findings::listed(extra_teams_fault(data, list));
    assert forall|list: List| #[trigger] list_rule(list) == (if wrong(list) {
        seq![words(list)]
    } else {
        seq![]
    }) by {
        let names = list.extra_teams;
        lemma_first_unknown_team_left(data, names@, unknown);
        assert(names@.map_values(|name: String| name@) =~= names.deep_view());
    }
    assert forall|team: Team| #[trigger] rule(team) == parts(team) by {
        findings::law_each_of_the_wrong(team.raw_lists@, list_rule, wrong, words);
    }
    assert(rule =~= parts);
    findings::law_each_in_turn(data.teams@, rule);
}

/// Two runs of ASCII letters and digits, `_`, `.` and `-`, with an `@` between them, are an
/// address on the second.
pub proof fn law_address_of_runs(local: Seq<char>, domain: Seq<char>)
    requires
        local.len() > 0,
        domain.len() > 0,
        forall|c: char| #[trigger] (local + domain).contains(c) ==> {
            ||| 'a' <= c <= 'z' || 'A' <= c <= 'Z' || '0' <= c <= '9'
            ||| c == '_' || c == '.' || c == '-'
        },
    ensures
        on_domain(local + "@"@ + domain, domain),
{
    reveal_strlit("@");
    let address = local + "@"@ + domain;
    let at = local.len() as int;
    assert forall|i: int| 0 <= i < address.len() && i != at implies address_char(
        #[trigger] address[i],
    ) by {
        let k = if i < at {
            i
        } else {
            i - 1
        };
        assert((local + domain)[k] == address[i]);
        assert((local + domain).contains(address[i]));
    }
    assert(address[at] == '@');
    assert(address_split(address, at));
    assert(domain =~= address.skip(at + 1));
}

/// An address on a domain is two runs of ASCII letters and digits, `_`, `.` and `-`, with an
/// `@` between them, the second of which is the domain.
pub proof fn law_runs_of_address(address: Seq<char>, domain: Seq<char>)
    requires
        on_domain(address, domain),
    ensures
        exists|local: Seq<char>|
            {
                &&& address == #[trigger] (local + "@"@ + domain)
                &&& local.len() > 0
                &&& domain.len() > 0
                &&& forall|c: char| #[trigger] (local + domain).contains(c) ==> {
                    ||| 'a' <= c <= 'z' || 'A' <= c <= 'Z' || '0' <= c <= '9'
                    ||| c == '_' || c == '.' || c == '-'
                }
            },
{
    reveal_strlit("@");
    let at = choose|at: int| #[trigger]
        address_split(address, at) && domain == address.skip(at + 1);
    let local = address.take(at);
    assert(address =~= local + "@"@ + domain);
    assert forall|c: char| #[trigger] (local + domain).contains(c) implies address_char(c) by {
        let i = choose|i: int| 0 <= i < (local + domain).len() && (local + domain)[i] == c;
        let k = if i < at {
            i
        } else {
            i + 1
        };
        assert(address[k] == c);
    }
}

/// An address is on one domain at most: what follows its `@`, taken whole.
pub proof fn law_one_domain(address: Seq<char>, a: Seq<char>, b: Seq<char>)
    requires
        on_domain(address, a),
        on_domain(address, b),
    ensures
        a == b,
{
    let k = choose|k: int| #[trigger] address_split(address, k) && a == address.skip(k + 1);
    let l = choose|l: int| #[trigger] address_split(address, l) && b == address.skip(l + 1);
    if k != l {
        assert(address_char(address[k]));
    }
}

/// There is a finding for each list whose address is on none of the domains that lists may be
/// on; it says whether it is on another or on none at all.
pub proof fn law_list_address_findings(data: Data)
    ensures
        list_address_findings(data) == data.teams@.flat_map(
            |team: Team|
                team.raw_lists@.filter(
                    |list: List|
                        !exists|k: int|
                            0 <= k < data.config.allowed_mailing_lists_domains.len() && on_domain(
                                list.address@,
                                (#[trigger] data.config.allowed_mailing_lists_domains@[k])@,
                            ),
                ).map_values(
                    |list: List|
                        if exists|domain: Seq<char>| #[trigger] on_domain(list.address@, domain) {
                            "list address on a domain we don't own: `"@ + list.address@ + "`"@
                        } else {
                            "invalid list address: `"@ + list.address@ + "`"@
                        },
                ),
        ),
{
    let allowed = data.config.allowed_mailing_lists_domains;
    let wrong = |list: List|
        !exists|k: int|
            0 <= k < data.config.allowed_mailing_lists_domains.len() && on_domain(
                list.address@,
                (#[trigger] data.config.allowed_mailing_lists_domains@[k])@,
            );
    let words = |list: List|
        if exists|domain: Seq<char>| #[trigger] on_domain(list.address@, domain) {
            "list address on a domain we don't own: `"@ + list.address@ + "`"@
        } else {
            "invalid list address: `"@ + list.address@ + "`"@
        };
    let rule = |team: Team| list_address_of_team_findings(data, team);
    let parts = |team: Team| team.raw_lists@.filter(wrong).map_values(words);
    let list_rule = |list: List| findings::listed(list_address_fault(data, list));
    assert forall|list: List| #[trigger] list_rule(list) == (if wrong(list) {
        seq![words(list)]
    } else {
        seq![]
    }) by {
        if allowed_address(data, list) {
            let domain = choose|domain: Seq<char>|
                on_domain(list.address@, domain) && #[trigger] allowed.deep_view().contains(domain);
            let k = choose|k: int|
                0 <= k < allowed.deep_view().len() && allowed.deep_view()[k] == domain;
            assert(allowed@[k]@ == domain);
        }
        if !wrong(list) {
            let k = choose|k: int|
                0 <= k < allowed.len() && on_domain(list.address@, (#[trigger] allowed@[k])@);
            assert(allowed.deep_view()[k] == allowed@[k]@);
            assert(allowed.deep_view().contains(allowed@[k]@));
        }
    }
    assert forall|team: Team| #[trigger] rule(team) == parts(team) by {
        findings::law_each_of_the_wrong(team.raw_lists@, list_rule, wrong, words);
    }
    assert(rule =~= parts);
    findings::law_each_in_turn(data.teams@, rule);
}

/// If nothing is found wrong with the addresses of lists, what follows the one `@` in each of
/// them, taken whole, is one of the domains that lists may be on.
pub proof fn law_whole_domain_is_allowed(data: Data, i: int, j: int)
    requires
        list_address_findings(data).len() == 0,
        0 <= i < data.teams.len(),
        0 <= j < data.teams@[i].raw_lists.len(),
    ensures
        exists|local: Seq<char>, k: int|
            {
                &&& 0 <= k < data.config.allowed_mailing_lists_domains.len()
                &&& data.teams@[i].raw_lists@[j].address@ == #[trigger] (local + "@"@
                    + data.config.allowed_mailing_lists_domains@[k]@)
                &&& !local.contains('@')
                &&& !data.config.allowed_mailing_lists_domains@[k]@.contains('@')
            },
{
    law_list_addresses(data);
    let list = data.teams@[i].raw_lists@[j];
    let allowed = data.config.allowed_mailing_lists_domains;
    assert(allowed_address(data, list));
    let domain = choose|domain: Seq<char>|
        on_domain(list.address@, domain) && #[trigger] allowed.deep_view().contains(domain);
    let k = choose|k: int| 0 <= k < allowed.deep_view().len() && allowed.deep_view()[k] == domain;
    assert(allowed@[k]@ == domain);
    reveal_strlit("@");
    let at = choose|at: int| #[trigger]
        address_split(list.address@, at) && domain == list.address@.skip(at + 1);
    let local = list.address@.take(at);
    if local.contains('@') {
        let m = choose|m: int| 0 <= m < local.len() && local[m] == '@';
        assert(address_char(list.address@[m]));
    }
    if domain.contains('@') {
        let m = choose|m: int| 0 <= m < domain.len() && domain[m] == '@';
        assert(address_char(list.address@[at + 1 + m]));
    }
    assert(list.address@ =~= local + "@"@ + allowed@[k]@);
}

/// A list address on a domain that is not one of those that lists may be on is found,
/// however much the domain has in common with them.
pub proof fn law_other_domains_are_found(
    data: Data,
    i: int,
    j: int,
    local: Seq<char>,
    domain: Seq<char>,
)
    requires
        0 <= i < data.teams.len(),
        0 <= j < data.teams@[i].raw_lists.len(),
        data.teams@[i].raw_lists@[j].address@ == local + "@"@ + domain,
        !local.contains('@'),
        !domain.contains('@'),
        forall|k: int|
            0 <= k < data.config.allowed_mailing_lists_domains.len() ==> (
            #[trigger] data.config.allowed_mailing_lists_domains@[k])@ != domain,
    ensures
        list_address_findings(data).len() > 0,
{
    if list_address_findings(data).len() == 0 {
        law_whole_domain_is_allowed(data, i, j);
        let allowed = data.config.allowed_mailing_lists_domains@;
        let address = data.teams@[i].raw_lists@[j].address@;
        let (other, k) = choose|other: Seq<char>, k: int|
            {
                &&& 0 <= k < allowed.len()
                &&& address == #[trigger] (other + "@"@ + allowed[k]@)
                &&& !other.contains('@')
                &&& !allowed[k]@.contains('@')
            };
        reveal_strlit("@");
        assert(address[local.len() as int] == '@');
        assert(address[other.len() as int] == '@');
        if local.len() < other.len() {
            assert(other[local.len() as int] == '@');
        } else if other.len() < local.len() {
            assert(local[other.len() as int] == '@');
        }
        assert(domain =~= address.skip(local.len() as int + 1));
        assert(allowed[k]@ =~= address.skip(other.len() as int + 1));
    }
}

/// There is a finding for each person whose email address is given without an `@` anywhere
/// in it.
pub proof fn law_email_findings(data: Data)
    ensures
        email_findings(data) == data.people@.filter(
            |person: Person|
                person.email is Present && !exists|k: int|
                    0 <= k < person.email->Present_0@.len() && #[trigger] person.email->Present_0@[k]
                        == '@',
        ).map_values(
            |person: Person|
                "invalid email address of `"@ + person.github@ + "`: "@ + person.email->Present_0@,
        ),
{
    let wrong = |person: Person|
        person.email is Present && !exists|k: int|
            0 <= k < person.email->Present_0@.len() && #[trigger] person.email->Present_0@[k]
                == '@';
    let words = |person: Person|
        "invalid email address of `"@ + person.github@ + "`: "@ + person.email->Present_0@;
    findings::law_each_of_the_wrong(
        data.people@,
        |person: Person| findings::listed(email_fault(person)),
        wrong,
        words,
    );
}

} // verus!
