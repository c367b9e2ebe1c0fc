//! Who is in which team.

use vstd::hash_set::StringHashSet;
use vstd::prelude::*;

use crate::findings;
use crate::findings::wrapper;
use crate::schema;
use crate::schema::{Data, List, Person, Team};
use crate::text;

verus! {

/// What is wrong with someone who leads a team with these members.
pub open spec fn lead_fault(team: Team, members: Seq<Seq<char>>, lead: Seq<char>) -> Option<
    Seq<char>,
> {
    if members.contains(lead) {
        None
    } else {
        Some("`"@ + lead + "` leads team `"@ + team.name@ + "`, but is not a member of it"@)
    }
}

/// What is found wrong with those who lead a team.
pub open spec fn leads_of_team_findings(team: Team) -> Seq<Seq<char>> {
    match team.members {
        Ok(members) => findings::each(
            team.leads@,
            |lead: String| findings::listed(lead_fault(team, members.deep_view(), lead@)),
        ),
        Err(message) => seq![message@],
    }
}

/// What is found wrong with those who lead teams.
pub open spec fn lead_findings(data: Data) -> Seq<Seq<char>> {
    findings::each(data.teams@, |team: Team| leads_of_team_findings(team))
}

/// Ensures that those who lead a team are members of it.
pub fn validate_team_leads(data: &Data, errors: &mut Vec<String>)
    ensures
        final(errors).deep_view() == old(errors).deep_view() + lead_findings(*data),
{
    let rule = |team: &Team, errors: Vec<String>| -> (out: (Vec<String>, Result<(), String>))
        ensures
            findings::outcome(out) == errors.deep_view() + leads_of_team_findings(*team),
        {
            match &team.members {
                Ok(members) => {
                    let lead_rule = |
                        lead: &String,
                        errors: Vec<String>,
                    | -> (out: (Vec<String>, Result<(), String>))
                        ensures
                            findings::outcome(out) == errors.deep_view() + findings::listed(
                                lead_fault(*team, members.deep_view(), lead@),
                            ),
                        {
                            let verdict = if text::contains_text(members, lead.as_str()) {
                                Ok(())
                            } else {
                                Err(
                                    "`".to_owned().concat(lead.as_str()).concat(
                                        "` leads team `",
                                    ).concat(team.name.as_str()).concat(
                                        "`, but is not a member of it",
                                    ),
                                )
                            };
                            (errors, verdict)
                        };
                    assert(findings::adds(
                        lead_rule,
                        |lead: String|
                            findings::listed(lead_fault(*team, members.deep_view(), lead@)),
                    ));
                    let mut errors = errors;
                    wrapper(&team.leads, &mut errors, lead_rule);
                    (errors, Ok(()))
                },
                Err(message) => (errors, Err(message.clone())),
            }
        };
    assert(findings::adds(rule, |team: Team| leads_of_team_findings(team)));
    wrapper(&data.teams, errors, rule);
}

/// What is wrong with a member of a team.
pub open spec fn member_fault(data: Data, team: Team, member: Seq<char>) -> Option<Seq<char>> {
    if data.person_named(member) is None {
        Some("person `"@ + member + "` is member of team `"@ + team.name@ + "` but doesn't exist"@)
    } else {
        None
    }
}

/// What is found wrong with the members of a team.
pub open spec fn members_of_team_findings(data: Data, team: Team) -> Seq<Seq<char>> {
    match team.members {
        Ok(members) => findings::each(
            members@,
            |member: String| findings::listed(member_fault(data, team, member@)),
        ),
        Err(message) => seq![message@],
    }
}

/// What is found wrong with the members of teams.
pub open spec fn member_findings(data: Data) -> Seq<Seq<char>> {
    findings::each(data.teams@, |team: Team| members_of_team_findings(data, team))
}

/// Ensures that the members of teams are people.
pub fn validate_team_members(data: &Data, errors: &mut Vec<String>)
    ensures
        final(errors).deep_view() == old(errors).deep_view() + member_findings(*data),
{
    let rule = |team: &Team, errors: Vec<String>| -> (out: (Vec<String>, Result<(), String>))
        ensures
            findings::outcome(out) == errors.deep_view() + members_of_team_findings(*data, *team),
        {
            match &team.members {
                Ok(members) => {
                    let member_rule = |
                        member: &String,
                        errors: Vec<String>,
                    | -> (out: (Vec<String>, Result<(), String>))
                        ensures
                            findings::outcome(out) == errors.deep_view() + findings::listed(
                                member_fault(*data, *team, member@),
                            ),
                        {
                            let verdict = if data.person(member.as_str()).is_none() {
                                Err(
                                    "person `".to_owned().concat(member.as_str()).concat(
                                        "` is member of team `",
                                    ).concat(team.name.as_str()).concat("` but doesn't exist"),
                                )
                            } else {
                                Ok(())
                            };
                            (errors, verdict)
                        };
                    assert(findings::adds(
                        member_rule,
                        |member: String| findings::listed(member_fault(*data, *team, member@)),
                    ));
                    let mut errors = errors;
                    wrapper(members, &mut errors, member_rule);
                    (errors, Ok(()))
                },
                Err(message) => (errors, Err(message.clone())),
            }
        };
    assert(findings::adds(rule, |team: Team| members_of_team_findings(*data, team)));
    wrapper(&data.teams, errors, rule);
}

/// Whether one of the lists has someone on it besides the members of the team.
pub open spec fn on_some_list(lists: Seq<List>, name: Seq<char>) -> bool {
    exists|i: int|
        0 <= i < lists.len() && (#[trigger] lists[i]).extra_people.deep_view().contains(name)
}

/// Whether someone has to do with a team whose members are known: as a member, as one
/// who has left or through a mailing list.
pub open spec fn takes_part(team: Team, name: Seq<char>) -> bool {
    team.members matches Ok(members) && (members.deep_view().contains(name)
        || team.alumni.deep_view().contains(name) || on_some_list(team.raw_lists@, name))
}

/// Whether someone has to do with one of the teams.
pub open spec fn active(teams: Seq<Team>, name: Seq<char>) -> bool {
    exists|i: int| 0 <= i < teams.len() && takes_part(#[trigger] teams[i], name)
}

/// The message of why the members of a team are not known, if they are not.
pub open spec fn unknown_members(team: Team) -> Option<Seq<char>> {
    match team.members {
        Ok(_) => None,
        Err(message) => Some(message@),
    }
}

/// Those of the people whose name nobody before them goes by.
pub open spec fn distinct_people(people: Seq<Person>) -> Seq<Person>
    decreases people.len(),
{
    if people.len() == 0 {
        seq![]
    } else if schema::first_person(people.drop_last(), people.last().github@) is Some {
        distinct_people(people.drop_last())
    } else {
        distinct_people(people.drop_last()).push(people.last())
    }
}

/// What is wrong with a person who has nothing to do with the teams.
pub open spec fn inactive_fault(teams: Seq<Team>, person: Person) -> Option<Seq<char>> {
    if !active(teams, person.github@) && !person.permissions.holds_any() {
        Some(
            "person `"@ + person.github@ + "` is not a member of any team and has no permissions"@,
        )
    } else {
        None
    }
}

/// What is found wrong as to people who have nothing to do with the teams.
pub open spec fn inactive_findings(data: Data) -> Seq<Seq<char>> {
    findings::each(data.teams@, |team: Team| findings::listed(unknown_members(team)))
        + findings::each(
        distinct_people(data.people@),
        |person: Person| findings::listed(inactive_fault(data.teams@, person)),
    )
}

/// Adds names to a set of names.
fn add_names(set: &mut StringHashSet, names: &Vec<String>)
    ensures
        forall|name: Seq<char>| #[trigger]
            final(set)@.contains(name) <==> old(set)@.contains(name) || names.deep_view().contains(
                name,
            ),
{
    let ghost all = names.deep_view();
    let mut i: usize = 0;
    while i < names.len()
        invariant
            i <= names.len(),
            all == names.deep_view(),
            forall|name: Seq<char>| #[trigger]
                set@.contains(name) <==> old(set)@.contains(name) || exists|j: int|
                    0 <= j < i && all[j] == name,
        decreases names.len() - i,
    {
        set.insert(names[i].clone());
        assert(all[i as int] == names[i as int]@);
        i += 1;
    }
}

/// Adds the names on lists, besides those of members, to a set of names.
fn add_extra_people(set: &mut StringHashSet, lists: &Vec<List>)
    ensures
        forall|name: Seq<char>| #[trigger]
            final(set)@.contains(name) <==> old(set)@.contains(name) || on_some_list(lists@, name),
{
    let mut i: usize = 0;
    while i < lists.len()
        invariant
            i <= lists.len(),
            forall|name: Seq<char>| #[trigger]
                set@.contains(name) <==> old(set)@.contains(name) || exists|j: int|
                    0 <= j < i && (#[trigger] lists@[j]).extra_people.deep_view().contains(name),
        decreases lists.len() - i,
    {
        add_names(set, &lists[i].extra_people);
        i += 1;
    }
}

/// The names of all who have to do with the teams. What keeps the members of a team from
/// being known is added to the findings.
fn active_members(teams: &Vec<Team>, errors: &mut Vec<String>) -> (names: StringHashSet)
    ensures
        forall|name: Seq<char>| #[trigger] names@.contains(name) <==> active(teams@, name),
        final(errors).deep_view() == old(errors).deep_view() + findings::each(
            teams@,
            |team: Team| findings::listed(unknown_members(team)),
        ),
{
    let mut names = StringHashSet::new();
    let ghost rule = |team: Team| findings::listed(unknown_members(team));
    let mut i: usize = 0;
    assert(errors.deep_view() =~= old(errors).deep_view() + findings::each(teams@.take(0), rule));
    while i < teams.len()
        invariant
            i <= teams.len(),
            rule == (|team: Team| findings::listed(unknown_members(team))),
            forall|name: Seq<char>| #[trigger]
                names@.contains(name) <==> exists|j: int|
                    0 <= j < i && takes_part(#[trigger] teams@[j], name),
            errors.deep_view() == old(errors).deep_view() + findings::each(
                teams@.take(i as int),
                rule,
            ),
        decreases teams.len() - i,
    {
        let ghost before = errors.deep_view();
        match &teams[i].members {
            Ok(members) => {
                add_names(&mut names, members);
                add_names(&mut names, &teams[i].alumni);
                add_extra_people(&mut names, &teams[i].raw_lists);
                assert(errors.deep_view() =~= before + rule(teams@[i as int]));
            },
            Err(message) => {
                errors.push(message.clone());
                assert(errors.deep_view() =~= before + rule(teams@[i as int]));
            },
        }
        proof {
            assert(teams@.take(i + 1).drop_last() =~= teams@.take(i as int));
            assert(errors.deep_view() =~= old(errors).deep_view() + findings::each(
                teams@.take(i + 1),
                rule,
            ));
        }
        i += 1;
    }
    assert(teams@.take(i as int) =~= teams@);
    names
}

/// Ensures that every person has to do with at least one team or holds a permission.
pub fn validate_inactive_members(data: &Data, errors: &mut Vec<String>)
    ensures
        final(errors).deep_view() == old(errors).deep_view() + inactive_findings(*data),
{
    let names = active_members(&data.teams, errors);
    let ghost middle = errors.deep_view();
    let ghost rule = |person: Person| findings::listed(inactive_fault(data.teams@, person));
    let mut seen = StringHashSet::new();
    let mut i: usize = 0;
    assert(errors.deep_view() =~= middle + findings::each(
        distinct_people(data.people@.take(0)),
        rule,
    ));
    while i < data.people.len()
        invariant
            i <= data.people.len(),
            rule == (|person: Person| findings::listed(inactive_fault(data.teams@, person))),
            forall|name: Seq<char>| #[trigger]
                names@.contains(name) <==> active(data.teams@, name),
            forall|name: Seq<char>| #[trigger]
                seen@.contains(name) <==> schema::first_person(
                    data.people@.take(i as int),
                    name,
                ) is Some,
            errors.deep_view() == middle + findings::each(
                distinct_people(data.people@.take(i as int)),
                rule,
            ),
        decreases data.people.len() - i,
    {
        let person = &data.people[i];
        let ghost shorter = data.people@.take(i as int);
        let ghost longer = data.people@.take(i + 1);
        assert(longer.drop_last() =~= shorter);
        let ghost before = errors.deep_view();
        let fresh = seen.insert(person.github.clone());
        if fresh && !names.contains(person.github.as_str()) && !person.permissions.has_any() {
            errors.push(
                "person `".to_owned().concat(person.github.as_str()).concat(
                    "` is not a member of any team and has no permissions",
                ),
            );
            assert(errors.deep_view() =~= before + rule(*person));
        } else {
            assert(fresh ==> errors.deep_view() =~= before + rule(*person));
        }
        proof {
            if fresh {
                assert(distinct_people(longer).drop_last() =~= distinct_people(shorter));
                assert(errors.deep_view() =~= middle + findings::each(
                    distinct_people(longer),
                    rule,
                ));
            }
            assert forall|name: Seq<char>| #[trigger]
                schema::first_person(longer, name) is Some <==> schema::first_person(
                    shorter,
                    name,
                ) is Some || name == person.github@ by {
                schema::law_person_lookup(longer, name);
                schema::law_person_lookup(shorter, name);
                assert(longer[i as int] == *person);
                assert(forall|j: int| 0 <= j < i ==> #[trigger] shorter[j] == longer[j]);
                assert(forall|j: int| 0 <= j < i ==> shorter[j] == #[trigger] longer[j]);
            }
        }
        i += 1;
    }
    proof {
        assert(data.people@.take(i as int) =~= data.people@);
        assert(errors.deep_view() =~= old(errors).deep_view() + inactive_findings(*data));
    }
}

/// Whether the members of every team are known and those who lead it are among them.
pub open spec fn leads_are_members(data: Data) -> bool {
    forall|i: int|
        0 <= i < data.teams.len() ==> ((#[trigger] data.teams@[i]).members matches Ok(members)
            && forall|j: int|
            0 <= j < data.teams@[i].leads.len() ==> members.deep_view().contains(
                (#[trigger] data.teams@[i].leads@[j])@,
            ))
}

/// Nothing is found wrong with those who lead teams exactly if the members of every team
/// are known and those who lead it are among them.
pub proof fn law_team_leads(data: Data)
    ensures
        lead_findings(data).len() == 0 <==> leads_are_members(data),
{
    findings::law_each_empty(data.teams@, |team: Team| leads_of_team_findings(team));
    assert forall|i: int| 0 <= i < data.teams.len() implies (leads_of_team_findings(
        #[trigger] data.teams@[i],
    ).len() == 0 <==> (data.teams@[i].members matches Ok(members) && forall|j: int|
        0 <= j < data.teams@[i].leads.len() ==> members.deep_view().contains(
            (#[trigger] data.teams@[i].leads@[j])@,
        ))) by {
        let team = data.teams@[i];
        if team.members is Ok {
            let members = team.members->Ok_0;
            findings::law_each_empty(
                team.leads@,
                |lead: String| findings::listed(lead_fault(team, members.deep_view(), lead@)),
            );
        }
    }
}

/// Whether the members of every team are known and each of them has a record.
pub open spec fn members_are_people(data: Data) -> bool {
    forall|i: int|
        0 <= i < data.teams.len() ==> ((#[trigger] data.teams@[i]).members matches Ok(members)
            && forall|j: int|
            0 <= j < members.len() ==> data.person_named((#[trigger] members@[j])@) is Some)
}

/// Nothing is found wrong with the members of teams exactly if the members of every team
/// are known and each of them has a record.
pub proof fn law_team_members(data: Data)
    ensures
        member_findings(data).len() == 0 <==> members_are_people(data),
{
    findings::law_each_empty(data.teams@, |team: Team| members_of_team_findings(data, team));
    assert forall|i: int| 0 <= i < data.teams.len() implies (members_of_team_findings(
        data,
        #[trigger] data.teams@[i],
    ).len() == 0 <==> (data.teams@[i].members matches Ok(members) && forall|j: int|
        0 <= j < members.len() ==> data.person_named((#[trigger] members@[j])@) is Some)) by {
        let team = data.teams@[i];
        if team.members is Ok {
            findings::law_each_empty(
                team.members->Ok_0@,
                |member: String| findings::listed(member_fault(data, team, member@)),
            );
        }
    }
}

/// As long as nobody is listed twice among the members of a team, nobody is reported twice
/// as a member of it.
pub proof fn law_members_reported_once(data: Data, team: Team)
    requires
        team.lists_once(),
    ensures
        members_of_team_findings(data, team).no_duplicates(),
{
    if team.members is Ok {
        let members = team.members->Ok_0;
        let rule = |member: String| findings::listed(member_fault(data, team, member@));
        assert forall|i: int, j: int, message: Seq<char>|
            #![trigger rule(members@[i]).contains(message), rule(members@[j])]
            0 <= i < j < members@.len() && rule(members@[i]).contains(message) implies !rule(
            members@[j],
        ).contains(message) by {
            let (a, b) = (members.deep_view()[i], members.deep_view()[j]);
            if rule(members@[j]).contains(message) {
                let head = "person `"@;
                assert(message.len() - a.len() == message.len() - b.len());
                assert(message.skip(head.len() as int).take(a.len() as int) =~= a);
                assert(message.skip(head.len() as int).take(b.len() as int) =~= b);
            }
        }
        findings::law_each_once(members@, rule);
    }
}

/// What a name leads to does not change as people are added behind.
proof fn lemma_first_person_stays(people: Seq<Person>, person: Person, name: Seq<char>)
    ensures
        schema::first_person(people, name) is Some ==> schema::first_person(
            people.push(person),
            name,
        ) == schema::first_person(people, name),
        schema::first_person(people, name) is None ==> schema::first_person(
            people.push(person),
            name,
        ) == (if person.github@ == name {
            Some(person)
        } else {
            None
        }),
    decreases people.len(),
{
    if people.len() > 0 {
        lemma_first_person_stays(people.drop_first(), person, name);
        assert(people.push(person).drop_first() =~= people.drop_first().push(person));
    } else {
        reveal_with_fuel(schema::first_person, 2);
    }
}

/// Of the people without repetitions, there is one for each name, the one that the name
/// leads to.
proof fn lemma_distinct_people(people: Seq<Person>)
    ensures
        forall|i: int|
            0 <= i < distinct_people(people).len() ==> schema::first_person(
                people,
                (#[trigger] distinct_people(people)[i]).github@,
            ) == Some(distinct_people(people)[i]),
        forall|name: Seq<char>|
            (#[trigger] schema::first_person(people, name)) matches Some(person)
                ==> distinct_people(people).contains(person),
    decreases people.len(),
{
    if people.len() > 0 {
        let init = people.drop_last();
        let last = people.last();
        lemma_distinct_people(init);
        assert(people =~= init.push(last));
        let short = distinct_people(init);
        let long = distinct_people(people);
        assert forall|i: int| 0 <= i < long.len() implies schema::first_person(
            people,
            (#[trigger] long[i]).github@,
        ) == Some(long[i]) by {
            lemma_first_person_stays(init, last, long[i].github@);
            if i < short.len() {
                assert(long[i] == short[i]);
            }
        }
        assert forall|name: Seq<char>|
            (#[trigger] schema::first_person(people, name)) matches Some(
                person,
            ) implies long.contains(schema::first_person(people, name)->0) by {
            lemma_first_person_stays(init, last, name);
            let person = schema::first_person(people, name)->0;
            if schema::first_person(init, name) is Some {
                let k = choose|k: int| 0 <= k < short.len() && short[k] == person;
                assert(long[k] == person);
            } else {
                assert(long[long.len() - 1] == person);
            }
        }
    }
}

/// Whether the members of every team are known and every person has to do with a team or
/// holds a permission.
pub open spec fn people_take_part(data: Data) -> bool {
    &&& forall|i: int|
        0 <= i < data.teams.len() ==> (#[trigger] data.teams@[i]).members is Ok
    &&& forall|name: Seq<char>|
        (#[trigger] data.person_named(name)) matches Some(person) ==> active(
            data.teams@,
            name,
        ) || person.permissions.holds_any()
}

/// Nothing is found wrong as to people who have nothing to do with the teams exactly if
/// the members of every team are known and every person has to do with one of the teams
/// or holds a permission.
pub proof fn law_inactive_members(data: Data)
    ensures
        inactive_findings(data).len() == 0 <==> people_take_part(data),
{
    let people = distinct_people(data.people@);
    findings::law_each_empty(data.teams@, |team: Team| findings::listed(unknown_members(team)));
    findings::law_each_empty(
        people,
        |person: Person| findings::listed(inactive_fault(data.teams@, person)),
    );
    lemma_distinct_people(data.people@);
    assert forall|name: Seq<char>|
        (#[trigger] data.person_named(name)) matches Some(person) implies data.person_named(
        name,
    )->0.github@ == name by {
        schema::law_person_lookup(data.people@, name);
    }
    if forall|i: int|
        0 <= i < people.len() ==> inactive_fault(data.teams@, #[trigger] people[i]) is None {
        assert forall|name: Seq<char>|
            (#[trigger] data.person_named(name)) matches Some(person) implies active(
            data.teams@,
            name,
        ) || data.person_named(name)->0.permissions.holds_any() by {
            let person = data.person_named(name)->0;
            let k = choose|k: int| 0 <= k < people.len() && people[k] == person;
            assert(inactive_fault(data.teams@, people[k]) is None);
        }
    }
    if forall|name: Seq<char>|
        (#[trigger] data.person_named(name)) matches Some(person) ==> active(data.teams@, name)
            || person.permissions.holds_any() {
        assert forall|i: int| 0 <= i < people.len() implies inactive_fault(
            data.teams@,
            #[trigger] people[i],
        ) is None by {
            assert(data.person_named(people[i].github@) == Some(people[i]));
        }
    }
}

/// Of a team whose members are known, there is a finding for each lead who is not among
/// them, in the order of the leads; of another, why they are not known.
pub proof fn law_lead_findings(data: Data)
    ensures
        lead_findings(data) == data.teams@.flat_map(
            |team: Team|
                match team.members {
                    Ok(members) => team.leads.deep_view().filter(
                        |lead: Seq<char>|
                            !exists|j: int|
                                0 <= j < members.len() && (#[trigger] members@[j])@ == lead,
                    ).map_values(
                        |lead: Seq<char>|
                            "`"@ + lead + "` leads team `"@ + team.name@
                                + "`, but is not a member of it"@,
                    ),
                    Err(message) => seq![message@],
                },
        ),
{
    let parts = |team: Team|
        match team.members {
            Ok(members) => team.leads.deep_view().filter(
                |lead: Seq<char>|
                    !exists|j: int| 0 <= j < members.len() && (#[trigger] members@[j])@ == lead,
            ).map_values(
                |lead: Seq<char>|
                    "`"@ + lead + "` leads team `"@ + team.name@ + "`, but is not a member of it"@,
            ),
            Err(message) => seq![message@],
        };
    let rule = |team: Team| leads_of_team_findings(team);
    assert forall|team: Team| #[trigger] rule(team) == parts(team) by {
        if team.members is Ok {
            let members = team.members->Ok_0;
            let wrong = |lead: Seq<char>|
                !exists|j: int| 0 <= j < members.len() && (#[trigger] members@[j])@ == lead;
            let words = |lead: Seq<char>|
                "`"@ + lead + "` leads team `"@ + team.name@ + "`, but is not a member of it"@;
            assert forall|lead: Seq<char>| wrong(lead) <==> !#[trigger] members.deep_view().contains(
                lead,
            ) by {
                if !wrong(lead) {
                    let j = choose|j: int|
                        0 <= j < members.len() && (#[trigger] members@[j])@ == lead;
                    assert(members.deep_view()[j] == lead);
                }
            }
            findings::law_each_of_the_wrong_texts(
                team.leads,
                |lead: String| findings::listed(lead_fault(team, members.deep_view(), lead@)),
                wrong,
                words,
            );
        }
    }
    assert(rule =~= parts);
    findings::law_each_in_turn(data.teams@, rule);
}

/// Of a team whose members are known, there is a finding for each member whom no record is
/// of, in the order of the members; of another, why they are not known.
pub proof fn law_member_findings(data: Data)
    ensures
        member_findings(data) == data.teams@.flat_map(
            |team: Team|
                match team.members {
                    Ok(members) => members.deep_view().filter(
                        |member: Seq<char>|
                            !exists|j: int|
                                0 <= j < data.people.len() && (
                                #[trigger] data.people@[j]).github@ == member,
                    ).map_values(
                        |member: Seq<char>|
                            "person `"@ + member + "` is member of team `"@ + team.name@
                                + "` but doesn't exist"@,
                    ),
                    Err(message) => seq![message@],
                },
        ),
{
    let parts = |team: Team|
        match team.members {
            Ok(members) => members.deep_view().filter(
                |member: Seq<char>|
                    !exists|j: int|
                        0 <= j < data.people.len() && (#[trigger] data.people@[j]).github@
                            == member,
            ).map_values(
                |member: Seq<char>|
                    "person `"@ + member + "` is member of team `"@ + team.name@
                        + "` but doesn't exist"@,
            ),
            Err(message) => seq![message@],
        };
    let rule = |team: Team| members_of_team_findings(data, team);
    assert forall|team: Team| #[trigger] rule(team) == parts(team) by {
        if team.members is Ok {
            let wrong = |member: Seq<char>|
                !exists|j: int|
                    0 <= j < data.people.len() && (#[trigger] data.people@[j]).github@ == member;
            let words = |member: Seq<char>|
                "person `"@ + member + "` is member of team `"@ + team.name@
                    + "` but doesn't exist"@;
            assert forall|member: Seq<char>| wrong(member) <==> #[trigger] data.person_named(
                member,
            ) is None by {
                schema::law_person_lookup(data.people@, member);
            }
            findings::law_each_of_the_wrong_texts(
                team.members->Ok_0,
                |member: String| findings::listed(member_fault(data, team, member@)),
                wrong,
                words,
            );
        }
    }
    assert(rule =~= parts);
    findings::law_each_in_turn(data.teams@, rule);
}

proof fn lemma_inactive_people(data: Data, n: nat, at: spec_fn(int) -> Seq<Seq<char>>)
    requires
        n <= data.people.len(),
        forall|i: int|
            0 <= i < n ==> #[trigger] at(i) == (if exists|j: int|
                0 <= j < i && (#[trigger] data.people@[j]).github@ == data.people@[i].github@ {
                seq![]
            } else {
                findings::listed(inactive_fault(data.teams@, data.people@[i]))
            }),
    ensures
        findings::each(
            distinct_people(data.people@.take(n as int)),
            |person: Person| findings::listed(inactive_fault(data.teams@, person)),
        ) == Seq::new(n, at).flatten(),
    decreases n,
{
    let rule = |person: Person| findings::listed(inactive_fault(data.teams@, person));
    if n == 0 {
        assert(Seq::new(0, at).flatten() =~= seq![]);
    } else {
        let m = (n - 1) as nat;
        lemma_inactive_people(data, m, at);
        findings::lemma_one_place_more(m, at);
        let shorter = data.people@.take(m as int);
        let longer = data.people@.take(n as int);
        let person = data.people@[m as int];
        assert(longer.drop_last() =~= shorter);
        assert(longer.last() == person);
        schema::law_person_lookup(shorter, person.github@);
        assert(forall|j: int| 0 <= j < m ==> #[trigger] shorter[j] == data.people@[j]);
        assert(forall|j: int| 0 <= j < m ==> shorter[j] == #[trigger] data.people@[j]);
        assert(at(m as int) == (if schema::first_person(shorter, person.github@) is Some {
            seq![]
        } else {
            rule(person)
        }));
        if schema::first_person(shorter, person.github@) is Some {
            assert(Seq::new(n, at).flatten() =~= Seq::new(m, at).flatten());
        } else {
            assert(distinct_people(longer).drop_last() =~= distinct_people(shorter));
        }
    }
}

/// After the messages of why members are not known, there is a finding on each person, where
/// the name first occurs, who holds no permission and is not, in any of the teams whose
/// members are known, a member, one who has left or on a list besides the members.
pub proof fn law_inactive_findings(data: Data)
    ensures
        inactive_findings(data) == data.teams@.filter(
            |team: Team| team.members is Err,
        ).map_values(|team: Team| team.members->Err_0@) + Seq::new(
            data.people.len() as nat,
            |i: int|
                if {
                    ||| data.people@[i].permissions.direct.len() > 0
                    ||| data.people@[i].permissions.implied.len() > 0
                    ||| exists|j: int|
                        0 <= j < i && (#[trigger] data.people@[j]).github@
                            == data.people@[i].github@
                    ||| exists|t: int|
                        {
                            &&& 0 <= t < data.teams.len()
                            &&& (#[trigger] data.teams@[t]).members is Ok
                            &&& {
                                ||| data.teams@[t].members->Ok_0.deep_view().contains(
                                    data.people@[i].github@,
                                )
                                ||| data.teams@[t].alumni.deep_view().contains(
                                    data.people@[i].github@,
                                )
                                ||| exists|l: int|
                                    0 <= l < data.teams@[t].raw_lists.len() && (
                                    #[trigger] data.teams@[t].raw_lists@[l]).extra_people.deep_view().contains(
                                    data.people@[i].github@)
                            }
                        }
                } {
                    seq![]
                } else {
                    seq![
                        "person `"@ + data.people@[i].github@
                            + "` is not a member of any team and has no permissions"@,
                    ]
                },
        ).flatten(),
{
    let at = |i: int|
        if {
            ||| data.people@[i].permissions.direct.len() > 0
            ||| data.people@[i].permissions.implied.len() > 0
            ||| exists|j: int|
                0 <= j < i && (#[trigger] data.people@[j]).github@ == data.people@[i].github@
            ||| exists|t: int|
                {
                    &&& 0 <= t < data.teams.len()
                    &&& (#[trigger] data.teams@[t]).members is Ok
                    &&& {
                        ||| data.teams@[t].members->Ok_0.deep_view().contains(
                            data.people@[i].github@,
                        )
                        ||| data.teams@[t].alumni.deep_view().contains(data.people@[i].github@)
                        ||| exists|l: int|
                            0 <= l < data.teams@[t].raw_lists.len() && (
                            #[trigger] data.teams@[t].raw_lists@[l]).extra_people.deep_view().contains(
                            data.people@[i].github@)
                    }
                }
        } {
            seq![]
        } else {
            seq![
                "person `"@ + data.people@[i].github@
                    + "` is not a member of any team and has no permissions"@,
            ]
        };
    findings::law_each_of_the_wrong(
        data.teams@,
        |team: Team| findings::listed(unknown_members(team)),
        |team: Team| team.members is Err,
        |team: Team| team.members->Err_0@,
    );
    assert forall|i: int| 0 <= i < data.people.len() implies #[trigger] at(i) == (if exists|j: int|
        0 <= j < i && (#[trigger] data.people@[j]).github@ == data.people@[i].github@ {
        seq![]
    } else {
        findings::listed(inactive_fault(data.teams@, data.people@[i]))
    }) by {
        let person = data.people@[i];
        schema::law_permissions_held(person.permissions, person.github@);
        if active(data.teams@, person.github@) {
            let t = choose|t: int|
                0 <= t < data.teams.len() && takes_part(#[trigger] data.teams@[t], person.github@);
            assert(data.teams@[t].members is Ok);
        }
    }
    lemma_inactive_people(data, data.people@.len(), at);
    assert(data.people@.take(data.people@.len() as int) =~= data.people@);
}

/// Whoever is named in any one of the teams whose members are known, as a member, as one who
/// has left or on a list, is not found to have nothing to do with the teams.
pub proof fn law_named_in_any_team(data: Data, i: int, name: Seq<char>)
    requires
        0 <= i < data.teams.len(),
        data.teams@[i].members is Ok,
        ({
            ||| data.teams@[i].members->Ok_0.deep_view().contains(name)
            ||| data.teams@[i].alumni.deep_view().contains(name)
            ||| exists|l: int|
                0 <= l < data.teams@[i].raw_lists.len() && (
                #[trigger] data.teams@[i].raw_lists@[l]).extra_people.deep_view().contains(name)
        }),
        forall|t: int|
            0 <= t < data.teams.len() ==> ((#[trigger] data.teams@[t]).members matches Err(message)
                ==> message@ != "person `"@ + name
                + "` is not a member of any team and has no permissions"@),
    ensures
        !inactive_findings(data).contains(
            "person `"@ + name + "` is not a member of any team and has no permissions"@,
        ),
{
    let message = "person `"@ + name + "` is not a member of any team and has no permissions"@;
    let team_rule = |team: Team| findings::listed(unknown_members(team));
    let rule = |person: Person| findings::listed(inactive_fault(data.teams@, person));
    let people = distinct_people(data.people@);
    findings::law_each_contains(data.teams@, team_rule, message);
    findings::law_each_contains(people, rule, message);
    assert(takes_part(data.teams@[i], name));
    assert(active(data.teams@, name));
    assert forall|k: int| 0 <= k < people.len() implies !rule(#[trigger] people[k]).contains(
        message,
    ) by {
        let other = people[k].github@;
        if rule(people[k]).contains(message) {
            let n = "person `"@.len() as int;
            assert(message.skip(n).take(name.len() as int) =~= name);
            assert(message.skip(n).take(other.len() as int) =~= other);
        }
    }
    let first = findings::each(data.teams@, team_rule);
    let second = findings::each(people, rule);
    if (first + second).contains(message) {
        let k = choose|k: int| 0 <= k < (first + second).len() && (first + second)[k] == message;
        if k < first.len() {
            assert(first.contains(first[k]));
        } else {
            assert(second.contains(second[k - first.len()]));
        }
    }
}

/// Whoever is named in none of the teams whose members are known, and whose first record
/// gives no permission, is found to have nothing to do with the teams.
pub proof fn law_named_in_no_team(data: Data, p: int)
    requires
        0 <= p < data.people.len(),
        forall|j: int|
            0 <= j < p ==> (#[trigger] data.people@[j]).github@ != data.people@[p].github@,
        data.people@[p].permissions.direct.len() == 0,
        data.people@[p].permissions.implied.len() == 0,
        forall|t: int|
            0 <= t < data.teams.len() && (#[trigger] data.teams@[t]).members is Ok ==> {
                &&& !data.teams@[t].members->Ok_0.deep_view().contains(data.people@[p].github@)
                &&& !data.teams@[t].alumni.deep_view().contains(data.people@[p].github@)
                &&& forall|l: int|
                    0 <= l < data.teams@[t].raw_lists.len() ==> !(
                    #[trigger] data.teams@[t].raw_lists@[l]).extra_people.deep_view().contains(
                        data.people@[p].github@,
                    )
            },
    ensures
        inactive_findings(data).contains(
            "person `"@ + data.people@[p].github@
                + "` is not a member of any team and has no permissions"@,
        ),
{
    let person = data.people@[p];
    let message = "person `"@ + person.github@
        + "` is not a member of any team and has no permissions"@;
    let team_rule = |team: Team| findings::listed(unknown_members(team));
    let rule = |person: Person| findings::listed(inactive_fault(data.teams@, person));
    let people = distinct_people(data.people@);
    lemma_distinct_people(data.people@);
    schema::law_first_person(data, person.github@);
    let named = data.person_named(person.github@)->0;
    let i = choose|i: int|
        {
            &&& 0 <= i < data.people.len()
            &&& #[trigger] data.people@[i] == named
            &&& named.github@ == person.github@
            &&& forall|j: int| 0 <= j < i ==> (#[trigger] data.people@[j]).github@ != person.github@
        };
    if i < p {
        assert(data.people@[i].github@ != person.github@);
    }
    assert(i == p && named == person);
    assert(schema::first_person(data.people@, person.github@) == Some(person));
    assert(people.contains(person));
    let k = choose|k: int| 0 <= k < people.len() && people[k] == person;
    schema::law_permissions_held(person.permissions, person.github@);
    assert(!active(data.teams@, person.github@));
    assert(rule(people[k])[0] == message);
    assert(rule(people[k]).contains(message));
    findings::law_each_contains(people, rule, message);
    let first = findings::each(data.teams@, team_rule);
    let second = findings::each(people, rule);
    let m = choose|m: int| 0 <= m < second.len() && second[m] == message;
    assert((first + second)[first.len() + m] == message);
}

} // verus!
