//! What people and teams are permitted to do.

use vstd::prelude::*;

use crate::findings;
use crate::findings::wrapper;
use crate::schema;
use crate::schema::{Data, Person, Team};

verus! {

/// The first of the permissions that the team holds and the person is given by name.
pub open spec fn first_given_twice(
    permissions: Seq<String>,
    team: Team,
    person: Person,
) -> Option<Seq<char>>
    decreases permissions.len(),
{
    if permissions.len() == 0 {
        None
    } else if team.permissions.holds(permissions.first()@) && person.permissions.gives(
        permissions.first()@,
    ) {
        Some(permissions.first()@)
    } else {
        first_given_twice(permissions.drop_first(), team, person)
    }
}

/// What is wrong with the permissions of a member of a team besides those of the team.
pub open spec fn given_twice_fault(data: Data, team: Team, member: Seq<char>) -> Option<Seq<char>> {
    match data.person_named(member) {
        Some(person) => match first_given_twice(
            data.config.available_permissions@,
            team,
            person,
        ) {
            Some(permission) => Some(
                "user `"@ + member + "` has the permission `"@ + permission
                    + "` both explicitly and through the `"@ + team.name@ + "` team"@,
            ),
            None => None,
        },
        None => None,
    }
}

/// What is found wrong with the permissions of a team's members besides those of the team.
pub open spec fn given_twice_in_team_findings(data: Data, team: Team) -> Seq<Seq<char>> {
    match team.members {
        Ok(members) => findings::each(
            members@,
            |member: String| findings::listed(given_twice_fault(data, team, member@)),
        ),
        Err(message) => seq![message@],
    }
}

/// What is found wrong with permissions that members have besides those of their teams.
pub open spec fn given_twice_findings(data: Data) -> Seq<Seq<char>> {
    findings::each(data.teams@, |team: Team| given_twice_in_team_findings(data, team))
}

fn ensure_given_once(data: &Data, team: &Team, member: &str) -> (verdict: Result<(), String>)
    ensures
        findings::fault(verdict) == given_twice_fault(*data, *team, member@),
{
    match data.person(member) {
        Some(person) => {
            let available = &data.config.available_permissions;
            let mut i: usize = 0;
            assert(available@.skip(0) =~= available@);
            while i < available.len()
                invariant
                    i <= available.len(),
                    first_given_twice(available@, *team, *person) == first_given_twice(
                        available@.skip(i as int),
                        *team,
                        *person,
                    ),
                    *available == data.config.available_permissions,
                    data.person_named(member@) == Some(*person),
                decreases available.len() - i,
            {
                let permission = &available[i];
                if team.permissions.has(permission.as_str()) && person.permissions.has_directly(
                    permission.as_str(),
                ) {
                    return Err(
                        "user `".to_owned().concat(member).concat("` has the permission `").concat(
                            permission.as_str(),
                        ).concat("` both explicitly and through the `").concat(
                            team.name.as_str(),
                        ).concat("` team"),
                    );
                }
                assert(available@.skip(i as int).drop_first() =~= available@.skip(i + 1));
                i += 1;
            }
            Ok(())
        },
        None => Ok(()),
    }
}

/// Ensures that the members of teams with permissions are not given those by name too.
pub fn validate_duplicate_permissions(data: &Data, errors: &mut Vec<String>)
    ensures
        final(errors).deep_view() == old(errors).deep_view() + given_twice_findings(*data),
{
    let rule = |team: &Team, errors: Vec<String>| -> (out: (Vec<String>, Result<(), String>))
        ensures
            findings::outcome(out) == errors.deep_view() + given_twice_in_team_findings(
                *data,
                *team,
            ),
        {
            match &team.members {
                Ok(members) => {
                    let member_rule = |
                        member: &String,
                        errors: Vec<String>,
                    | -> (out: (Vec<String>, Result<(), String>))
                        ensures
                            findings::outcome(out) == errors.deep_view() + findings::listed(
                                given_twice_fault(*data, *team, member@),
                            ),
                        { (errors, ensure_given_once(data, team, member.as_str())) };
                    assert(findings::adds(
                        member_rule,
                        |member: String| findings::listed(given_twice_fault(*data, *team, member@)),
                    ));
                    let mut errors = errors;
                    wrapper(members, &mut errors, member_rule);
                    (errors, Ok(()))
                },
                Err(message) => (errors, Err(message.clone())),
            }
        };
    assert(findings::adds(rule, |team: Team| given_twice_in_team_findings(*data, team)));
    wrapper(&data.teams, errors, rule);
}

/// How a team is named where its permissions are spoken of.
pub open spec fn team_words(team: Team) -> Seq<char> {
    "team `"@ + team.name@ + "`"@
}

/// How a person is named where the person's permissions are spoken of.
pub open spec fn user_words(person: Person) -> Seq<char> {
    "user `"@ + person.github@ + "`"@
}

/// What is found wrong with the permissions of teams and people taken by themselves.
pub open spec fn permission_findings(data: Data) -> Seq<Seq<char>> {
    findings::each(
        data.teams@,
        |team: Team| findings::listed(team.permissions.fault_of(team_words(team))),
    ) + findings::each(
        data.people@,
        |person: Person| findings::listed(person.permissions.fault_of(user_words(person))),
    )
}

/// Ensures that the permissions of teams and people are valid.
pub fn validate_permissions(data: &Data, errors: &mut Vec<String>)
    ensures
        final(errors).deep_view() == old(errors).deep_view() + permission_findings(*data),
{
    let team_rule = |team: &Team, errors: Vec<String>| -> (out: (Vec<String>, Result<(), String>))
        ensures
            findings::outcome(out) == errors.deep_view() + findings::listed(
                team.permissions.fault_of(team_words(*team)),
            ),
        {
            let what = "team `".to_owned().concat(team.name.as_str()).concat("`");
            (errors, team.permissions.validate(what.as_str()))
        };
    assert(findings::adds(
        team_rule,
        |team: Team| findings::listed(team.permissions.fault_of(team_words(team))),
    ));
    wrapper(&data.teams, errors, team_rule);
    let person_rule = |
        person: &Person,
        errors: Vec<String>,
    | -> (out: (Vec<String>, Result<(), String>))
        ensures
            findings::outcome(out) == errors.deep_view() + findings::listed(
                person.permissions.fault_of(user_words(*person)),
            ),
        {
            let what = "user `".to_owned().concat(person.github.as_str()).concat("`");
            (errors, person.permissions.validate(what.as_str()))
        };
    assert(findings::adds(
        person_rule,
        |person: Person| findings::listed(person.permissions.fault_of(user_words(person))),
    ));
    wrapper(&data.people, errors, person_rule);
    assert(errors.deep_view() =~= old(errors).deep_view() + permission_findings(*data));
}

/// The message on a person who needs a Discord ID for a permission.
pub open spec fn no_discord_id(person: Person, permission: Seq<char>) -> Seq<char> {
    "person `"@ + person.github@ + "` has a Discord permission (`"@ + permission
        + "`) but no Discord ID"@
}

/// What is wrong with a person as to a permission that takes a Discord ID.
pub open spec fn discord_person_fault(person: Person, permission: Seq<char>) -> Option<Seq<char>> {
    if person.permissions.holds(permission) && person.discord_id is None {
        Some(no_discord_id(person, permission))
    } else {
        None
    }
}

/// What is wrong with a member of a team that holds a permission that takes a Discord ID.
pub open spec fn discord_member_fault(
    data: Data,
    member: Seq<char>,
    permission: Seq<char>,
) -> Option<Seq<char>> {
    match data.person_named(member) {
        Some(person) => if person.discord_id is None {
            Some(no_discord_id(person, permission))
        } else {
            None
        },
        None => Some("missing person "@ + member),
    }
}

/// What is found wrong with the members of a team as to a permission that takes a Discord
/// ID.
pub open spec fn discord_team_findings(data: Data, team: Team, permission: Seq<char>) -> Seq<
    Seq<char>,
> {
    if team.permissions.holds(permission) {
        match team.members {
            Ok(members) => findings::each(
                members@,
                |member: String| findings::listed(discord_member_fault(data, member@, permission)),
            ),
            Err(message) => seq![message@],
        }
    } else {
        seq![]
    }
}

/// What is found wrong as to one permission that takes a Discord ID.
pub open spec fn discord_permission_findings(data: Data, permission: Seq<char>) -> Seq<Seq<char>> {
    findings::each(
        data.people@,
        |person: Person| findings::listed(discord_person_fault(person, permission)),
    ) + findings::each(
        data.teams@,
        |team: Team| discord_team_findings(data, team, permission),
    )
}

/// What is found wrong as to the permissions that take a Discord ID.
pub open spec fn discord_findings(data: Data) -> Seq<Seq<char>> {
    findings::each(
        data.config.discord_permissions@,
        |permission: String| discord_permission_findings(data, permission@),
    )
}

fn no_discord_id_text(person: &Person, permission: &str) -> (message: String)
    ensures
        message@ == no_discord_id(*person, permission@),
{
    "person `".to_owned().concat(person.github.as_str()).concat(
        "` has a Discord permission (`",
    ).concat(permission).concat("`) but no Discord ID")
}

fn ensure_member_on_discord(data: &Data, member: &str, permission: &str) -> (verdict: Result<
    (),
    String,
>)
    ensures
        findings::fault(verdict) == discord_member_fault(*data, member@, permission@),
{
    match data.person(member) {
        Some(person) => if person.discord_id.is_none() {
            Err(no_discord_id_text(person, permission))
        } else {
            Ok(())
        },
        None => Err("missing person ".to_owned().concat(member)),
    }
}

fn validate_discord_people(data: &Data, permission: &str, errors: &mut Vec<String>)
    ensures
        final(errors).deep_view() == old(errors).deep_view() + findings::each(
            data.people@,
            |person: Person| findings::listed(discord_person_fault(person, permission@)),
        ),
{
    let rule = |person: &Person, errors: Vec<String>| -> (out: (Vec<String>, Result<(), String>))
        ensures
            findings::outcome(out) == errors.deep_view() + findings::listed(
                discord_person_fault(*person, permission@),
            ),
        {
            let verdict = if person.permissions.has(permission) && person.discord_id.is_none() {
                Err(no_discord_id_text(person, permission))
            } else {
                Ok(())
            };
            (errors, verdict)
        };
    assert(findings::adds(
        rule,
        |person: Person| findings::listed(discord_person_fault(person, permission@)),
    ));
    wrapper(&data.people, errors, rule);
}

fn validate_discord_teams(data: &Data, permission: &str, errors: &mut Vec<String>)
    ensures
        final(errors).deep_view() == old(errors).deep_view() + findings::each(
            data.teams@,
            |team: Team| discord_team_findings(*data, team, permission@),
        ),
{
    let rule = |team: &Team, errors: Vec<String>| -> (out: (Vec<String>, Result<(), String>))
        ensures
            findings::outcome(out) == errors.deep_view() + discord_team_findings(
                *data,
                *team,
                permission@,
            ),
        {
            if !team.permissions.has(permission) {
                return (errors, Ok(()));
            }
            match &team.members {
                Ok(members) => {
                    let member_rule = |
                        member: &String,
                        errors: Vec<String>,
                    | -> (out: (Vec<String>, Result<(), String>))
                        ensures
                            findings::outcome(out) == errors.deep_view() + findings::listed(
                                discord_member_fault(*data, member@, permission@),
                            ),
                        { (errors, ensure_member_on_discord(data, member.as_str(), permission)) };
                    assert(findings::adds(
                        member_rule,
                        |member: String|
                            findings::listed(discord_member_fault(*data, member@, permission@)),
                    ));
                    let mut errors = errors;
                    wrapper(members, &mut errors, member_rule);
                    (errors, Ok(()))
                },
                Err(message) => (errors, Err(message.clone())),
            }
        };
    assert(findings::adds(
        rule,
        |team: Team| discord_team_findings(*data, team, permission@),
    ));
    wrapper(&data.teams, errors, rule);
}

fn validate_discord_permission(data: &Data, permission: &str, errors: &mut Vec<String>)
    ensures
        final(errors).deep_view() == old(errors).deep_view() + discord_permission_findings(
            *data,
            permission@,
        ),
{
    validate_discord_people(data, permission, errors);
    validate_discord_teams(data, permission, errors);
    assert(errors.deep_view() =~= old(errors).deep_view() + discord_permission_findings(
        *data,
        permission@,
    ));
}

/// Ensures that all who hold a permission that takes a Discord ID, themselves or through
/// a team, have one.
pub fn validate_discord_permissions(data: &Data, errors: &mut Vec<String>)
    ensures
        final(errors).deep_view() == old(errors).deep_view() + discord_findings(*data),
{
    let rule = |
        permission: &String,
        errors: Vec<String>,
    | -> (out: (Vec<String>, Result<(), String>))
        ensures
            findings::outcome(out) == errors.deep_view() + discord_permission_findings(
                *data,
                permission@,
            ),
        {
            let mut errors = errors;
            validate_discord_permission(data, permission.as_str(), &mut errors);
            (errors, Ok(()))
        };
    assert(findings::adds(
        rule,
        |permission: String| discord_permission_findings(*data, permission@),
    ));
    wrapper(&data.config.discord_permissions, errors, rule);
}

proof fn lemma_first_given_twice(permissions: Seq<String>, team: Team, person: Person)
    ensures
        first_given_twice(permissions, team, person) is None <==> forall|i: int|
            0 <= i < permissions.len() ==> !(team.permissions.holds((#[trigger] permissions[i])@)
                && person.permissions.gives(permissions[i]@)),
    decreases permissions.len(),
{
    if permissions.len() > 0 {
        let rest = permissions.drop_first();
        lemma_first_given_twice(rest, team, person);
        assert(forall|i: int| 0 <= i < rest.len() ==> #[trigger] rest[i] == permissions[i + 1]);
        assert(permissions.first() == permissions[0]);
        if forall|i: int|
            0 <= i < rest.len() ==> !(team.permissions.holds((#[trigger] rest[i])@)
                && person.permissions.gives(rest[i]@)) {
            assert forall|i: int| 0 < i < permissions.len() implies !(team.permissions.holds(
                (#[trigger] permissions[i])@,
            ) && person.permissions.gives(permissions[i]@)) by {
                assert(rest[i - 1] == permissions[i]);
            }
        }
    }
}

/// Whether the members of a team are known and none of those who have a record is given
/// by name a permission, of those there are, that the team holds.
pub open spec fn members_given_once(data: Data, team: Team) -> bool {
    team.members matches Ok(members) && forall|i: int, k: int|
        #![trigger members@[i], data.config.available_permissions@[k]]
        0 <= i < members.len() && 0 <= k < data.config.available_permissions.len() ==> (
        data.person_named(members@[i]@) matches Some(person) ==> !(team.permissions.holds(
            data.config.available_permissions@[k]@,
        ) && person.permissions.gives(data.config.available_permissions@[k]@)))
}

proof fn lemma_members_given_once(data: Data, team: Team)
    ensures
        given_twice_in_team_findings(data, team).len() == 0 <==> members_given_once(data, team),
{
    if team.members is Ok {
        let members = team.members->Ok_0@;
        let available = data.config.available_permissions@;
        findings::law_each_empty(
            members,
            |member: String| findings::listed(given_twice_fault(data, team, member@)),
        );
        assert forall|i: int| 0 <= i < members.len() implies (given_twice_fault(
            data,
            team,
            (#[trigger] members[i])@,
        ) is None <==> (data.person_named(members[i]@) matches Some(person) ==> forall|k: int|
            0 <= k < available.len() ==> !(team.permissions.holds((#[trigger] available[k])@)
                && person.permissions.gives(available[k]@)))) by {
            if data.person_named(members[i]@) is Some {
                lemma_first_given_twice(available, team, data.person_named(members[i]@)->0);
            }
        }
        if given_twice_in_team_findings(data, team).len() == 0 {
            assert forall|i: int, k: int|
                #![trigger members[i], available[k]]
                0 <= i < members.len() && 0 <= k < available.len() implies (data.person_named(
                members[i]@,
            ) matches Some(person) ==> !(team.permissions.holds(available[k]@)
                && person.permissions.gives(available[k]@))) by {
                assert(given_twice_fault(data, team, members[i]@) is None);
            }
        }
        if members_given_once(data, team) {
            assert forall|i: int| 0 <= i < members.len() implies given_twice_fault(
                data,
                team,
                (#[trigger] members[i])@,
            ) is None by {
                if data.person_named(members[i]@) is Some {
                    let person = data.person_named(members[i]@)->0;
                    assert forall|k: int| 0 <= k < available.len() implies !(
                    team.permissions.holds((#[trigger] available[k])@) && person.permissions.gives(
                        available[k]@,
                    )) by {
                        assert(members[i] == members[i]);
                    }
                }
            }
        }
    }
}

/// Whether the members of every team are known and not given by name what the team holds.
pub open spec fn permissions_are_given_once(data: Data) -> bool {
    forall|i: int|
        0 <= i < data.teams.len() ==> members_given_once(data, #[trigger] data.teams@[i])
}

/// Nothing is found wrong with permissions that members have besides those of their teams
/// exactly if the members of every team are known and none of them is given by name a
/// permission that the team holds.
pub proof fn law_duplicate_permissions(data: Data)
    ensures
        given_twice_findings(data).len() == 0 <==> permissions_are_given_once(data),
{
    findings::law_each_empty(data.teams@, |team: Team| given_twice_in_team_findings(data, team));
    assert forall|i: int| 0 <= i < data.teams.len() implies (given_twice_in_team_findings(
        data,
        #[trigger] data.teams@[i],
    ).len() == 0 <==> members_given_once(data, data.teams@[i])) by {
        lemma_members_given_once(data, data.teams@[i]);
    }
}

/// Whether nothing is wrong with the permissions of any team or person.
pub open spec fn permissions_are_sound(data: Data) -> bool {
    &&& forall|i: int|
        0 <= i < data.teams.len() ==> (#[trigger] data.teams@[i]).permissions.fault is None
    &&& forall|i: int|
        0 <= i < data.people.len() ==> (
        #[trigger] data.people@[i]).permissions.fault is None
}

/// Nothing is found wrong with the permissions of teams and people taken by themselves
/// exactly if nothing is wrong with those of any.
pub proof fn law_permissions(data: Data)
    ensures
        permission_findings(data).len() == 0 <==> permissions_are_sound(data),
{
    findings::law_each_empty(
        data.teams@,
        |team: Team| findings::listed(team.permissions.fault_of(team_words(team))),
    );
    findings::law_each_empty(
        data.people@,
        |person: Person| findings::listed(person.permissions.fault_of(user_words(person))),
    );
}

/// Whether the members of a team are known and each of them has a record with a Discord
/// ID.
pub open spec fn members_on_discord(data: Data, team: Team) -> bool {
    team.members matches Ok(members) && forall|i: int|
        0 <= i < members.len() ==> (data.person_named((#[trigger] members@[i])@) matches Some(
            person,
        ) && person.discord_id is Some)
}

/// Whether all who hold a permission, themselves or through a team, have a Discord ID.
pub open spec fn holders_on_discord(data: Data, permission: Seq<char>) -> bool {
    &&& forall|i: int|
        0 <= i < data.people.len() && (#[trigger] data.people@[i]).permissions.holds(permission)
            ==> data.people@[i].discord_id is Some
    &&& forall|i: int|
        0 <= i < data.teams.len() && (#[trigger] data.teams@[i]).permissions.holds(permission)
            ==> members_on_discord(data, data.teams@[i])
}

proof fn lemma_holders_on_discord(data: Data, permission: Seq<char>)
    ensures
        discord_permission_findings(data, permission).len() == 0 <==> holders_on_discord(
            data,
            permission,
        ),
{
    findings::law_each_empty(
        data.people@,
        |person: Person| findings::listed(discord_person_fault(person, permission)),
    );
    findings::law_each_empty(
        data.teams@,
        |team: Team| discord_team_findings(data, team, permission),
    );
    assert forall|i: int| 0 <= i < data.teams.len() implies (discord_team_findings(
        data,
        #[trigger] data.teams@[i],
        permission,
    ).len() == 0 <==> (data.teams@[i].permissions.holds(permission) ==> members_on_discord(
        data,
        data.teams@[i],
    ))) by {
        let team = data.teams@[i];
        if team.members is Ok {
            findings::law_each_empty(
                team.members->Ok_0@,
                |member: String| findings::listed(discord_member_fault(data, member@, permission)),
            );
        }
    }
}

/// Whether all who hold a permission that takes a Discord ID have one.
pub open spec fn discord_ids_are_known(data: Data) -> bool {
    forall|i: int|
        0 <= i < data.config.discord_permissions.len() ==> holders_on_discord(
            data,
            (#[trigger] data.config.discord_permissions@[i])@,
        )
}

/// Nothing is found wrong as to the permissions that take a Discord ID exactly if all who
/// hold one of them, themselves or through a team, have one.
pub proof fn law_discord_permissions(data: Data)
    ensures
        discord_findings(data).len() == 0 <==> discord_ids_are_known(data),
{
    let permissions = data.config.discord_permissions@;
    findings::law_each_empty(
        permissions,
        |permission: String| discord_permission_findings(data, permission@),
    );
    assert forall|i: int| 0 <= i < permissions.len() implies (discord_permission_findings(
        data,
        (#[trigger] permissions[i])@,
    ).len() == 0 <==> holders_on_discord(data, permissions[i]@)) by {
        lemma_holders_on_discord(data, permissions[i]@);
    }
}

proof fn lemma_first_given_twice_is_first(
    permissions: Seq<String>,
    team: Team,
    person: Person,
    pred: spec_fn(Seq<char>) -> bool,
)
    requires
        forall|permission: Seq<char>| #[trigger]
            pred(permission) <==> team.permissions.holds(permission) && person.permissions.gives(
                permission,
            ),
    ensures
        ({
            let twice = permissions.map_values(|permission: String| permission@).filter(pred);
            first_given_twice(permissions, team, person) == (if twice.len() > 0 {
                Some(twice.first())
            } else {
                None
            })
        }),
    decreases permissions.len(),
{
    reveal(Seq::filter);
    let views = permissions.map_values(|permission: String| permission@);
    if permissions.len() > 0 {
        let rest = permissions.drop_first().map_values(|permission: String| permission@);
        let first = permissions.first()@;
        let head = seq![first];
        lemma_first_given_twice_is_first(permissions.drop_first(), team, person, pred);
        assert(views =~= head + rest);
        Seq::filter_distributes_over_add(head, rest, pred);
        let none = Seq::<Seq<char>>::empty();
        none.lemma_filter_push(first, pred);
        assert(none.push(first) =~= head);
        assert(none.filter(pred) =~= none);
        assert(pred(first) <==> team.permissions.holds(first) && person.permissions.gives(first));
        if pred(first) {
            assert(head.filter(pred) =~= head);
        } else {
            assert(head.filter(pred) =~= none);
            assert(head.filter(pred) + rest.filter(pred) =~= rest.filter(pred));
        }
    }
}

/// Of a team whose members are known, there is a finding for each member with a record by
/// which a permission, of those there are, is given by name that the team holds too, in the
/// order of the members; it names the first such permission. Of another team, why its
/// members are not known is said.
pub proof fn law_given_twice_findings(data: Data)
    ensures
        ({
            let twice = |team: Team, member: Seq<char>|
                data.config.available_permissions.deep_view().filter(
                    |permission: Seq<char>|
                        team.permissions.holds(permission) && data.person_named(
                            member,
                        )->0.permissions.gives(permission),
                );
            given_twice_findings(data) == data.teams@.flat_map(
                |team: Team|
                    match team.members {
                        Ok(members) => members.deep_view().filter(
                            |member: Seq<char>|
                                data.person_named(member) is Some && twice(team, member).len() > 0,
                        ).map_values(
                            |member: Seq<char>|
                                "user `"@ + member + "` has the permission `"@ + twice(
                                    team,
                                    member,
                                ).first() + "` both explicitly and through the `"@ + team.name@
                                    + "` team"@,
                        ),
                        Err(message) => seq![message@],
                    },
            )
        }),
{
    let available = data.config.available_permissions;
    let twice = |team: Team, member: Seq<char>|
        data.config.available_permissions.deep_view().filter(
            |permission: Seq<char>|
                team.permissions.holds(permission) && data.person_named(
                    member,
                )->0.permissions.gives(permission),
        );
    let parts = |team: Team|
        match team.members {
            Ok(members) => members.deep_view().filter(
                |member: Seq<char>|
                    data.person_named(member) is Some && twice(team, member).len() > 0,
            ).map_values(
                |member: Seq<char>|
                    "user `"@ + member + "` has the permission `"@ + twice(team, member).first()
                        + "` both explicitly and through the `"@ + team.name@ + "` team"@,
            ),
            Err(message) => seq![message@],
        };
    let rule = |team: Team| given_twice_in_team_findings(data, team);
    assert(available@.map_values(|permission: String| permission@) =~= available.deep_view());
    assert forall|team: Team| #[trigger] rule(team) == parts(team) by {
        if team.members is Ok {
            let wrong = |member: Seq<char>|
                data.person_named(member) is Some && twice(team, member).len() > 0;
            let words = |member: Seq<char>|
                "user `"@ + member + "` has the permission `"@ + twice(team, member).first()
                    + "` both explicitly and through the `"@ + team.name@ + "` team"@;
            let member_rule = |member: String|
                findings::listed(given_twice_fault(data, team, member@));
            assert forall|member: String| #[trigger] member_rule(member) == (if wrong(member@) {
                seq![words(member@)]
            } else {
                seq![]
            }) by {
                if data.person_named(member@) is Some {
                    lemma_first_given_twice_is_first(
                        available@,
                        team,
                        data.person_named(member@)->0,
                        |permission: Seq<char>|
                            team.permissions.holds(permission) && data.person_named(
                                member@,
                            )->0.permissions.gives(permission),
                    );
                }
            }
            findings::law_each_of_the_wrong_texts(team.members->Ok_0, member_rule, wrong, words);
        }
    }
    assert(rule =~= parts);
    findings::law_each_in_turn(data.teams@, rule);
}

/// There is a finding for each team with whose permissions something is wrong, in the order
/// of the teams, and then one for each such person; each says what is wrong around the
/// holder's name.
pub proof fn law_permission_findings(data: Data)
    ensures
        permission_findings(data) == data.teams@.filter(
            |team: Team| team.permissions.fault is Some,
        ).map_values(
            |team: Team|
                team.permissions.fault->0.before@ + ("team `"@ + team.name@ + "`"@)
                    + team.permissions.fault->0.after@,
        ) + data.people@.filter(
            |person: Person| person.permissions.fault is Some,
        ).map_values(
            |person: Person|
                person.permissions.fault->0.before@ + ("user `"@ + person.github@ + "`"@)
                    + person.permissions.fault->0.after@,
        ),
{
    findings::law_each_of_the_wrong(
        data.teams@,
        |team: Team| findings::listed(team.permissions.fault_of(team_words(team))),
        |team: Team| team.permissions.fault is Some,
        |team: Team|
            team.permissions.fault->0.before@ + ("team `"@ + team.name@ + "`"@)
                + team.permissions.fault->0.after@,
    );
    findings::law_each_of_the_wrong(
        data.people@,
        |person: Person| findings::listed(person.permissions.fault_of(user_words(person))),
        |person: Person| person.permissions.fault is Some,
        |person: Person|
            person.permissions.fault->0.before@ + ("user `"@ + person.github@ + "`"@)
                + person.permissions.fault->0.after@,
    );
}

/// Of a team that holds a permission that takes a Discord ID there is a finding for each
/// member who has none or of whom there is no record, in the order of the members, or why
/// the members are not known; of another team there is none.
pub proof fn law_discord_team_findings(data: Data, team: Team, permission: Seq<char>)
    ensures
        discord_team_findings(data, team, permission) == (if !team.permissions.holds(permission) {
            seq![]
        } else {
            match team.members {
                Ok(members) => members.deep_view().filter(
                    |member: Seq<char>|
                        data.person_named(member) is None || data.person_named(
                            member,
                        )->0.discord_id is None,
                ).map_values(
                    |member: Seq<char>|
                        if data.person_named(member) is None {
                            "missing person "@ + member
                        } else {
                            "person `"@ + member + "` has a Discord permission (`"@ + permission
                                + "`) but no Discord ID"@
                        },
                ),
                Err(message) => seq![message@],
            }
        }),
{
    if team.members is Ok {
        let wrong = |member: Seq<char>|
            data.person_named(member) is None || data.person_named(member)->0.discord_id is None;
        let words = |member: Seq<char>|
            if data.person_named(member) is None {
                "missing person "@ + member
            } else {
                "person `"@ + member + "` has a Discord permission (`"@ + permission
                    + "`) but no Discord ID"@
            };
        let rule = |member: String|
            findings::listed(discord_member_fault(data, member@, permission));
        assert forall|member: String| #[trigger] rule(member) == (if wrong(member@) {
            seq![words(member@)]
        } else {
            seq![]
        }) by {
            schema::law_person_lookup(data.people@, member@);
        }
        findings::law_each_of_the_wrong_texts(team.members->Ok_0, rule, wrong, words);
    }
}

/// For each permission that takes a Discord ID there is a finding for each person who holds
/// it without having one, and then, team by team, what is found of the members of teams.
pub proof fn law_discord_findings(data: Data)
    ensures
        discord_findings(data) == data.config.discord_permissions.deep_view().flat_map(
            |permission: Seq<char>|
                data.people@.filter(
                    |person: Person|
                        person.permissions.holds(permission) && person.discord_id is None,
                ).map_values(
                    |person: Person|
                        "person `"@ + person.github@ + "` has a Discord permission (`"@ + permission
                            + "`) but no Discord ID"@,
                ) + data.teams@.flat_map(
                    |team: Team| discord_team_findings(data, team, permission),
                ),
        ),
{
    let parts = |permission: Seq<char>|
        data.people@.filter(
            |person: Person| person.permissions.holds(permission) && person.discord_id is None,
        ).map_values(
            |person: Person|
                "person `"@ + person.github@ + "` has a Discord permission (`"@ + permission
                    + "`) but no Discord ID"@,
        ) + data.teams@.flat_map(|team: Team| discord_team_findings(data, team, permission));
    let rule = |permission: String| discord_permission_findings(data, permission@);
    assert forall|permission: String| #[trigger] rule(permission) == parts(permission@) by {
        let needed = permission@;
        findings::law_each_of_the_wrong(
            data.people@,
            |person: Person| findings::listed(discord_person_fault(person, needed)),
            |person: Person| person.permissions.holds(needed) && person.discord_id is None,
            |person: Person|
                "person `"@ + person.github@ + "` has a Discord permission (`"@ + needed
                    + "`) but no Discord ID"@,
        );
        findings::law_each_in_turn(
            data.teams@,
            |team: Team| discord_team_findings(data, team, needed),
        );
    }
    findings::law_each_text_in_turn(data.config.discord_permissions, rule, parts);
}

} // verus!
