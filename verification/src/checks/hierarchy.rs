//! Which teams are part of others.

use vstd::hash_map::StringHashMap;
use vstd::prelude::*;

use crate::findings;
use crate::findings::wrapper;
use crate::schema;
use crate::schema::{Data, Team, TeamKind};

verus! {

/// Whether the last of `teams` that goes by `name` is part of another; `None` if no team
/// goes by the name.
pub open spec fn part_of_another(teams: Seq<Team>, name: Seq<char>) -> Option<bool>
    decreases teams.len(),
{
    if teams.len() == 0 {
        None
    } else if teams.last().name@ == name {
        Some(teams.last().subteam_of is Some)
    } else {
        part_of_another(teams.drop_last(), name)
    }
}

/// What is wrong with the team that `team` is part of.
pub open spec fn subteam_fault(teams: Seq<Team>, team: Team) -> Option<Seq<char>> {
    match team.subteam_of {
        Some(parent) => match part_of_another(teams, parent@) {
            Some(false) => None,
            Some(true) => Some(
                "team `"@ + team.name@ + "` can't be a subteam of a subteam (`"@ + parent@ + "`)"@,
            ),
            None => Some(
                "the parent of team `"@ + team.name@ + "` doesn't exist: `"@ + parent@ + "`"@,
            ),
        },
        None => None,
    }
}

/// What is found wrong with the teams that others are part of.
pub open spec fn subteam_findings(data: Data) -> Seq<Seq<char>> {
    findings::each(data.teams@, |team: Team| findings::listed(subteam_fault(data.teams@, team)))
}

/// By name, whether teams are part of others.
fn parts_by_name(teams: &Vec<Team>) -> (parts: StringHashMap<bool>)
    ensures
        forall|name: Seq<char>|
            {
                &&& #[trigger] parts@.contains_key(name) <==> part_of_another(teams@, name) is Some
                &&& parts@.contains_key(name) ==> part_of_another(teams@, name) == Some(parts@[name])
            },
{
    let mut parts: StringHashMap<bool> = StringHashMap::new();
    let mut i: usize = 0;
    while i < teams.len()
        invariant
            i <= teams.len(),
            forall|name: Seq<char>|
                {
                    &&& #[trigger] parts@.contains_key(name) <==> part_of_another(
                        teams@.take(i as int),
                        name,
                    ) is Some
                    &&& parts@.contains_key(name) ==> part_of_another(teams@.take(i as int), name)
                        == Some(parts@[name])
                },
        decreases teams.len() - i,
    {
        parts.insert(teams[i].name.clone(), teams[i].subteam_of.is_some());
        assert(teams@.take(i + 1).drop_last() =~= teams@.take(i as int));
        i += 1;
    }
    assert(teams@.take(i as int) =~= teams@);
    parts
}

fn ensure_parent(
    parts: &StringHashMap<bool>,
    team: &Team,
    Ghost(teams): Ghost<Seq<Team>>,
) -> (verdict: Result<(), String>)
    requires
        forall|name: Seq<char>|
            {
                &&& #[trigger] parts@.contains_key(name) <==> part_of_another(teams, name) is Some
                &&& parts@.contains_key(name) ==> part_of_another(teams, name) == Some(parts@[name])
            },
    ensures
        findings::fault(verdict) == subteam_fault(teams, *team),
{
    match &team.subteam_of {
        Some(parent) => match parts.get(parent.as_str()) {
            Some(false) => Ok(()),
            Some(true) => Err(
                "team `".to_owned().concat(team.name.as_str()).concat(
                    "` can't be a subteam of a subteam (`",
                ).concat(parent.as_str()).concat("`)"),
            ),
            None => Err(
                "the parent of team `".to_owned().concat(team.name.as_str()).concat(
                    "` doesn't exist: `",
                ).concat(parent.as_str()).concat("`"),
            ),
        },
        None => Ok(()),
    }
}

/// Ensures that teams are part of teams that exist and are not part of others.
pub fn validate_subteam_of(data: &Data, errors: &mut Vec<String>)
    ensures
        final(errors).deep_view() == old(errors).deep_view() + subteam_findings(*data),
{
    let parts = parts_by_name(&data.teams);
    let rule = |team: &Team, errors: Vec<String>| -> (out: (Vec<String>, Result<(), String>))
        ensures
            findings::outcome(out) == errors.deep_view() + findings::listed(
                subteam_fault(data.teams@, *team),
            ),
        { (errors, ensure_parent(&parts, team, Ghost(data.teams@))) };
    assert(findings::adds(
        rule,
        |team: Team| findings::listed(subteam_fault(data.teams@, team)),
    ));
    wrapper(&data.teams, errors, rule);
}

/// What is wrong with a project group that is part of no team.
pub open spec fn project_group_fault(team: Team) -> Option<Seq<char>> {
    if team.kind == TeamKind::ProjectGroup && team.subteam_of is None {
        Some(
            "the project group `"@ + team.name@
                + "` doesn't have a parent team, but it's required to have one"@,
        )
    } else {
        None
    }
}

/// What is found wrong with project groups.
pub open spec fn project_group_findings(data: Data) -> Seq<Seq<char>> {
    findings::each(data.teams@, |team: Team| findings::listed(project_group_fault(team)))
}

/// Ensures that each project group is part of a team, as RFC 2856 asks.
pub fn validate_project_groups_have_parent_teams(data: &Data, errors: &mut Vec<String>)
    ensures
        final(errors).deep_view() == old(errors).deep_view() + project_group_findings(*data),
{
    let rule = |team: &Team, errors: Vec<String>| -> (out: (Vec<String>, Result<(), String>))
        ensures
            findings::outcome(out) == errors.deep_view() + findings::listed(
                project_group_fault(*team),
            ),
        {
            let verdict = if team.kind == TeamKind::ProjectGroup && team.subteam_of.is_none() {
                Err(
                    "the project group `".to_owned().concat(team.name.as_str()).concat(
                        "` doesn't have a parent team, but it's required to have one",
                    ),
                )
            } else {
                Ok(())
            };
            (errors, verdict)
        };
    assert(findings::adds(rule, |team: Team| findings::listed(project_group_fault(team))));
    wrapper(&data.teams, errors, rule);
}

/// A name leads to a team exactly if some team goes by it.
proof fn lemma_part_of_another(teams: Seq<Team>, name: Seq<char>)
    ensures
        part_of_another(teams, name) is Some <==> exists|i: int|
            0 <= i < teams.len() && (#[trigger] teams[i]).name@ == name,
        part_of_another(teams, name) matches Some(part) ==> exists|i: int|
            0 <= i < teams.len() && (#[trigger] teams[i]).name@ == name && part == (
            teams[i].subteam_of is Some),
    decreases teams.len(),
{
    if teams.len() > 0 {
        let init = teams.drop_last();
        lemma_part_of_another(init, name);
        if teams.last().name@ == name {
            assert(teams[teams.len() - 1].name@ == name);
        } else {
            assert forall|i: int|
                0 <= i < teams.len() && (#[trigger] teams[i]).name@ == name implies exists|j: int|
                0 <= j < init.len() && (#[trigger] init[j]).name@ == name by {
                assert(init[i] == teams[i]);
            }
            if part_of_another(init, name) is Some {
                let part = part_of_another(init, name)->0;
                let j = choose|j: int|
                    0 <= j < init.len() && (#[trigger] init[j]).name@ == name && part == (
                    init[j].subteam_of is Some);
                assert(teams[j] == init[j]);
            }
        }
    }
}

/// Whether a team is part of none, or of one that exists and is not itself part of another.
pub open spec fn well_placed(teams: Seq<Team>, team: Team) -> bool {
    team.subteam_of matches Some(parent) ==> exists|j: int|
        0 <= j < teams.len() && (#[trigger] teams[j]).name@ == parent@ && teams[j].subteam_of is None
}

proof fn lemma_no_subteam_fault(teams: Seq<Team>, team: Team)
    ensures
        subteam_fault(teams, team) is None ==> well_placed(teams, team),
        schema::named_once(teams) && well_placed(teams, team) ==> subteam_fault(
            teams,
            team,
        ) is None,
{
    if team.subteam_of is Some {
        lemma_part_of_another(teams, team.subteam_of->0@);
    }
}

/// Whether teams are part only of teams that exist and are not part of others.
pub open spec fn nested_once(data: Data) -> bool {
    forall|i: int|
        0 <= i < data.teams.len() ==> well_placed(data.teams@, #[trigger] data.teams@[i])
}

/// If nothing is found wrong with the teams that others are part of, each of them exists
/// and is not itself part of another: teams are nested no deeper than that. If no two
/// teams go by one name, the converse holds too.
pub proof fn law_subteams(data: Data)
    ensures
        subteam_findings(data).len() == 0 ==> nested_once(data),
        schema::named_once(data.teams@) && nested_once(data) ==> subteam_findings(data).len() == 0,
{
    let rule = |team: Team| findings::listed(subteam_fault(data.teams@, team));
    findings::law_each_empty(data.teams@, rule);
    assert forall|i: int| 0 <= i < data.teams.len() implies {
        &&& rule(#[trigger] data.teams@[i]).len() == 0 ==> well_placed(data.teams@, data.teams@[i])
        &&& schema::named_once(data.teams@) && well_placed(data.teams@, data.teams@[i]) ==> rule(
            data.teams@[i],
        ).len() == 0
    } by {
        lemma_no_subteam_fault(data.teams@, data.teams@[i]);
    }
}

/// Whether each project group is part of a team.
pub open spec fn project_groups_have_parents(data: Data) -> bool {
    forall|i: int|
        0 <= i < data.teams.len() ==> ((#[trigger] data.teams[i]).kind == TeamKind::ProjectGroup
            ==> data.teams[i].subteam_of is Some)
}

/// Nothing is found wrong with project groups exactly if each is part of a team.
pub proof fn law_project_groups(data: Data)
    ensures
        project_group_findings(data).len() == 0 <==> project_groups_have_parents(data),
{
    findings::law_each_empty(
        data.teams@,
        |team: Team| findings::listed(project_group_fault(team)),
    );
}

/// What counts of a name is the last of the teams that go by it.
pub proof fn law_last_of_a_name(teams: Seq<Team>, name: Seq<char>)
    ensures
        match part_of_another(teams, name) {
            Some(part) => exists|i: int|
                {
                    &&& 0 <= i < teams.len()
                    &&& (#[trigger] teams[i]).name@ == name
                    &&& part == (teams[i].subteam_of is Some)
                    &&& forall|j: int| i < j < teams.len() ==> (#[trigger] teams[j]).name@ != name
                },
            None => forall|j: int| 0 <= j < teams.len() ==> (#[trigger] teams[j]).name@ != name,
        },
    decreases teams.len(),
{
    if teams.len() > 0 {
        let init = teams.drop_last();
        law_last_of_a_name(init, name);
        assert(forall|j: int| 0 <= j < init.len() ==> #[trigger] teams[j] == init[j]);
        if teams.last().name@ == name {
            assert(teams[teams.len() - 1].name@ == name);
        } else if part_of_another(init, name) is Some {
            let part = part_of_another(init, name)->0;
            let i = choose|i: int|
                {
                    &&& 0 <= i < init.len()
                    &&& (#[trigger] init[i]).name@ == name
                    &&& part == (init[i].subteam_of is Some)
                    &&& forall|j: int| i < j < init.len() ==> (#[trigger] init[j]).name@ != name
                };
            assert(teams[i].name@ == name);
        }
    }
}

/// There is a finding for each team that is part of one that does not exist, or of one the
/// last record of which says that it is itself part of another.
pub proof fn law_subteam_findings(data: Data)
    ensures
        subteam_findings(data) == data.teams@.filter(
            |team: Team|
                team.subteam_of is Some && !exists|j: int|
                    {
                        &&& 0 <= j < data.teams.len()
                        &&& (#[trigger] data.teams@[j]).name@ == team.subteam_of->0@
                        &&& data.teams@[j].subteam_of is None
                        &&& forall|k: int|
                            j < k < data.teams.len() ==> (#[trigger] data.teams@[k]).name@
                                != team.subteam_of->0@
                    },
        ).map_values(
            |team: Team|
                if exists|j: int|
                    0 <= j < data.teams.len() && (#[trigger] data.teams@[j]).name@
                        == team.subteam_of->0@ {
                    "team `"@ + team.name@ + "` can't be a subteam of a subteam (`"@
                        + team.subteam_of->0@ + "`)"@
                } else {
                    "the parent of team `"@ + team.name@ + "` doesn't exist: `"@
                        + team.subteam_of->0@ + "`"@
                },
        ),
{
    let wrong = |team: Team|
        team.subteam_of is Some && !exists|j: int|
            {
                &&& 0 <= j < data.teams.len()
                &&& (#[trigger] data.teams@[j]).name@ == team.subteam_of->0@
                &&& data.teams@[j].subteam_of is None
                &&& forall|k: int|
                    j < k < data.teams.len() ==> (#[trigger] data.teams@[k]).name@
                        != team.subteam_of->0@
            };
    let words = |team: Team|
        if exists|j: int|
            0 <= j < data.teams.len() && (#[trigger] data.teams@[j]).name@ == team.subteam_of->0@ {
            "team `"@ + team.name@ + "` can't be a subteam of a subteam (`"@ + team.subteam_of->0@
                + "`)"@
        } else {
            "the parent of team `"@ + team.name@ + "` doesn't exist: `"@ + team.subteam_of->0@
                + "`"@
        };
    let rule = |team: Team| findings::listed(subteam_fault(data.teams@, team));
    assert forall|team: Team| #[trigger] rule(team) == (if wrong(team) {
        seq![words(team)]
    } else {
        seq![]
    }) by {
        if team.subteam_of is Some {
            law_last_of_a_name(data.teams@, team.subteam_of->0@);
        }
    }
    findings::law_each_of_the_wrong(data.teams@, rule, wrong, words);
}

/// There is a finding for each project group that is part of no team.
pub proof fn law_project_group_findings(data: Data)
    ensures
        project_group_findings(data) == data.teams@.filter(
            |team: Team| team.kind == TeamKind::ProjectGroup && team.subteam_of is None,
        ).map_values(
            |team: Team|
                "the project group `"@ + team.name@
                    + "` doesn't have a parent team, but it's required to have one"@,
        ),
{
    let wrong = |team: Team| team.kind == TeamKind::ProjectGroup && team.subteam_of is None;
    let words = |team: Team|
        "the project group `"@ + team.name@
            + "` doesn't have a parent team, but it's required to have one"@;
    findings::law_each_of_the_wrong(
        data.teams@,
        |team: Team| findings::listed(project_group_fault(team)),
        wrong,
        words,
    );
}

} // verus!
