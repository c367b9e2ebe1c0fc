//! How rfcbot treats teams.

use vstd::hash_set::StringHashSet;
use vstd::prelude::*;

use crate::findings;
use crate::findings::wrapper;
use crate::schema::{Data, Rfcbot, Team};
use crate::text;

verus! {

/// Whether one of the teams has the label.
pub open spec fn label_in_use(teams: Seq<Team>, label: Seq<char>) -> bool {
    exists|i: int|
        0 <= i < teams.len() && ((#[trigger] teams[i]).rfcbot matches Some(rfcbot)
            && rfcbot.label@ == label)
}

/// What is wrong with the label of a team that comes after others.
pub open spec fn label_fault(before: Seq<Team>, team: Team) -> Option<Seq<char>> {
    match team.rfcbot {
        Some(rfcbot) => if label_in_use(before, rfcbot.label@) {
            Some("duplicate rfcbot label: "@ + rfcbot.label@)
        } else {
            None
        },
        None => None,
    }
}

/// What is found wrong with the labels of teams, each held against those before it.
pub open spec fn labels_of_teams_findings(teams: Seq<Team>) -> Seq<Seq<char>>
    decreases teams.len(),
{
    if teams.len() == 0 {
        seq![]
    } else {
        labels_of_teams_findings(teams.drop_last()) + findings::listed(
            label_fault(teams.drop_last(), teams.last()),
        )
    }
}

/// What is found wrong with labels.
pub open spec fn label_findings(data: Data) -> Seq<Seq<char>> {
    labels_of_teams_findings(data.teams@)
}

/// Ensures that no two teams have the same label.
pub fn validate_rfcbot_labels(data: &Data, errors: &mut Vec<String>)
    ensures
        final(errors).deep_view() == old(errors).deep_view() + label_findings(*data),
{
    let mut labels = StringHashSet::new();
    let mut i: usize = 0;
    assert(errors.deep_view() =~= old(errors).deep_view() + labels_of_teams_findings(
        data.teams@.take(0),
    ));
    while i < data.teams.len()
        invariant
            i <= data.teams.len(),
            forall|label: Seq<char>| #[trigger]
                labels@.contains(label) <==> label_in_use(data.teams@.take(i as int), label),
            errors.deep_view() == old(errors).deep_view() + labels_of_teams_findings(
                data.teams@.take(i as int),
            ),
        decreases data.teams.len() - i,
    {
        let team = &data.teams[i];
        let ghost shorter = data.teams@.take(i as int);
        let ghost longer = data.teams@.take(i + 1);
        let ghost before = errors.deep_view();
        assert(longer.drop_last() =~= shorter);
        if let Some(rfcbot) = &team.rfcbot {
            if !labels.insert(rfcbot.label.clone()) {
                errors.push("duplicate rfcbot label: ".to_owned().concat(rfcbot.label.as_str()));
            }
        }
        proof {
            assert(errors.deep_view() =~= before + findings::listed(label_fault(shorter, *team)));
            assert(errors.deep_view() =~= old(errors).deep_view() + labels_of_teams_findings(
                longer,
            ));
            assert forall|label: Seq<char>| #[trigger]
                label_in_use(longer, label) <==> label_in_use(shorter, label) || (
                team.rfcbot matches Some(rfcbot) && rfcbot.label@ == label) by {
                assert(longer[i as int] == *team);
                assert(forall|j: int| 0 <= j < i ==> #[trigger] shorter[j] == longer[j]);
                assert(forall|j: int| 0 <= j < i ==> shorter[j] == #[trigger] longer[j]);
            }
        }
        i += 1;
    }
    assert(data.teams@.take(i as int) =~= data.teams@);
}

/// What is wrong with a name that rfcbot is to leave out of a team, after others.
pub open spec fn exclude_fault(
    team: Team,
    members: Seq<Seq<char>>,
    before: Seq<Seq<char>>,
    name: Seq<char>,
) -> Option<Seq<char>> {
    if before.contains(name) {
        Some("duplicate member in `"@ + team.name@ + "` rfcbot.exclude-members: "@ + name)
    } else if !members.contains(name) {
        Some(
            "person `"@ + name + "` is not a member of team `"@ + team.name@
                + "` (in rfcbot.exclude-members)"@,
        )
    } else {
        None
    }
}

/// What is found wrong with the names that rfcbot is to leave out of a team, each held
/// against those before it.
pub open spec fn exclude_list_findings(
    team: Team,
    members: Seq<Seq<char>>,
    names: Seq<Seq<char>>,
) -> Seq<Seq<char>>
    decreases names.len(),
{
    if names.len() == 0 {
        seq![]
    } else {
        exclude_list_findings(team, members, names.drop_last()) + findings::listed(
            exclude_fault(team, members, names.drop_last(), names.last()),
        )
    }
}

/// What is found wrong with those whom rfcbot is to leave out of a team.
pub open spec fn exclude_in_team_findings(team: Team) -> Seq<Seq<char>> {
    match team.rfcbot {
        Some(rfcbot) => match team.members {
            Ok(members) => exclude_list_findings(
                team,
                members.deep_view(),
                rfcbot.exclude_members.deep_view(),
            ),
            Err(message) => seq![message@],
        },
        None => seq![],
    }
}

/// What is found wrong with those whom rfcbot is to leave out of teams.
pub open spec fn exclude_findings(data: Data) -> Seq<Seq<char>> {
    findings::each(data.teams@, |team: Team| exclude_in_team_findings(team))
}

fn validate_exclude_list(
    team: &Team,
    members: &Vec<String>,
    rfcbot: &Rfcbot,
    errors: &mut Vec<String>,
)
    ensures
        final(errors).deep_view() == old(errors).deep_view() + exclude_list_findings(
            *team,
            members.deep_view(),
            rfcbot.exclude_members.deep_view(),
        ),
{
    let ghost all = members.deep_view();
    let ghost names = rfcbot.exclude_members.deep_view();
    let mut exclude = StringHashSet::new();
    let mut i: usize = 0;
    assert(errors.deep_view() =~= old(errors).deep_view() + exclude_list_findings(
        *team,
        all,
        names.take(0),
    ));
    while i < rfcbot.exclude_members.len()
        invariant
            i <= rfcbot.exclude_members.len(),
            all == members.deep_view(),
            names == rfcbot.exclude_members.deep_view(),
            forall|name: Seq<char>| #[trigger]
                exclude@.contains(name) <==> names.take(i as int).contains(name),
            errors.deep_view() == old(errors).deep_view() + exclude_list_findings(
                *team,
                all,
                names.take(i as int),
            ),
        decreases rfcbot.exclude_members.len() - i,
    {
        let member = &rfcbot.exclude_members[i];
        let ghost shorter = names.take(i as int);
        let ghost longer = names.take(i + 1);
        let ghost before = errors.deep_view();
        assert(longer.drop_last() =~= shorter);
        if !exclude.insert(member.clone()) {
            errors.push(
                "duplicate member in `".to_owned().concat(team.name.as_str()).concat(
                    "` rfcbot.exclude-members: ",
                ).concat(member.as_str()),
            );
        } else if !text::contains_text(members, member.as_str()) {
            errors.push(
                "person `".to_owned().concat(member.as_str()).concat(
                    "` is not a member of team `",
                ).concat(team.name.as_str()).concat("` (in rfcbot.exclude-members)"),
            );
        }
        proof {
            assert(errors.deep_view() =~= before + findings::listed(
                exclude_fault(*team, all, shorter, member@),
            ));
            assert(errors.deep_view() =~= old(errors).deep_view() + exclude_list_findings(
                *team,
                all,
                longer,
            ));
            assert forall|name: Seq<char>| #[trigger]
                longer.contains(name) <==> shorter.contains(name) || name == member@ by {
                assert(longer[i as int] == member@);
                assert(forall|j: int| 0 <= j < i ==> #[trigger] shorter[j] == longer[j]);
                assert(forall|j: int| 0 <= j < i ==> shorter[j] == #[trigger] longer[j]);
            }
        }
        i += 1;
    }
    assert(names.take(i as int) =~= names);
}

/// Ensures that those whom rfcbot is to leave out of a team are members of it, each named
/// once.
pub fn validate_rfcbot_exclude_members(data: &Data, errors: &mut Vec<String>)
    ensures
        final(errors).deep_view() == old(errors).deep_view() + exclude_findings(*data),
{
    let rule = |team: &Team, errors: Vec<String>| -> (out: (Vec<String>, Result<(), String>))
        ensures
            findings::outcome(out) == errors.deep_view() + exclude_in_team_findings(*team),
        {
            match &team.rfcbot {
                Some(rfcbot) => match &team.members {
                    Ok(members) => {
                        let mut errors = errors;
                        validate_exclude_list(team, members, rfcbot, &mut errors);
                        (errors, Ok(()))
                    },
                    Err(message) => (errors, Err(message.clone())),
                },
                None => (errors, Ok(())),
            }
        };
    assert(findings::adds(rule, |team: Team| exclude_in_team_findings(team)));
    wrapper(&data.teams, errors, rule);
}

/// Whether no two of the teams have the same label.
pub open spec fn labels_differ(teams: Seq<Team>) -> bool {
    forall|i: int, j: int|
        0 <= i < j < teams.len() && (#[trigger] teams[i]).rfcbot is Some && (
        #[trigger] teams[j]).rfcbot is Some ==> teams[i].rfcbot->0.label@
            != teams[j].rfcbot->0.label@
}

proof fn lemma_labels_differ(teams: Seq<Team>)
    ensures
        labels_of_teams_findings(teams).len() == 0 <==> labels_differ(teams),
    decreases teams.len(),
{
    if teams.len() > 0 {
        let init = teams.drop_last();
        let last = teams.last();
        lemma_labels_differ(init);
        assert(forall|i: int| 0 <= i < init.len() ==> #[trigger] init[i] == teams[i]);
        assert(forall|i: int| 0 <= i < init.len() ==> init[i] == #[trigger] teams[i]);
        if labels_differ(teams) && last.rfcbot is Some && label_in_use(
            init,
            last.rfcbot->0.label@,
        ) {
            let i = choose|i: int|
                0 <= i < init.len() && ((#[trigger] init[i]).rfcbot matches Some(rfcbot)
                    && rfcbot.label@ == last.rfcbot->0.label@);
            assert(teams[i].rfcbot->0.label@ != teams[teams.len() - 1].rfcbot->0.label@);
        }
        if labels_of_teams_findings(teams).len() == 0 {
            assert forall|i: int, j: int|
                0 <= i < j < teams.len() && (#[trigger] teams[i]).rfcbot is Some && (
                #[trigger] teams[j]).rfcbot is Some implies teams[i].rfcbot->0.label@
                != teams[j].rfcbot->0.label@ by {
                if j == teams.len() - 1 {
                    assert(init[i] == teams[i]);
                } else {
                    assert(init[i] == teams[i] && init[j] == teams[j]);
                }
            }
        }
    }
}

/// Nothing is found wrong with labels exactly if no two teams have the same one.
pub proof fn law_rfcbot_labels(data: Data)
    ensures
        label_findings(data).len() == 0 <==> labels_differ(data.teams@),
{
    lemma_labels_differ(data.teams@);
}

proof fn lemma_exclude_list(team: Team, members: Seq<Seq<char>>, names: Seq<Seq<char>>)
    ensures
        exclude_list_findings(team, members, names).len() == 0 <==> names.no_duplicates() && (
        forall|i: int| 0 <= i < names.len() ==> members.contains(#[trigger] names[i])),
    decreases names.len(),
{
    if names.len() > 0 {
        let init = names.drop_last();
        let last = names.last();
        lemma_exclude_list(team, members, init);
        assert(forall|i: int| 0 <= i < init.len() ==> #[trigger] init[i] == names[i]);
        assert(forall|i: int| 0 <= i < init.len() ==> init[i] == #[trigger] names[i]);
        assert(names[names.len() - 1] == last);
        if names.no_duplicates() && init.contains(last) {
            let i = choose|i: int| 0 <= i < init.len() && init[i] == last;
            assert(names[i] == names[names.len() - 1]);
        }
        if init.no_duplicates() && !init.contains(last) {
            assert forall|i: int, j: int|
                0 <= i < names.len() && 0 <= j < names.len() && i != j implies names[i]
                != names[j] by {
                if i == names.len() - 1 {
                    assert(init[j] == names[j]);
                } else if j == names.len() - 1 {
                    assert(init[i] == names[i]);
                } else {
                    assert(init[i] == names[i] && init[j] == names[j]);
                }
            }
        }
        if names.no_duplicates() {
            assert forall|i: int, j: int|
                0 <= i < init.len() && 0 <= j < init.len() && i != j implies init[i]
                != init[j] by {
                assert(names[i] != names[j]);
            }
        }
    } else {
        assert(names.no_duplicates());
    }
}

/// Whether those whom rfcbot is to leave out of a team are members of it, each named once.
pub open spec fn members_excluded_once(team: Team) -> bool {
    team.rfcbot matches Some(rfcbot) ==> (team.members matches Ok(members) && ({
        let names = rfcbot.exclude_members.deep_view();
        names.no_duplicates() && forall|i: int|
            0 <= i < names.len() ==> members.deep_view().contains(#[trigger] names[i])
    }))
}

/// Whether those whom rfcbot is to leave out of teams are members of them, each named once.
pub open spec fn exclusions_are_right(data: Data) -> bool {
    forall|i: int|
        0 <= i < data.teams.len() ==> members_excluded_once(#[trigger] data.teams@[i])
}

/// Nothing is found wrong with those whom rfcbot is to leave out of teams exactly if, for
/// each team that it treats, the members are known and those left out are among them,
/// each named once.
pub proof fn law_rfcbot_exclude_members(data: Data)
    ensures
        exclude_findings(data).len() == 0 <==> exclusions_are_right(data),
{
    findings::law_each_empty(data.teams@, |team: Team| exclude_in_team_findings(team));
    assert forall|i: int| 0 <= i < data.teams.len() implies (exclude_in_team_findings(
        #[trigger] data.teams@[i],
    ).len() == 0 <==> members_excluded_once(data.teams@[i])) by {
        let team = data.teams@[i];
        if team.rfcbot is Some && team.members is Ok {
            lemma_exclude_list(
                team,
                team.members->Ok_0.deep_view(),
                team.rfcbot->0.exclude_members.deep_view(),
            );
        }
    }
}

proof fn lemma_labels_place_by_place(data: Data, n: nat, at: spec_fn(int) -> Seq<Seq<char>>)
    requires
        n <= data.teams.len(),
        forall|i: int|
            0 <= i < n ==> #[trigger] at(i) == findings::listed(
                label_fault(data.teams@.take(i), data.teams@[i]),
            ),
    ensures
        labels_of_teams_findings(data.teams@.take(n as int)) == Seq::new(n, at).flatten(),
    decreases n,
{
    if n == 0 {
        assert(Seq::new(0, at).flatten() =~= seq![]);
    } else {
        let m = (n - 1) as nat;
        lemma_labels_place_by_place(data, m, at);
        findings::lemma_one_place_more(m, at);
        assert(data.teams@.take(n as int).drop_last() =~= data.teams@.take(m as int));
        assert(at(m as int) == findings::listed(
            label_fault(data.teams@.take(m as int), data.teams@[m as int]),
        ));
    }
}

/// There is a finding for each team with a label that some team before it has too, in the
/// order of the teams.
pub proof fn law_label_findings(data: Data)
    ensures
        label_findings(data) == Seq::new(
            data.teams.len() as nat,
            |i: int|
                if data.teams@[i].rfcbot is Some && exists|j: int|
                    0 <= j < i && (#[trigger] data.teams@[j]).rfcbot is Some
                        && data.teams@[j].rfcbot->0.label@ == data.teams@[i].rfcbot->0.label@ {
                    seq!["duplicate rfcbot label: "@ + data.teams@[i].rfcbot->0.label@]
                } else {
                    seq![]
                },
        ).flatten(),
{
    let at = |i: int|
                if data.teams@[i].rfcbot is Some && exists|j: int|
                    0 <= j < i && (#[trigger] data.teams@[j]).rfcbot is Some
                        && data.teams@[j].rfcbot->0.label@ == data.teams@[i].rfcbot->0.label@ {
                    seq!["duplicate rfcbot label: "@ + data.teams@[i].rfcbot->0.label@]
                } else {
                    seq![]
                };
    assert forall|i: int| 0 <= i < data.teams.len() implies #[trigger] at(i) == findings::listed(
        label_fault(data.teams@.take(i), data.teams@[i]),
    ) by {
        let before = data.teams@.take(i);
        assert(forall|j: int| 0 <= j < i ==> #[trigger] before[j] == data.teams@[j]);
        assert(forall|j: int| 0 <= j < i ==> before[j] == #[trigger] data.teams@[j]);
    }
    lemma_labels_place_by_place(data, data.teams@.len(), at);
    assert(data.teams@.take(data.teams@.len() as int) =~= data.teams@);
}

proof fn lemma_exclusions_place_by_place(
    team: Team,
    members: Seq<Seq<char>>,
    names: Seq<Seq<char>>,
    n: nat,
    at: spec_fn(int) -> Seq<Seq<char>>,
)
    requires
        n <= names.len(),
        forall|k: int|
            0 <= k < n ==> #[trigger] at(k) == findings::listed(
                exclude_fault(team, members, names.take(k), names[k]),
            ),
    ensures
        exclude_list_findings(team, members, names.take(n as int)) == Seq::new(n, at).flatten(),
    decreases n,
{
    if n == 0 {
        assert(Seq::new(0, at).flatten() =~= seq![]);
    } else {
        let m = (n - 1) as nat;
        lemma_exclusions_place_by_place(team, members, names, m, at);
        findings::lemma_one_place_more(m, at);
        assert(names.take(n as int).drop_last() =~= names.take(m as int));
        assert(at(m as int) == findings::listed(
            exclude_fault(team, members, names.take(m as int), names[m as int]),
        ));
    }
}

/// Of a team that rfcbot treats and whose members are known, there is a finding for each name
/// to leave out that is there before already, or else is not one of a member, in the order of
/// those names. Of another that it treats, why its members are not known is said.
pub proof fn law_exclude_findings(data: Data)
    ensures
        exclude_findings(data) == data.teams@.flat_map(
            |team: Team|
                match (team.rfcbot, team.members) {
                    (None, _) => seq![],
                    (Some(_), Err(message)) => seq![message@],
                    (Some(rfcbot), Ok(members)) => {
                        let names = rfcbot.exclude_members.deep_view();
                        Seq::new(
                            names.len(),
                            |k: int|
                                if names.take(k).contains(names[k]) {
                                    seq![
                                        "duplicate member in `"@ + team.name@
                                            + "` rfcbot.exclude-members: "@ + names[k],
                                    ]
                                } else if !members.deep_view().contains(names[k]) {
                                    seq![
                                        "person `"@ + names[k] + "` is not a member of team `"@
                                            + team.name@ + "` (in rfcbot.exclude-members)"@,
                                    ]
                                } else {
                                    seq![]
                                },
                        ).flatten()
                    },
                },
        ),
{
    let parts = |team: Team|
        match (team.rfcbot, team.members) {
            (None, _) => seq![],
            (Some(_), Err(message)) => seq![message@],
            (Some(rfcbot), Ok(members)) => {
                let names = rfcbot.exclude_members.deep_view();
                Seq::new(
                    names.len(),
                    |k: int|
                        if names.take(k).contains(names[k]) {
                            seq![
                                "duplicate member in `"@ + team.name@
                                    + "` rfcbot.exclude-members: "@ + names[k],
                            ]
                        } else if !members.deep_view().contains(names[k]) {
                            seq![
                                "person `"@ + names[k] + "` is not a member of team `"@
                                    + team.name@ + "` (in rfcbot.exclude-members)"@,
                            ]
                        } else {
                            seq![]
                        },
                ).flatten()
            },
        };
    let rule = |team: Team| exclude_in_team_findings(team);
    assert forall|team: Team| #[trigger] rule(team) == parts(team) by {
        if team.rfcbot is Some && team.members is Ok {
            let names = team.rfcbot->0.exclude_members.deep_view();
            let members = team.members->Ok_0;
            let at = |k: int|
                if names.take(k).contains(names[k]) {
                    seq![
                        "duplicate member in `"@ + team.name@ + "` rfcbot.exclude-members: "@
                            + names[k],
                    ]
                } else if !members.deep_view().contains(names[k]) {
                    seq![
                        "person `"@ + names[k] + "` is not a member of team `"@ + team.name@
                            + "` (in rfcbot.exclude-members)"@,
                    ]
                } else {
                    seq![]
                };
            lemma_exclusions_place_by_place(team, members.deep_view(), names, names.len(), at);
            assert(names.take(names.len() as int) =~= names);
        }
    }
    assert(rule =~= parts);
    findings::law_each_in_turn(data.teams@, rule);
}

} // verus!
