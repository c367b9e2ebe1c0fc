//! Teams and accounts on GitHub.

use std::collections::HashSet;
use vstd::prelude::*;

use crate::findings;
use crate::findings::wrapper;
use crate::schema::{Data, GitHubTeam, Person, Team};
use crate::text;

verus! {

/// The organization and the name of a team on GitHub.
pub open spec fn place(team: GitHubTeam) -> (Seq<char>, Seq<char>) {
    (team.org@, team.name@)
}

/// The teams on GitHub in allowed organizations, of those that stand for `team`.
pub open spec fn claims_of_team(
    allowed: Seq<Seq<char>>,
    team: Team,
    list: Seq<GitHubTeam>,
) -> Seq<((Seq<char>, Seq<char>), Seq<char>)>
    decreases list.len(),
{
    if list.len() == 0 {
        seq![]
    } else if allowed.contains(list.last().org@) {
        claims_of_team(allowed, team, list.drop_last()).push((place(list.last()), team.name@))
    } else {
        claims_of_team(allowed, team, list.drop_last())
    }
}

/// The teams on GitHub in allowed organizations, with the names of those they stand for.
pub open spec fn claims(allowed: Seq<Seq<char>>, teams: Seq<Team>) -> Seq<
    ((Seq<char>, Seq<char>), Seq<char>),
>
    decreases teams.len(),
{
    if teams.len() == 0 {
        seq![]
    } else {
        match teams.last().github_teams {
            Ok(list) => claims(allowed, teams.drop_last()) + claims_of_team(
                allowed,
                teams.last(),
                list@,
            ),
            Err(_) => claims(allowed, teams.drop_last()),
        }
    }
}

/// The team that the latest of the claims to a team on GitHub makes it stand for.
pub open spec fn latest(
    claims: Seq<((Seq<char>, Seq<char>), Seq<char>)>,
    place: (Seq<char>, Seq<char>),
) -> Option<Seq<char>>
    decreases claims.len(),
{
    if claims.len() == 0 {
        None
    } else if claims.last().0 == place {
        Some(claims.last().1)
    } else {
        latest(claims.drop_last(), place)
    }
}

/// What is wrong with a team on GitHub that stands for `team`, after the claims before it.
pub open spec fn github_team_fault(
    allowed: Seq<Seq<char>>,
    before: Seq<((Seq<char>, Seq<char>), Seq<char>)>,
    team: Team,
    github_team: GitHubTeam,
) -> Option<Seq<char>> {
    if !allowed.contains(github_team.org@) {
        Some(
            "GitHub organization `"@ + github_team.org@ + "` isn't allowed (in team `"@ + team.name@
                + "`)"@,
        )
    } else {
        match latest(before, place(github_team)) {
            Some(other) => Some(
                "GitHub team `"@ + github_team.org@ + "/"@ + github_team.name@
                    + "` is defined for both the `"@ + team.name@ + "` and `"@ + other
                    + "` teams"@,
            ),
            None => None,
        }
    }
}

/// What is found wrong with the teams on GitHub that stand for `team`, each held against
/// the claims before it.
pub open spec fn github_list_findings(
    allowed: Seq<Seq<char>>,
    before: Seq<((Seq<char>, Seq<char>), Seq<char>)>,
    team: Team,
    list: Seq<GitHubTeam>,
) -> Seq<Seq<char>>
    decreases list.len(),
{
    if list.len() == 0 {
        seq![]
    } else {
        github_list_findings(allowed, before, team, list.drop_last()) + findings::listed(
            github_team_fault(
                allowed,
                before + claims_of_team(allowed, team, list.drop_last()),
                team,
                list.last(),
            ),
        )
    }
}

/// What is found wrong with the teams on GitHub that stand for teams, each held against
/// the claims before it.
pub open spec fn github_teams_findings(allowed: Seq<Seq<char>>, teams: Seq<Team>) -> Seq<Seq<char>>
    decreases teams.len(),
{
    if teams.len() == 0 {
        seq![]
    } else {
        github_teams_findings(allowed, teams.drop_last()) + match teams.last().github_teams {
            Ok(list) => github_list_findings(
                allowed,
                claims(allowed, teams.drop_last()),
                teams.last(),
                list@,
            ),
            Err(message) => seq![message@],
        }
    }
}

/// What is found wrong with teams on GitHub.
pub open spec fn github_findings(data: Data) -> Seq<Seq<char>> {
    github_teams_findings(data.config.allowed_github_orgs.deep_view(), data.teams@)
}

/// A team on GitHub, by organization and name, and the team that it stands for.
struct Claim {
    org: String,
    name: String,
    team: String,
}

impl Claim {
    /// The team on GitHub, and the team that it stands for.
    spec fn told(self) -> ((Seq<char>, Seq<char>), Seq<char>) {
        ((self.org@, self.name@), self.team@)
    }
}

/// Claims without how they are kept.
spec fn all_told(found: Seq<Claim>) -> Seq<((Seq<char>, Seq<char>), Seq<char>)> {
    found.map_values(|claim: Claim| claim.told())
}

/// The team that the latest of the claims to a team on GitHub makes it stand for.
fn latest_claim<'a>(found: &'a Vec<Claim>, github_team: &GitHubTeam) -> (team: Option<&'a str>)
    ensures
        match team {
            Some(team) => latest(all_told(found@), place(*github_team)) == Some(team@),
            None => latest(all_told(found@), place(*github_team)) is None,
        },
{
    let ghost all = all_told(found@);
    let mut i: usize = found.len();
    assert(all.take(i as int) =~= all);
    while i > 0
        invariant
            i <= found.len(),
            all == all_told(found@),
            latest(all, place(*github_team)) == latest(all.take(i as int), place(*github_team)),
        decreases i,
    {
        i -= 1;
        let claim = &found[i];
        assert(all.take(i + 1).last() == claim.told());
        assert(all.take(i + 1).drop_last() =~= all.take(i as int));
        if text::same_text(claim.org.as_str(), github_team.org.as_str()) && text::same_text(
            claim.name.as_str(),
            github_team.name.as_str(),
        ) {
            return Some(claim.team.as_str());
        }
    }
    None
}

/// Holds the teams on GitHub that stand for `team` against the claims found before, and
/// adds theirs.
fn validate_github_list(
    data: &Data,
    team: &Team,
    list: &Vec<GitHubTeam>,
    found: &mut Vec<Claim>,
    errors: &mut Vec<String>,
)
    ensures
        all_told(final(found)@) == all_told(old(found)@) + claims_of_team(
            data.config.allowed_github_orgs.deep_view(),
            *team,
            list@,
        ),
        final(errors).deep_view() == old(errors).deep_view() + github_list_findings(
            data.config.allowed_github_orgs.deep_view(),
            all_told(old(found)@),
            *team,
            list@,
        ),
{
    let ghost allowed = data.config.allowed_github_orgs.deep_view();
    let ghost earlier = all_told(found@);
    let mut i: usize = 0;
    proof {
        assert(all_told(found@) =~= earlier + claims_of_team(allowed, *team, list@.take(0)));
        assert(errors.deep_view() =~= old(errors).deep_view() + github_list_findings(
            allowed,
            earlier,
            *team,
            list@.take(0),
        ));
    }
    while i < list.len()
        invariant
            i <= list.len(),
            allowed == data.config.allowed_github_orgs.deep_view(),
            earlier == all_told(old(found)@),
            all_told(found@) == earlier + claims_of_team(allowed, *team, list@.take(i as int)),
            errors.deep_view() == old(errors).deep_view() + github_list_findings(
                allowed,
                earlier,
                *team,
                list@.take(i as int),
            ),
        decreases list.len() - i,
    {
        let github_team = &list[i];
        let ghost before = errors.deep_view();
        let ghost held = found@;
        assert(list@.take(i + 1).drop_last() =~= list@.take(i as int));
        if !text::contains_text(&data.config.allowed_github_orgs, github_team.org.as_str()) {
            errors.push(
                "GitHub organization `".to_owned().concat(github_team.org.as_str()).concat(
                    "` isn't allowed (in team `",
                ).concat(team.name.as_str()).concat("`)"),
            );
        } else {
            if let Some(other) = latest_claim(found, github_team) {
                errors.push(
                    "GitHub team `".to_owned().concat(github_team.org.as_str()).concat(
                        "/",
                    ).concat(github_team.name.as_str()).concat(
                        "` is defined for both the `",
                    ).concat(team.name.as_str()).concat("` and `").concat(other).concat("` teams"),
                );
            }
            found.push(
                Claim {
                    org: github_team.org.clone(),
                    name: github_team.name.clone(),
                    team: team.name.clone(),
                },
            );
            assert(all_told(found@) =~= all_told(held).push((place(*github_team), team.name@)));
        }
        proof {
            assert(errors.deep_view() =~= before + findings::listed(
                github_team_fault(allowed, all_told(held), *team, *github_team),
            ));
            assert(all_told(found@) =~= earlier + claims_of_team(allowed, *team, list@.take(i + 1)));
            assert(errors.deep_view() =~= old(errors).deep_view() + github_list_findings(
                allowed,
                earlier,
                *team,
                list@.take(i + 1),
            ));
        }
        i += 1;
    }
    assert(list@.take(i as int) =~= list@);
}

/// Ensures that every team on GitHub stands for one team only and is in an organization
/// that teams may be in.
pub fn validate_github_teams(data: &Data, errors: &mut Vec<String>)
    ensures
        final(errors).deep_view() == old(errors).deep_view() + github_findings(*data),
{
    let ghost allowed = data.config.allowed_github_orgs.deep_view();
    let mut found: Vec<Claim> = Vec::new();
    let mut i: usize = 0;
    proof {
        assert(all_told(found@) =~= claims(allowed, data.teams@.take(0)));
        assert(errors.deep_view() =~= old(errors).deep_view() + github_teams_findings(
            allowed,
            data.teams@.take(0),
        ));
    }
    while i < data.teams.len()
        invariant
            i <= data.teams.len(),
            allowed == data.config.allowed_github_orgs.deep_view(),
            all_told(found@) == claims(allowed, data.teams@.take(i as int)),
            errors.deep_view() == old(errors).deep_view() + github_teams_findings(
                allowed,
                data.teams@.take(i as int),
            ),
        decreases data.teams.len() - i,
    {
        let team = &data.teams[i];
        let ghost before = errors.deep_view();
        assert(data.teams@.take(i + 1).drop_last() =~= data.teams@.take(i as int));
        match &team.github_teams {
            Ok(list) => {
                validate_github_list(data, team, list, &mut found, errors);
            },
            Err(message) => {
                errors.push(message.clone());
                assert(errors.deep_view() =~= before + seq![message@]);
            },
        }
        assert(errors.deep_view() =~= old(errors).deep_view() + github_teams_findings(
            allowed,
            data.teams@.take(i + 1),
        ));
        i += 1;
    }
    assert(data.teams@.take(i as int) =~= data.teams@);
}

/// The last of the people with an account of the given number.
pub open spec fn last_with_id(people: Seq<Person>, id: u64) -> Option<Person>
    decreases people.len(),
{
    if people.len() == 0 {
        None
    } else if people.last().github_id == id {
        Some(people.last())
    } else {
        last_with_id(people.drop_last(), id)
    }
}

/// What is wrong with the name of an account that GitHub gives as `name`.
pub open spec fn username_fault(data: Data, id: u64, name: Seq<char>) -> Option<Seq<char>> {
    match last_with_id(data.people@, id) {
        Some(person) => if person.github@ != name {
            Some("user `"@ + person.github@ + "` changed username to `"@ + name + "`"@)
        } else {
            None
        },
        None => None,
    }
}

/// What is found wrong with the names of accounts, going by what GitHub answered.
pub open spec fn username_findings(
    data: Data,
    usernames: Result<Vec<(u64, String)>, String>,
) -> Seq<Seq<char>> {
    match usernames {
        Ok(names) => findings::each(
            names@,
            |named: (u64, String)| findings::listed(username_fault(data, named.0, named.1@)),
        ),
        Err(message) => seq!["couldn't verify GitHub usernames: "@ + message@],
    }
}

/// Whether what GitHub answered is on accounts that it was asked about.
pub open spec fn answers_known(data: Data, usernames: Result<Vec<(u64, String)>, String>) -> bool {
    usernames matches Ok(names) ==> forall|i: int|
        0 <= i < names.len() ==> last_with_id(data.people@, (#[trigger] names@[i]).0) is Some
}

/// The last of the people with an account of the given number.
fn person_with_id(data: &Data, id: u64) -> (person: Option<&Person>)
    ensures
        match person {
            Some(person) => last_with_id(data.people@, id) == Some(*person),
            None => last_with_id(data.people@, id) is None,
        },
{
    let mut i: usize = data.people.len();
    assert(data.people@.take(i as int) =~= data.people@);
    while i > 0
        invariant
            i <= data.people.len(),
            last_with_id(data.people@, id) == last_with_id(data.people@.take(i as int), id),
        decreases i,
    {
        i -= 1;
        assert(data.people@.take(i + 1).drop_last() =~= data.people@.take(i as int));
        if data.people[i].github_id == id {
            return Some(&data.people[i]);
        }
    }
    None
}

/// Whether what GitHub answered is on accounts that it was asked about.
pub fn are_answers_known(data: &Data, usernames: &Result<Vec<(u64, String)>, String>) -> (yes: bool)
    ensures
        yes == answers_known(*data, *usernames),
{
    match usernames {
        Ok(names) => {
            let mut i: usize = 0;
            while i < names.len()
                invariant
                    i <= names.len(),
                    usernames is Ok && usernames->Ok_0 == *names,
                    forall|j: int|
                        0 <= j < i ==> last_with_id(
                            data.people@,
                            (#[trigger] names@[j]).0,
                        ) is Some,
                decreases names.len() - i,
            {
                if person_with_id(data, names[i].0).is_none() {
                    assert(last_with_id(data.people@, names@[i as int].0) is None);
                    return false;
                }
                i += 1;
            }
            true
        },
        Err(_) => true,
    }
}

/// The numbers of the accounts to ask GitHub about, each once.
pub fn github_user_ids(data: &Data) -> (ids: Vec<u64>)
    ensures
        ids@.no_duplicates(),
        forall|id: u64| #[trigger]
            ids@.contains(id) <==> exists|i: int|
                0 <= i < data.people.len() && (#[trigger] data.people@[i]).github_id == id,
{
    broadcast use vstd::std_specs::hash::group_hash_axioms;

    let mut seen: HashSet<u64> = HashSet::new();
    let mut ids: Vec<u64> = Vec::new();
    let mut i: usize = 0;
    while i < data.people.len()
        invariant
            i <= data.people.len(),
            ids@.no_duplicates(),
            forall|id: u64| #[trigger] seen@.contains(id) <==> ids@.contains(id),
            forall|id: u64| #[trigger]
                ids@.contains(id) <==> exists|j: int|
                    0 <= j < i && (#[trigger] data.people@[j]).github_id == id,
        decreases data.people.len() - i,
    {
        let id = data.people[i].github_id;
        let ghost before = ids@;
        if seen.insert(id) {
            ids.push(id);
            proof {
                assert(!before.contains(id));
                assert forall|other: u64| #[trigger] ids@.contains(other) <==> before.contains(
                    other,
                ) || other == id by {
                    assert(ids@[before.len() as int] == id);
                    if before.contains(other) {
                        let k = choose|k: int| 0 <= k < before.len() && before[k] == other;
                        assert(ids@[k] == other);
                    }
                }
            }
        }
        assert(data.people@[i as int].github_id == id);
        i += 1;
    }
    ids
}

/// Ensures that no account has changed its name, going by the names that GitHub answered
/// for the numbers it was asked about, or by the message of why it did not.
pub fn validate_github_usernames(
    data: &Data,
    usernames: &Result<Vec<(u64, String)>, String>,
    errors: &mut Vec<String>,
)
    requires
        answers_known(*data, *usernames),
    ensures
        final(errors).deep_view() == old(errors).deep_view() + username_findings(*data, *usernames),
{
    match usernames {
        Ok(names) => {
            let rule = |
                named: &(u64, String),
                errors: Vec<String>,
            | -> (out: (Vec<String>, Result<(), String>))
                ensures
                    findings::outcome(out) == errors.deep_view() + findings::listed(
                        username_fault(*data, named.0, named.1@),
                    ),
                {
                    let verdict = match person_with_id(data, named.0) {
                        Some(person) => if !text::same_text(
                            person.github.as_str(),
                            named.1.as_str(),
                        ) {
                            Err(
                                "user `".to_owned().concat(person.github.as_str()).concat(
                                    "` changed username to `",
                                ).concat(named.1.as_str()).concat("`"),
                            )
                        } else {
                            Ok(())
                        },
                        None => Ok(()),
                    };
                    (errors, verdict)
                };
            assert(findings::adds(
                rule,
                |named: (u64, String)| findings::listed(username_fault(*data, named.0, named.1@)),
            ));
            wrapper(names, errors, rule);
        },
        Err(message) => {
            errors.push(
                "couldn't verify GitHub usernames: ".to_owned().concat(message.as_str()),
            );
            assert(errors.deep_view() =~= old(errors).deep_view() + username_findings(
                *data,
                *usernames,
            ));
        },
    }
}

/// The teams on GitHub that stand for teams, by organization and name.
pub open spec fn places(teams: Seq<Team>) -> Seq<(Seq<char>, Seq<char>)>
    decreases teams.len(),
{
    if teams.len() == 0 {
        seq![]
    } else {
        places(teams.drop_last()) + match teams.last().github_teams {
            Ok(list) => list@.map_values(|team: GitHubTeam| place(team)),
            Err(_) => seq![],
        }
    }
}

/// Whether the teams on GitHub that stand for a team are known and all in organizations
/// that teams may be in.
pub open spec fn in_allowed_orgs(allowed: Seq<Seq<char>>, team: Team) -> bool {
    team.github_teams matches Ok(list) && forall|i: int|
        0 <= i < list.len() ==> allowed.contains((#[trigger] list@[i]).org@)
}

spec fn places_of(claims: Seq<((Seq<char>, Seq<char>), Seq<char>)>) -> Seq<(Seq<char>, Seq<char>)> {
    claims.map_values(|claim: ((Seq<char>, Seq<char>), Seq<char>)| claim.0)
}

proof fn lemma_no_claim(
    claims: Seq<((Seq<char>, Seq<char>), Seq<char>)>,
    place: (Seq<char>, Seq<char>),
)
    ensures
        latest(claims, place) is None <==> !places_of(claims).contains(place),
    decreases claims.len(),
{
    let all = places_of(claims);
    if claims.len() > 0 {
        let init = claims.drop_last();
        lemma_no_claim(init, place);
        assert(all =~= places_of(init).push(claims.last().0));
        if claims.last().0 == place {
            assert(all[claims.len() - 1] == place);
        } else {
            if places_of(init).contains(place) {
                let k = choose|k: int| 0 <= k < init.len() && places_of(init)[k] == place;
                assert(all[k] == place);
            }
            if all.contains(place) {
                let k = choose|k: int| 0 <= k < all.len() && all[k] == place;
                assert(places_of(init)[k] == place);
            }
        }
    }
}

proof fn lemma_push_no_duplicates<A>(s: Seq<A>, x: A)
    ensures
        s.push(x).no_duplicates() <==> s.no_duplicates() && !s.contains(x),
{
    let t = s.push(x);
    assert(t[s.len() as int] == x);
    assert(forall|i: int| 0 <= i < s.len() ==> #[trigger] t[i] == s[i]);
    if t.no_duplicates() {
        assert forall|i: int, j: int| 0 <= i < s.len() && 0 <= j < s.len() && i != j implies s[i]
            != s[j] by {
            assert(t[i] != t[j]);
        }
        if s.contains(x) {
            let k = choose|k: int| 0 <= k < s.len() && s[k] == x;
            assert(t[k] == t[s.len() as int]);
        }
    }
    if s.no_duplicates() && !s.contains(x) {
        assert forall|i: int, j: int| 0 <= i < t.len() && 0 <= j < t.len() && i != j implies t[i]
            != t[j] by {
            if i < s.len() && j < s.len() {
                assert(s[i] != s[j]);
            } else if i < s.len() {
                assert(s[i] != x);
            } else {
                assert(s[j] != x);
            }
        }
    }
}

/// What the teams on GitHub of one team are found to be, and where its claims lie, if all
/// of them are in organizations that teams may be in.
proof fn lemma_github_list(
    allowed: Seq<Seq<char>>,
    before: Seq<((Seq<char>, Seq<char>), Seq<char>)>,
    team: Team,
    list: Seq<GitHubTeam>,
)
    requires
        places_of(before).no_duplicates(),
    ensures
        github_list_findings(allowed, before, team, list).len() == 0 <==> (forall|i: int|
            0 <= i < list.len() ==> allowed.contains((#[trigger] list[i]).org@)) && (places_of(
            before,
        ) + list.map_values(|team: GitHubTeam| place(team))).no_duplicates(),
        (forall|i: int| 0 <= i < list.len() ==> allowed.contains((#[trigger] list[i]).org@))
            ==> places_of(claims_of_team(allowed, team, list)) == list.map_values(
            |team: GitHubTeam| place(team),
        ),
    decreases list.len(),
{
    let here = list.map_values(|team: GitHubTeam| place(team));
    if list.len() == 0 {
        assert(places_of(before) + here =~= places_of(before));
        assert(places_of(claims_of_team(allowed, team, list)) =~= here);
    } else {
        let init = list.drop_last();
        let last = list.last();
        let there = init.map_values(|team: GitHubTeam| place(team));
        lemma_github_list(allowed, before, team, init);
        assert(here =~= there.push(place(last)));
        assert(places_of(before) + here =~= (places_of(before) + there).push(place(last)));
        lemma_push_no_duplicates(places_of(before) + there, place(last));
        let claimed = claims_of_team(allowed, team, init);
        assert(places_of(before + claimed) =~= places_of(before) + places_of(claimed));
        lemma_no_claim(before + claimed, place(last));
        assert(list[list.len() - 1] == last);
        assert(forall|i: int| 0 <= i < init.len() ==> #[trigger] init[i] == list[i]);
        assert(forall|i: int| 0 <= i < init.len() ==> init[i] == #[trigger] list[i]);
        if forall|i: int| 0 <= i < list.len() ==> allowed.contains((#[trigger] list[i]).org@) {
            assert forall|i: int| 0 <= i < init.len() implies allowed.contains(
                (#[trigger] init[i]).org@,
            ) by {
                assert(list[i] == init[i]);
            }
            assert(places_of(claims_of_team(allowed, team, list)) =~= here);
        }
    }
}

proof fn lemma_prefix_no_duplicates<A>(s: Seq<A>, t: Seq<A>)
    requires
        (s + t).no_duplicates(),
    ensures
        s.no_duplicates(),
{
    assert forall|i: int, j: int| 0 <= i < s.len() && 0 <= j < s.len() && i != j implies s[i]
        != s[j] by {
        assert((s + t)[i] != (s + t)[j]);
    }
}

proof fn lemma_github_teams(allowed: Seq<Seq<char>>, teams: Seq<Team>)
    ensures
        github_teams_findings(allowed, teams).len() == 0 <==> (forall|i: int|
            0 <= i < teams.len() ==> in_allowed_orgs(allowed, #[trigger] teams[i])) && places(
            teams,
        ).no_duplicates(),
        (forall|i: int| 0 <= i < teams.len() ==> in_allowed_orgs(allowed, #[trigger] teams[i]))
            ==> places_of(claims(allowed, teams)) == places(teams),
    decreases teams.len(),
{
    if teams.len() == 0 {
        assert(places_of(claims(allowed, teams)) =~= places(teams));
        assert(places(teams).no_duplicates());
    } else {
        let init = teams.drop_last();
        let last = teams.last();
        lemma_github_teams(allowed, init);
        assert(teams[teams.len() - 1] == last);
        assert(forall|i: int| 0 <= i < init.len() ==> #[trigger] init[i] == teams[i]);
        assert(forall|i: int| 0 <= i < init.len() ==> init[i] == #[trigger] teams[i]);
        let init_allowed = forall|i: int|
            0 <= i < init.len() ==> in_allowed_orgs(allowed, #[trigger] init[i]);
        let all_allowed = forall|i: int|
            0 <= i < teams.len() ==> in_allowed_orgs(allowed, #[trigger] teams[i]);
        if all_allowed {
            assert forall|i: int| 0 <= i < init.len() implies in_allowed_orgs(
                allowed,
                #[trigger] init[i],
            ) by {
                assert(teams[i] == init[i]);
            }
            assert(init_allowed);
        }
        if init_allowed && in_allowed_orgs(allowed, last) {
            assert(all_allowed);
        }
        if last.github_teams is Ok {
            let list = last.github_teams->Ok_0@;
            let before = claims(allowed, init);
            let here = list.map_values(|team: GitHubTeam| place(team));
            if init_allowed {
                assert(places_of(before) == places(init));
                if places(init).no_duplicates() {
                    lemma_github_list(allowed, before, last, list);
                    if in_allowed_orgs(allowed, last) {
                        assert(places_of(claims(allowed, teams)) =~= places(teams));
                    }
                } else if places(teams).no_duplicates() {
                    lemma_prefix_no_duplicates(places(init), here);
                }
                if all_allowed {
                    lemma_claimed_places(allowed, last, list);
                    assert(places_of(claims(allowed, teams)) =~= places(teams));
                }
            }
        }
    }
}

proof fn lemma_claimed_places(allowed: Seq<Seq<char>>, team: Team, list: Seq<GitHubTeam>)
    requires
        forall|i: int| 0 <= i < list.len() ==> allowed.contains((#[trigger] list[i]).org@),
    ensures
        places_of(claims_of_team(allowed, team, list)) == list.map_values(
            |team: GitHubTeam| place(team),
        ),
{
    assert(places_of(seq![]).no_duplicates());
    lemma_github_list(allowed, seq![], team, list);
}

/// Whether the teams on GitHub are known, in organizations that teams may be in, and each
/// there for one team only.
pub open spec fn github_teams_are_right(data: Data) -> bool {
    &&& forall|i: int|
        0 <= i < data.teams.len() ==> in_allowed_orgs(
            data.config.allowed_github_orgs.deep_view(),
            #[trigger] data.teams@[i],
        )
    &&& places(data.teams@).no_duplicates()
}

/// Nothing is found wrong with teams on GitHub exactly if those that stand for teams are
/// known, all of them are in organizations that teams may be in, and none of them stands
/// for a team twice or for two.
pub proof fn law_github_teams(data: Data)
    ensures
        github_findings(data).len() == 0 <==> github_teams_are_right(data),
{
    lemma_github_teams(data.config.allowed_github_orgs.deep_view(), data.teams@);
}

/// The number of an account leads to a person exactly if it is someone's, and then to one
/// whose it is: what GitHub answers on accounts that it was asked about is known.
pub proof fn law_account_lookup(people: Seq<Person>, id: u64)
    ensures
        last_with_id(people, id) is Some <==> exists|i: int|
            0 <= i < people.len() && (#[trigger] people[i]).github_id == id,
        last_with_id(people, id) matches Some(person) ==> person.github_id == id
            && people.contains(person),
    decreases people.len(),
{
    if people.len() > 0 {
        let init = people.drop_last();
        law_account_lookup(init, id);
        if people.last().github_id == id {
            assert(people[people.len() - 1] == people.last());
        } else {
            assert forall|i: int|
                0 <= i < people.len() && (#[trigger] people[i]).github_id == id implies exists|
                j: int,
            | 0 <= j < init.len() && (#[trigger] init[j]).github_id == id by {
                assert(init[i] == people[i]);
            }
            if last_with_id(init, id) is Some {
                let j = choose|j: int| 0 <= j < init.len() && init[j] == last_with_id(init, id)->0;
                assert(people[j] == init[j]);
            }
        }
    }
}

/// Whether GitHub answered, and the names that it answered are those that the records have.
pub open spec fn names_unchanged(
    data: Data,
    usernames: Result<Vec<(u64, String)>, String>,
) -> bool {
    usernames matches Ok(names) && forall|i: int|
        0 <= i < names.len() ==> last_with_id(data.people@, (#[trigger] names@[i]).0)->0.github@
            == names@[i].1@
}

/// Nothing is found wrong with the names of accounts exactly if GitHub answered, and the
/// names that it answered are those that the records have.
pub proof fn law_github_usernames(data: Data, usernames: Result<Vec<(u64, String)>, String>)
    requires
        answers_known(data, usernames),
    ensures
        username_findings(data, usernames).len() == 0 <==> names_unchanged(data, usernames),
{
    if usernames is Ok {
        findings::law_each_empty(
            usernames->Ok_0@,
            |named: (u64, String)| findings::listed(username_fault(data, named.0, named.1@)),
        );
    }
}

/// If what GitHub answered can be read, each account that it answered on is someone's; if it
/// cannot, there is one that is nobody's.
pub proof fn law_answers_known(
    data: Data,
    usernames: Result<Vec<(u64, String)>, String>,
    i: int,
)
    requires
        usernames is Ok,
        0 <= i < usernames->Ok_0@.len(),
    ensures
        answers_known(data, usernames) ==> exists|p: int|
            0 <= p < data.people@.len() && (#[trigger] data.people@[p]).github_id
                == usernames->Ok_0@[i].0,
        !answers_known(data, usernames) ==> exists|k: int|
            #![trigger usernames->Ok_0@[k]]
            0 <= k < usernames->Ok_0@.len() && forall|p: int|
                0 <= p < data.people@.len() ==> (#[trigger] data.people@[p]).github_id
                    != usernames->Ok_0@[k].0,
{
    let names = usernames->Ok_0;
    if answers_known(data, usernames) {
        assert(last_with_id(data.people@, names@[i].0) is Some);
        law_account_lookup(data.people@, names@[i].0);
    } else {
        let k = choose|k: int|
            0 <= k < names.len() && last_with_id(data.people@, (#[trigger] names@[k]).0) is None;
        law_account_lookup(data.people@, usernames->Ok_0@[k].0);
    }
}

/// That GitHub did not answer can be read, and so can an answer on no account.
pub proof fn law_nothing_answered(data: Data, usernames: Result<Vec<(u64, String)>, String>)
    requires
        usernames matches Ok(names) ==> names.len() == 0,
    ensures
        answers_known(data, usernames),
{
}

/// The number of an account leads to the last of the people whose it is.
pub proof fn law_last_account(people: Seq<Person>, id: u64)
    ensures
        ({
            let with_id = people.filter(|person: Person| person.github_id == id);
            last_with_id(people, id) == (if with_id.len() > 0 {
                Some(with_id.last())
            } else {
                None
            })
        }),
    decreases people.len(),
{
    reveal(Seq::filter);
    if people.len() > 0 {
        law_last_account(people.drop_last(), id);
    }
}

/// If GitHub answered, there is a finding for each answer with a name other than that of the
/// last of the people with the account, in the order of the answers: as many as there are
/// such answers. If it did not, there is one, which says why.
pub proof fn law_username_findings(data: Data, usernames: Result<Vec<(u64, String)>, String>)
    ensures
        usernames matches Ok(names) ==> ({
            let people = |named: (u64, String)|
                data.people@.filter(|person: Person| person.github_id == named.0);
            username_findings(data, usernames) == names@.filter(
                |named: (u64, String)|
                    people(named).len() > 0 && people(named).last().github@ != named.1@,
            ).map_values(
                |named: (u64, String)|
                    "user `"@ + people(named).last().github@ + "` changed username to `"@
                        + named.1@ + "`"@,
            )
        }),
        usernames matches Err(message) ==> username_findings(data, usernames) == seq![
            "couldn't verify GitHub usernames: "@ + message@,
        ],
{
    if usernames is Ok {
        let people = |named: (u64, String)|
            data.people@.filter(|person: Person| person.github_id == named.0);
        let wrong = |named: (u64, String)|
            people(named).len() > 0 && people(named).last().github@ != named.1@;
        let words = |named: (u64, String)|
            "user `"@ + people(named).last().github@ + "` changed username to `"@ + named.1@ + "`"@;
        let rule = |named: (u64, String)|
            findings::listed(username_fault(data, named.0, named.1@));
        assert forall|named: (u64, String)| #[trigger] rule(named) == (if wrong(named) {
            seq![words(named)]
        } else {
            seq![]
        }) by {
            law_last_account(data.people@, named.0);
        }
        findings::law_each_of_the_wrong(usernames->Ok_0@, rule, wrong, words);
    }
}

/// Any one answer with a name other than the records have, wherever it stands among the
/// answers, is found, whatever else is.
pub proof fn law_every_changed_name_is_found(
    data: Data,
    usernames: Result<Vec<(u64, String)>, String>,
    i: int,
    p: int,
)
    requires
        usernames is Ok,
        0 <= i < usernames->Ok_0.len(),
        0 <= p < data.people.len(),
        data.people@[p].github_id == usernames->Ok_0@[i].0,
        data.people@[p].github@ != usernames->Ok_0@[i].1@,
        forall|q: int|
            p < q < data.people.len() ==> (#[trigger] data.people@[q]).github_id
                != usernames->Ok_0@[i].0,
    ensures
        username_findings(data, usernames).contains(
            "user `"@ + data.people@[p].github@ + "` changed username to `"@
                + usernames->Ok_0@[i].1@ + "`"@,
        ),
{
    let names = usernames->Ok_0@;
    let rule = |named: (u64, String)| findings::listed(username_fault(data, named.0, named.1@));
    let message = "user `"@ + data.people@[p].github@ + "` changed username to `"@ + names[i].1@
        + "`"@;
    lemma_last_with_id_at(data.people@, names[i].0, p);
    assert(rule(names[i])[0] == message);
    assert(rule(names[i]).contains(message));
    findings::law_each_contains(names, rule, message);
}

proof fn lemma_last_with_id_at(people: Seq<Person>, id: u64, p: int)
    requires
        0 <= p < people.len(),
        people[p].github_id == id,
        forall|q: int| p < q < people.len() ==> (#[trigger] people[q]).github_id != id,
    ensures
        last_with_id(people, id) == Some(people[p]),
    decreases people.len(),
{
    if p < people.len() - 1 {
        let init = people.drop_last();
        assert(people[people.len() - 1].github_id != id);
        assert(forall|q: int| p < q < init.len() ==> #[trigger] init[q] == people[q]);
        lemma_last_with_id_at(init, id, p);
    }
}

proof fn lemma_places(teams: Seq<Team>, p: (Seq<char>, Seq<char>))
    ensures
        places(teams).contains(p) <==> exists|i: int, j: int|
            {
                &&& 0 <= i < teams.len()
                &&& teams[i].github_teams is Ok
                &&& 0 <= j < teams[i].github_teams->Ok_0.len()
                &&& (#[trigger] teams[i].github_teams->Ok_0@[j]).org@ == p.0
                &&& teams[i].github_teams->Ok_0@[j].name@ == p.1
            },
    decreases teams.len(),
{
    if teams.len() > 0 {
        let init = teams.drop_last();
        let last = teams.last();
        lemma_places(init, p);
        let head = places(init);
        let tail = match last.github_teams {
            Ok(list) => list@.map_values(|team: GitHubTeam| place(team)),
            Err(_) => seq![],
        };
        assert(teams[teams.len() - 1] == last);
        assert(forall|i: int| 0 <= i < init.len() ==> #[trigger] teams[i] == init[i]);
        if head.contains(p) {
            let (i, j) = choose|i: int, j: int|
                {
                    &&& 0 <= i < init.len()
                    &&& init[i].github_teams is Ok
                    &&& 0 <= j < init[i].github_teams->Ok_0.len()
                    &&& (#[trigger] init[i].github_teams->Ok_0@[j]).org@ == p.0
                    &&& init[i].github_teams->Ok_0@[j].name@ == p.1
                };
            assert(teams[i].github_teams->Ok_0@[j].org@ == p.0);
            let k = choose|k: int| 0 <= k < head.len() && head[k] == p;
            assert((head + tail)[k] == p);
        }
        if tail.contains(p) {
            let j = choose|j: int| 0 <= j < tail.len() && tail[j] == p;
            assert(teams[teams.len() - 1].github_teams->Ok_0@[j].org@ == p.0);
            assert((head + tail)[head.len() + j] == p);
        }
        if (head + tail).contains(p) {
            let k = choose|k: int| 0 <= k < (head + tail).len() && (head + tail)[k] == p;
            if k < head.len() {
                assert(head[k] == p);
            } else {
                assert(tail[k - head.len()] == p);
            }
        }
        if exists|i: int, j: int|
            {
                &&& 0 <= i < teams.len()
                &&& teams[i].github_teams is Ok
                &&& 0 <= j < teams[i].github_teams->Ok_0.len()
                &&& (#[trigger] teams[i].github_teams->Ok_0@[j]).org@ == p.0
                &&& teams[i].github_teams->Ok_0@[j].name@ == p.1
            } {
            let (i, j) = choose|i: int, j: int|
                {
                    &&& 0 <= i < teams.len()
                    &&& teams[i].github_teams is Ok
                    &&& 0 <= j < teams[i].github_teams->Ok_0.len()
                    &&& (#[trigger] teams[i].github_teams->Ok_0@[j]).org@ == p.0
                    &&& teams[i].github_teams->Ok_0@[j].name@ == p.1
                };
            if i < init.len() {
                assert(init[i].github_teams->Ok_0@[j].org@ == p.0);
            } else {
                assert(tail[j] == p);
            }
        }
    }
}

proof fn lemma_places_differ(teams: Seq<Team>)
    ensures
        places(teams).no_duplicates() <==> forall|i: int, j: int, k: int, l: int|
            {
                &&& 0 <= i < teams.len() && teams[i].github_teams is Ok
                &&& 0 <= j < teams[i].github_teams->Ok_0.len()
                &&& 0 <= k < teams.len() && teams[k].github_teams is Ok
                &&& 0 <= l < teams[k].github_teams->Ok_0.len()
                &&& (#[trigger] teams[i].github_teams->Ok_0@[j]).org@ == (
                #[trigger] teams[k].github_teams->Ok_0@[l]).org@
                &&& teams[i].github_teams->Ok_0@[j].name@ == teams[k].github_teams->Ok_0@[l].name@
            } ==> i == k && j == l,
    decreases teams.len(),
{
    if teams.len() > 0 {
        let init = teams.drop_last();
        let last = teams.last();
        lemma_places_differ(init);
        let head = places(init);
        let tail = match last.github_teams {
            Ok(list) => list@.map_values(|team: GitHubTeam| place(team)),
            Err(_) => seq![],
        };
        let all = head + tail;
        let n = teams.len() - 1;
        assert(teams[n] == last);
        assert(forall|i: int| 0 <= i < n ==> #[trigger] teams[i] == init[i]);
        if all.no_duplicates() {
            lemma_prefix_no_duplicates(head, tail);
            assert forall|i: int, j: int, k: int, l: int|
                {
                    &&& 0 <= i < teams.len() && teams[i].github_teams is Ok
                    &&& 0 <= j < teams[i].github_teams->Ok_0.len()
                    &&& 0 <= k < teams.len() && teams[k].github_teams is Ok
                    &&& 0 <= l < teams[k].github_teams->Ok_0.len()
                    &&& (#[trigger] teams[i].github_teams->Ok_0@[j]).org@ == (
                    #[trigger] teams[k].github_teams->Ok_0@[l]).org@
                    &&& teams[i].github_teams->Ok_0@[j].name@
                        == teams[k].github_teams->Ok_0@[l].name@
                } implies i == k && j == l by {
                let p = place(teams[i].github_teams->Ok_0@[j]);
                lemma_places(init, p);
                if i < n && k < n {
                    assert(init[i].github_teams->Ok_0@[j].org@
                        == init[k].github_teams->Ok_0@[l].org@);
                } else if i == n && k == n {
                    assert(all[head.len() + j] == p && all[head.len() + l] == p);
                } else {
                    let (a, b, c) = if i < n {
                        (i, j, l)
                    } else {
                        (k, l, j)
                    };
                    assert(init[a].github_teams->Ok_0@[b].org@ == p.0);
                    let m = choose|m: int| 0 <= m < head.len() && head[m] == p;
                    assert(all[m] == p && all[head.len() + c] == p);
                }
            }
        }
        if forall|i: int, j: int, k: int, l: int|
            {
                &&& 0 <= i < teams.len() && teams[i].github_teams is Ok
                &&& 0 <= j < teams[i].github_teams->Ok_0.len()
                &&& 0 <= k < teams.len() && teams[k].github_teams is Ok
                &&& 0 <= l < teams[k].github_teams->Ok_0.len()
                &&& (#[trigger] teams[i].github_teams->Ok_0@[j]).org@ == (
                #[trigger] teams[k].github_teams->Ok_0@[l]).org@
                &&& teams[i].github_teams->Ok_0@[j].name@ == teams[k].github_teams->Ok_0@[l].name@
            } ==> i == k && j == l {
            assert forall|i: int, j: int, k: int, l: int|
                {
                    &&& 0 <= i < init.len() && init[i].github_teams is Ok
                    &&& 0 <= j < init[i].github_teams->Ok_0.len()
                    &&& 0 <= k < init.len() && init[k].github_teams is Ok
                    &&& 0 <= l < init[k].github_teams->Ok_0.len()
                    &&& (#[trigger] init[i].github_teams->Ok_0@[j]).org@ == (
                    #[trigger] init[k].github_teams->Ok_0@[l]).org@
                    &&& init[i].github_teams->Ok_0@[j].name@
                        == init[k].github_teams->Ok_0@[l].name@
                } implies i == k && j == l by {
                assert(teams[i].github_teams->Ok_0@[j].org@
                    == teams[k].github_teams->Ok_0@[l].org@);
            }
            assert(head.no_duplicates());
            assert forall|a: int, b: int|
                0 <= a < all.len() && 0 <= b < all.len() && a != b implies all[a] != all[b] by {
                if all[a] == all[b] {
                    if a < head.len() && b < head.len() {
                        assert(head[a] != head[b]);
                    } else if a >= head.len() && b >= head.len() {
                        let (j, l) = (a - head.len(), b - head.len());
                        assert(teams[n].github_teams->Ok_0@[j].org@
                            == teams[n].github_teams->Ok_0@[l].org@);
                    } else {
                        let (m, c) = if a < head.len() {
                            (a, b - head.len())
                        } else {
                            (b, a - head.len())
                        };
                        let p = head[m];
                        assert(head.contains(p));
                        lemma_places(init, p);
                        let (i, j) = choose|i: int, j: int|
                            {
                                &&& 0 <= i < init.len()
                                &&& init[i].github_teams is Ok
                                &&& 0 <= j < init[i].github_teams->Ok_0.len()
                                &&& (#[trigger] init[i].github_teams->Ok_0@[j]).org@ == p.0
                                &&& init[i].github_teams->Ok_0@[j].name@ == p.1
                            };
                        assert(tail[c] == p);
                        assert(teams[i].github_teams->Ok_0@[j].org@
                            == teams[n].github_teams->Ok_0@[c].org@);
                    }
                }
            }
        }
    } else {
        assert(places(teams).no_duplicates());
    }
}

/// Nothing is found wrong with teams on GitHub exactly if all that stand for teams are known
/// and in organizations that teams may be in, and no two of them, in the lists of whatever
/// teams and wherever in those, have both the same organization and the same name.
pub proof fn law_no_two_alike(data: Data)
    ensures
        github_findings(data).len() == 0 <==> {
            &&& forall|i: int|
                0 <= i < data.teams.len() ==> (#[trigger] data.teams@[i]).github_teams is Ok
            &&& forall|i: int, j: int|
                #![trigger data.teams@[i].github_teams->Ok_0@[j]]
                0 <= i < data.teams.len() && 0 <= j < data.teams@[i].github_teams->Ok_0.len()
                    ==> data.config.allowed_github_orgs.deep_view().contains(
                    data.teams@[i].github_teams->Ok_0@[j].org@,
                )
            &&& forall|i: int, j: int, k: int, l: int|
                {
                    &&& 0 <= i < data.teams.len()
                    &&& 0 <= j < data.teams@[i].github_teams->Ok_0.len()
                    &&& 0 <= k < data.teams.len()
                    &&& 0 <= l < data.teams@[k].github_teams->Ok_0.len()
                    &&& (#[trigger] data.teams@[i].github_teams->Ok_0@[j]).org@ == (
                    #[trigger] data.teams@[k].github_teams->Ok_0@[l]).org@
                    &&& data.teams@[i].github_teams->Ok_0@[j].name@
                        == data.teams@[k].github_teams->Ok_0@[l].name@
                } ==> i == k && j == l
        },
{
    let allowed = data.config.allowed_github_orgs.deep_view();
    let teams = data.teams@;
    law_github_teams(data);
    lemma_places_differ(teams);
    if forall|i: int| 0 <= i < teams.len() ==> in_allowed_orgs(allowed, #[trigger] teams[i]) {
        assert forall|i: int, j: int|
            #![trigger teams[i].github_teams->Ok_0@[j]]
            0 <= i < teams.len() && 0 <= j
                < teams[i].github_teams->Ok_0.len() implies allowed.contains(
            teams[i].github_teams->Ok_0@[j].org@,
        ) by {
            assert(in_allowed_orgs(allowed, teams[i]));
        }
    }
    if forall|i: int, j: int|
        #![trigger teams[i].github_teams->Ok_0@[j]]
        0 <= i < teams.len() && 0 <= j < teams[i].github_teams->Ok_0.len() ==> allowed.contains(
            teams[i].github_teams->Ok_0@[j].org@,
        ) {
        assert forall|i: int|
            0 <= i < teams.len() && (
            #[trigger] teams[i]).github_teams is Ok implies in_allowed_orgs(allowed, teams[i]) by {
            let list = teams[i].github_teams->Ok_0;
            assert forall|j: int| 0 <= j < list.len() implies allowed.contains(
                (#[trigger] list@[j]).org@,
            ) by {
                assert(teams[i].github_teams->Ok_0@[j].org@ == list@[j].org@);
            }
        }
    }
}

proof fn lemma_latest_of_team(
    allowed: Seq<Seq<char>>,
    before: Seq<((Seq<char>, Seq<char>), Seq<char>)>,
    team: Team,
    list: Seq<GitHubTeam>,
    p: (Seq<char>, Seq<char>),
)
    requires
        allowed.contains(p.0),
    ensures
        latest(before + claims_of_team(allowed, team, list), p) == (if exists|j: int|
            0 <= j < list.len() && (#[trigger] list[j]).org@ == p.0 && list[j].name@ == p.1 {
            Some(team.name@)
        } else {
            latest(before, p)
        }),
    decreases list.len(),
{
    if list.len() == 0 {
        assert(before + claims_of_team(allowed, team, list) =~= before);
    } else {
        let init = list.drop_last();
        let last = list.last();
        lemma_latest_of_team(allowed, before, team, init, p);
        assert(list[list.len() - 1] == last);
        assert(forall|j: int| 0 <= j < init.len() ==> #[trigger] init[j] == list[j]);
        assert(forall|j: int| 0 <= j < init.len() ==> init[j] == #[trigger] list[j]);
        let claimed = before + claims_of_team(allowed, team, list);
        if allowed.contains(last.org@) {
            assert(claimed.drop_last() =~= before + claims_of_team(allowed, team, init));
            assert(claimed.last() == (place(last), team.name@));
            if place(last) == p {
                assert(list[list.len() - 1].org@ == p.0);
            }
        }
    }
}

/// The team that a claim is held against is the last of the teams with the same team on
/// GitHub, by organization and name, among those in allowed organizations.
proof fn lemma_latest_team(allowed: Seq<Seq<char>>, teams: Seq<Team>, p: (Seq<char>, Seq<char>))
    requires
        allowed.contains(p.0),
    ensures
        match latest(claims(allowed, teams), p) {
            None => forall|i: int, j: int|
                #![trigger teams[i].github_teams->Ok_0@[j]]
                0 <= i < teams.len() && teams[i].github_teams is Ok && 0 <= j
                    < teams[i].github_teams->Ok_0.len() ==> !(
                teams[i].github_teams->Ok_0@[j].org@ == p.0
                    && teams[i].github_teams->Ok_0@[j].name@ == p.1),
            Some(name) => exists|i: int, j: int|
                {
                    &&& 0 <= i < teams.len() && teams[i].github_teams is Ok
                    &&& 0 <= j < teams[i].github_teams->Ok_0.len()
                    &&& (#[trigger] teams[i].github_teams->Ok_0@[j]).org@ == p.0
                    &&& teams[i].github_teams->Ok_0@[j].name@ == p.1
                    &&& teams[i].name@ == name
                    &&& forall|k: int, l: int|
                        #![trigger teams[k].github_teams->Ok_0@[l]]
                        i < k < teams.len() && teams[k].github_teams is Ok && 0 <= l
                            < teams[k].github_teams->Ok_0.len() ==> !(
                        teams[k].github_teams->Ok_0@[l].org@ == p.0
                            && teams[k].github_teams->Ok_0@[l].name@ == p.1)
                },
        },
    decreases teams.len(),
{
    if teams.len() > 0 {
        let init = teams.drop_last();
        let last = teams.last();
        let n = teams.len() - 1;
        lemma_latest_team(allowed, init, p);
        assert(teams[n] == last);
        assert(forall|i: int| 0 <= i < n ==> #[trigger] teams[i] == init[i]);
        if last.github_teams is Ok {
            let list = last.github_teams->Ok_0@;
            lemma_latest_of_team(allowed, claims(allowed, init), last, list, p);
            if exists|j: int|
                0 <= j < list.len() && (#[trigger] list[j]).org@ == p.0 && list[j].name@ == p.1 {
                let j = choose|j: int|
                    0 <= j < list.len() && (#[trigger] list[j]).org@ == p.0 && list[j].name@
                        == p.1;
                assert(teams[n].github_teams->Ok_0@[j].org@ == p.0);
            } else {
                assert forall|l: int|
                    #![trigger teams[n].github_teams->Ok_0@[l]]
                    0 <= l < list.len() implies !(teams[n].github_teams->Ok_0@[l].org@ == p.0
                    && teams[n].github_teams->Ok_0@[l].name@ == p.1) by {
                    assert(list[l] == teams[n].github_teams->Ok_0@[l]);
                }
            }
        }
        if latest(claims(allowed, teams), p) is Some && latest(claims(allowed, init), p) is Some
            && !(last.github_teams is Ok && exists|j: int|
            0 <= j < last.github_teams->Ok_0@.len() && (
            #[trigger] last.github_teams->Ok_0@[j]).org@ == p.0
                && last.github_teams->Ok_0@[j].name@ == p.1) {
            let name = latest(claims(allowed, init), p)->0;
            let (i, j) = choose|i: int, j: int|
                {
                    &&& 0 <= i < init.len() && init[i].github_teams is Ok
                    &&& 0 <= j < init[i].github_teams->Ok_0.len()
                    &&& (#[trigger] init[i].github_teams->Ok_0@[j]).org@ == p.0
                    &&& init[i].github_teams->Ok_0@[j].name@ == p.1
                    &&& init[i].name@ == name
                    &&& forall|k: int, l: int|
                        #![trigger init[k].github_teams->Ok_0@[l]]
                        i < k < init.len() && init[k].github_teams is Ok && 0 <= l
                            < init[k].github_teams->Ok_0.len() ==> !(
                        init[k].github_teams->Ok_0@[l].org@ == p.0
                            && init[k].github_teams->Ok_0@[l].name@ == p.1)
                };
            assert(teams[i].github_teams->Ok_0@[j].org@ == p.0);
            assert forall|k: int, l: int|
                #![trigger teams[k].github_teams->Ok_0@[l]]
                i < k < teams.len() && teams[k].github_teams is Ok && 0 <= l
                    < teams[k].github_teams->Ok_0.len() implies !(
            teams[k].github_teams->Ok_0@[l].org@ == p.0 && teams[k].github_teams->Ok_0@[l].name@
                == p.1) by {
                if k < n {
                    assert(init[k].github_teams->Ok_0@[l] == teams[k].github_teams->Ok_0@[l]);
                } else {
                    assert(last.github_teams->Ok_0@[l] == teams[k].github_teams->Ok_0@[l]);
                }
            }
        }
    }
}

proof fn lemma_same_name(
    allowed: Seq<Seq<char>>,
    before: Seq<((Seq<char>, Seq<char>), Seq<char>)>,
    a: Team,
    b: Team,
    list: Seq<GitHubTeam>,
)
    requires
        a.name@ == b.name@,
    ensures
        claims_of_team(allowed, a, list) == claims_of_team(allowed, b, list),
        github_list_findings(allowed, before, a, list) == github_list_findings(
            allowed,
            before,
            b,
            list,
        ),
    decreases list.len(),
{
    if list.len() > 0 {
        lemma_same_name(allowed, before, a, b, list.drop_last());
    }
}

/// Of no teams nothing is found. One more team, with no team on GitHub yet, adds nothing; one
/// of which it is not known which those are adds why.
pub proof fn law_github_one_team_more(data: Data, longer: Data, team: Team)
    requires
        longer.config == data.config,
        longer.teams@ == data.teams@.push(team),
    ensures
        data.teams.len() == 0 ==> github_findings(data).len() == 0,
        team.github_teams matches Ok(list) ==> list.len() == 0 ==> github_findings(longer)
            == github_findings(data),
        team.github_teams matches Err(message) ==> github_findings(longer) == github_findings(
            data,
        ).push(message@),
{
    assert(longer.teams@.drop_last() =~= data.teams@);
    assert(longer.teams@.last() == team);
    if team.github_teams is Ok && team.github_teams->Ok_0.len() == 0 {
        assert(github_findings(longer) =~= github_findings(data));
    }
    if team.github_teams is Err {
        assert(github_findings(longer) =~= github_findings(data).push(
            team.github_teams->Err_0@,
        ));
    }
}

/// One more team on GitHub, behind all others, adds one finding if its organization is not
/// allowed; otherwise one if a team has it already, by the whole of its organization and of
/// its name, and that names the last such team; otherwise none.
pub proof fn law_github_one_more(data: Data, longer: Data, github_team: GitHubTeam)
    requires
        longer.config == data.config,
        data.teams.len() > 0,
        longer.teams@.drop_last() == data.teams@.drop_last(),
        longer.teams.len() == data.teams.len(),
        longer.teams@.last().name@ == data.teams@.last().name@,
        data.teams@.last().github_teams is Ok,
        longer.teams@.last().github_teams is Ok,
        longer.teams@.last().github_teams->Ok_0@
            == data.teams@.last().github_teams->Ok_0@.push(github_team),
    ensures
        !data.config.allowed_github_orgs.deep_view().contains(github_team.org@) ==> github_findings(
            longer,
        ) == github_findings(data).push(
            "GitHub organization `"@ + github_team.org@ + "` isn't allowed (in team `"@
                + data.teams@.last().name@ + "`)"@,
        ),
        data.config.allowed_github_orgs.deep_view().contains(github_team.org@) && (forall|
            i: int,
            j: int,
        |
            #![trigger data.teams@[i].github_teams->Ok_0@[j]]
            0 <= i < data.teams.len() && data.teams@[i].github_teams is Ok && 0 <= j
                < data.teams@[i].github_teams->Ok_0.len() ==> !(
            data.teams@[i].github_teams->Ok_0@[j].org@ == github_team.org@
                && data.teams@[i].github_teams->Ok_0@[j].name@ == github_team.name@))
            ==> github_findings(longer) == github_findings(data),
        forall|i: int, j: int|
            {
                &&& data.config.allowed_github_orgs.deep_view().contains(github_team.org@)
                &&& 0 <= i < data.teams.len() && data.teams@[i].github_teams is Ok
                &&& 0 <= j < data.teams@[i].github_teams->Ok_0.len()
                &&& (#[trigger] data.teams@[i].github_teams->Ok_0@[j]).org@ == github_team.org@
                &&& data.teams@[i].github_teams->Ok_0@[j].name@ == github_team.name@
                &&& forall|k: int, l: int|
                    #![trigger data.teams@[k].github_teams->Ok_0@[l]]
                    i < k < data.teams.len() && data.teams@[k].github_teams is Ok && 0 <= l
                        < data.teams@[k].github_teams->Ok_0.len() ==> !(
                    data.teams@[k].github_teams->Ok_0@[l].org@ == github_team.org@
                        && data.teams@[k].github_teams->Ok_0@[l].name@ == github_team.name@)
            } ==> github_findings(longer) == github_findings(data).push(
                "GitHub team `"@ + github_team.org@ + "/"@ + github_team.name@
                    + "` is defined for both the `"@ + data.teams@.last().name@ + "` and `"@
                    + data.teams@[i].name@ + "` teams"@,
            ),
{
    let allowed = data.config.allowed_github_orgs.deep_view();
    let init = data.teams@.drop_last();
    let before = claims(allowed, init);
    let a = data.teams@.last();
    let b = longer.teams@.last();
    let list = a.github_teams->Ok_0@;
    let more = list.push(github_team);
    let p = place(github_team);
    assert(more.drop_last() =~= list);
    lemma_same_name(allowed, before, a, b, list);
    let held = before + claims_of_team(allowed, a, list);
    assert(held == claims(allowed, data.teams@));
    let added = findings::listed(github_team_fault(allowed, held, b, github_team));
    assert(github_list_findings(allowed, before, b, more) == github_list_findings(
        allowed,
        before,
        a,
        list,
    ) + added);
    assert(github_findings(longer) =~= github_findings(data) + added);
    if allowed.contains(github_team.org@) {
        lemma_latest_team(allowed, data.teams@, p);
        if added.len() == 0 {
            assert(github_findings(longer) =~= github_findings(data));
        } else {
            assert(github_findings(longer) =~= github_findings(data).push(added[0]));
        }
        assert forall|i: int, j: int|
            {
                &&& 0 <= i < data.teams.len() && data.teams@[i].github_teams is Ok
                &&& 0 <= j < data.teams@[i].github_teams->Ok_0.len()
                &&& (#[trigger] data.teams@[i].github_teams->Ok_0@[j]).org@ == github_team.org@
                &&& data.teams@[i].github_teams->Ok_0@[j].name@ == github_team.name@
                &&& forall|k: int, l: int|
                    #![trigger data.teams@[k].github_teams->Ok_0@[l]]
                    i < k < data.teams.len() && data.teams@[k].github_teams is Ok && 0 <= l
                        < data.teams@[k].github_teams->Ok_0.len() ==> !(
                    data.teams@[k].github_teams->Ok_0@[l].org@ == github_team.org@
                        && data.teams@[k].github_teams->Ok_0@[l].name@ == github_team.name@)
            } implies latest(held, p) == Some(data.teams@[i].name@) by {
            let name = latest(held, p)->0;
            let (k, l) = choose|k: int, l: int|
                {
                    &&& 0 <= k < data.teams.len() && data.teams@[k].github_teams is Ok
                    &&& 0 <= l < data.teams@[k].github_teams->Ok_0.len()
                    &&& (#[trigger] data.teams@[k].github_teams->Ok_0@[l]).org@ == p.0
                    &&& data.teams@[k].github_teams->Ok_0@[l].name@ == p.1
                    &&& data.teams@[k].name@ == name
                    &&& forall|m: int, n: int|
                        #![trigger data.teams@[m].github_teams->Ok_0@[n]]
                        k < m < data.teams.len() && data.teams@[m].github_teams is Ok && 0 <= n
                            < data.teams@[m].github_teams->Ok_0.len() ==> !(
                        data.teams@[m].github_teams->Ok_0@[n].org@ == p.0
                            && data.teams@[m].github_teams->Ok_0@[n].name@ == p.1)
                };
            if k < i {
                assert(data.teams@[i].github_teams->Ok_0@[j].org@ == p.0);
            } else if i < k {
                assert(data.teams@[k].github_teams->Ok_0@[l].org@ == p.0);
            }
        }
    } else {
        assert(github_findings(longer) =~= github_findings(data).push(added[0]));
    }
}

} // verus!
