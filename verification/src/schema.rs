//! The records that the checks read: people, teams and the settings of the repository
//! that they are kept in.
//!
//! What a team's record says of itself only in part (who its members are once included
//! teams are counted in, which mailing lists and GitHub teams it has) stands here as it
//! was worked out when the records were loaded, or as the message of why it could not be.

use vstd::prelude::*;

use crate::text;

verus! {

/// What a team is.
#[derive(Clone, Copy, Debug, PartialEq, Eq, Structural)]
pub enum TeamKind {
    Team,
    WorkingGroup,
    ProjectGroup,
}

impl TeamKind {
    /// The words for the kind.
    pub open spec fn words(self) -> Seq<char> {
        match self {
            TeamKind::Team => "team"@,
            TeamKind::WorkingGroup => "working group"@,
            TeamKind::ProjectGroup => "project group"@,
        }
    }

    /// The words for the kind, as messages use them.
    pub fn label(self) -> (label: &'static str)
        ensures
            label@ == self.words(),
    {
        match self {
            TeamKind::Team => "team",
            TeamKind::WorkingGroup => "working group",
            TeamKind::ProjectGroup => "project group",
        }
    }
}

/// The email address of a person: none was given, the person wants none to be used, or
/// the address.
#[derive(Debug)]
pub enum Email {
    Missing,
    Disabled,
    Present(String),
}

/// What is wrong with a set of permissions, worded around the name of its holder.
#[derive(Debug)]
pub struct PermissionsFault {
    /// What is said before the holder is named.
    pub before: String,
    /// What is said after the holder is named.
    pub after: String,
}

/// The permissions of a person or of a team.
#[derive(Debug)]
pub struct Permissions {
    /// The permissions that are given by name.
    pub direct: Vec<String>,
    /// The permissions that come along with others that are given.
    pub implied: Vec<String>,
    /// What is wrong with the permissions taken together, if anything is.
    pub fault: Option<PermissionsFault>,
}

impl Permissions {
    /// Whether the permission is given by name.
    pub open spec fn gives(self, permission: Seq<char>) -> bool {
        self.direct.deep_view().contains(permission)
    }

    /// Whether the permission is held, by name or along with another.
    pub open spec fn holds(self, permission: Seq<char>) -> bool {
        self.gives(permission) || self.implied.deep_view().contains(permission)
    }

    /// Whether any permission is held.
    pub open spec fn holds_any(self) -> bool {
        exists|permission: Seq<char>| #[trigger] self.holds(permission)
    }

    /// What is wrong with the permissions of `what`, if anything is.
    pub open spec fn fault_of(self, what: Seq<char>) -> Option<Seq<char>> {
        match self.fault {
            Some(fault) => Some(fault.before@ + what + fault.after@),
            None => None,
        }
    }

    /// Whether the permission is given by name.
    pub fn has_directly(&self, permission: &str) -> (yes: bool)
        ensures
            yes == self.gives(permission@),
    {
        text::contains_text(&self.direct, permission)
    }

    /// Whether the permission is held, by name or along with another.
    pub fn has(&self, permission: &str) -> (yes: bool)
        ensures
            yes == self.holds(permission@),
    {
        self.has_directly(permission) || text::contains_text(&self.implied, permission)
    }

    /// Whether any permission is held.
    pub fn has_any(&self) -> (yes: bool)
        ensures
            yes == self.holds_any(),
    {
        let yes = self.direct.len() > 0 || self.implied.len() > 0;
        proof {
            if self.direct.len() > 0 {
                assert(self.direct.deep_view().contains(self.direct.deep_view()[0]));
                assert(self.holds(self.direct.deep_view()[0]));
            }
            if self.implied.len() > 0 {
                assert(self.implied.deep_view().contains(self.implied.deep_view()[0]));
                assert(self.holds(self.implied.deep_view()[0]));
            }
        }
        yes
    }

    /// Says what is wrong with the permissions of `what`, if anything is.
    pub fn validate(&self, what: &str) -> (verdict: Result<(), String>)
        ensures
            verdict is Ok <==> self.fault_of(what@) is None,
            verdict matches Err(message) ==> self.fault_of(what@) == Some(message@),
    {
        match &self.fault {
            Some(fault) => Err(fault.before.clone().concat(what).concat(fault.after.as_str())),
            None => Ok(()),
        }
    }
}

/// A person.
#[derive(Debug)]
pub struct Person {
    /// The name of the person's GitHub account, by which the records know the person.
    pub github: String,
    /// The number of the person's GitHub account.
    pub github_id: u64,
    /// The number of the person's Discord account.
    pub discord_id: Option<u64>,
    pub email: Email,
    pub permissions: Permissions,
}

/// A mailing list as a team's record gives it.
#[derive(Debug)]
pub struct List {
    pub address: String,
    /// People on the list besides the members of the team.
    pub extra_people: Vec<String>,
    /// Teams whose members are on the list besides those of the team.
    pub extra_teams: Vec<String>,
}

/// How rfcbot treats a team.
#[derive(Debug)]
pub struct Rfcbot {
    pub label: String,
    pub exclude_members: Vec<String>,
}

/// What the website says of a team.
#[derive(Debug)]
pub struct Website {
    pub zulip_stream: Option<String>,
}

/// A team on GitHub.
#[derive(Debug)]
pub struct GitHubTeam {
    pub org: String,
    pub name: String,
}

/// A team.
#[derive(Debug)]
pub struct Team {
    pub name: String,
    pub kind: TeamKind,
    /// The name of the team that this one is part of.
    pub subteam_of: Option<String>,
    pub leads: Vec<String>,
    /// Everyone in the team, each of them once.
    pub members: Result<Vec<String>, String>,
    /// Those who have left the team.
    pub alumni: Vec<String>,
    pub permissions: Permissions,
    pub rfcbot: Option<Rfcbot>,
    pub website: Option<Website>,
    /// The mailing lists as the record gives them.
    pub raw_lists: Vec<List>,
    /// The addresses of the mailing lists that the team has.
    pub lists: Result<Vec<String>, String>,
    /// The teams on GitHub that stand for this one.
    pub github_teams: Result<Vec<GitHubTeam>, String>,
}

impl Team {
    /// Whether nobody is listed twice among the members, which are a set. Whoever loads the
    /// records has to see to it: no check does.
    pub open spec fn lists_once(self) -> bool {
        self.members matches Ok(members) ==> members.deep_view().no_duplicates()
    }
}

/// The settings of the repository.
#[derive(Debug)]
pub struct Config {
    /// The domains that mailing lists may be on.
    pub allowed_mailing_lists_domains: Vec<String>,
    /// The GitHub organizations that teams may be in.
    pub allowed_github_orgs: Vec<String>,
    /// Every permission there is.
    pub available_permissions: Vec<String>,
    /// The permissions that are made use of on Discord.
    pub discord_permissions: Vec<String>,
}

/// All records.
#[derive(Debug)]
pub struct Data {
    pub config: Config,
    pub people: Vec<Person>,
    pub teams: Vec<Team>,
}

/// The first of `people` that goes by `name`.
pub open spec fn first_person(people: Seq<Person>, name: Seq<char>) -> Option<Person>
    decreases people.len(),
{
    if people.len() == 0 {
        None
    } else if people.first().github@ == name {
        Some(people.first())
    } else {
        first_person(people.drop_first(), name)
    }
}

/// The first of `teams` that goes by `name`.
pub open spec fn first_team(teams: Seq<Team>, name: Seq<char>) -> Option<Team>
    decreases teams.len(),
{
    if teams.len() == 0 {
        None
    } else if teams.first().name@ == name {
        Some(teams.first())
    } else {
        first_team(teams.drop_first(), name)
    }
}

/// Whether no two of the teams go by one name. Whoever loads the records has to see to it: no
/// check does.
pub open spec fn named_once(teams: Seq<Team>) -> bool {
    forall|i: int, j: int|
        0 <= i < j < teams.len() ==> (#[trigger] teams[i]).name@ != (#[trigger] teams[j]).name@
}

impl Data {
    /// The record of the person who goes by `name`.
    pub open spec fn person_named(self, name: Seq<char>) -> Option<Person> {
        first_person(self.people@, name)
    }

    /// The record of the team that goes by `name`.
    pub open spec fn team_named(self, name: Seq<char>) -> Option<Team> {
        first_team(self.teams@, name)
    }

    /// The record of the person who goes by `name`.
    pub fn person(&self, name: &str) -> (person: Option<&Person>)
        ensures
            match person {
                Some(person) => self.person_named(name@) == Some(*person),
                None => self.person_named(name@) is None,
            },
    {
        let mut i: usize = 0;
        assert(self.people@.skip(0) =~= self.people@);
        while i < self.people.len()
            invariant
                i <= self.people.len(),
                self.person_named(name@) == first_person(self.people@.skip(i as int), name@),
            decreases self.people.len() - i,
        {
            if text::same_text(self.people[i].github.as_str(), name) {
                return Some(&self.people[i]);
            }
            assert(self.people@.skip(i as int).drop_first() =~= self.people@.skip(i + 1));
            i += 1;
        }
        None
    }

    /// The record of the team that goes by `name`.
    pub fn team(&self, name: &str) -> (team: Option<&Team>)
        ensures
            match team {
                Some(team) => self.team_named(name@) == Some(*team),
                None => self.team_named(name@) is None,
            },
    {
        let mut i: usize = 0;
        assert(self.teams@.skip(0) =~= self.teams@);
        while i < self.teams.len()
            invariant
                i <= self.teams.len(),
                self.team_named(name@) == first_team(self.teams@.skip(i as int), name@),
            decreases self.teams.len() - i,
        {
            if text::same_text(self.teams[i].name.as_str(), name) {
                return Some(&self.teams[i]);
            }
            assert(self.teams@.skip(i as int).drop_first() =~= self.teams@.skip(i + 1));
            i += 1;
        }
        None
    }
}

/// A name leads to a record of a person exactly if someone goes by it, and then to the
/// record of one who does.
pub proof fn law_person_lookup(people: Seq<Person>, name: Seq<char>)
    ensures
        first_person(people, name) is Some <==> exists|i: int|
            0 <= i < people.len() && (#[trigger] people[i]).github@ == name,
        first_person(people, name) matches Some(person) ==> person.github@ == name
            && people.contains(person),
    decreases people.len(),
{
    if people.len() > 0 {
        let rest = people.drop_first();
        law_person_lookup(rest, name);
        if people[0].github@ != name {
            assert forall|i: int|
                0 <= i < people.len() && (#[trigger] people[i]).github@ == name implies exists|j: int|
                0 <= j < rest.len() && (#[trigger] rest[j]).github@ == name by {
                assert(rest[i - 1] == people[i]);
            }
            if first_person(rest, name) is Some {
                let j = choose|j: int|
                    0 <= j < rest.len() && rest[j] == first_person(rest, name)->0;
                assert(people[j + 1] == rest[j]);
            }
        } else {
            assert(people[0] == people.first());
        }
    }
}

/// A name leads to a record of a team exactly if some team goes by it, and then to the
/// record of one that does.
pub proof fn law_team_lookup(teams: Seq<Team>, name: Seq<char>)
    ensures
        first_team(teams, name) is Some <==> exists|i: int|
            0 <= i < teams.len() && (#[trigger] teams[i]).name@ == name,
        first_team(teams, name) matches Some(team) ==> team.name@ == name && teams.contains(team),
    decreases teams.len(),
{
    if teams.len() > 0 {
        let rest = teams.drop_first();
        law_team_lookup(rest, name);
        if teams[0].name@ != name {
            assert forall|i: int|
                0 <= i < teams.len() && (#[trigger] teams[i]).name@ == name implies exists|j: int|
                0 <= j < rest.len() && (#[trigger] rest[j]).name@ == name by {
                assert(rest[i - 1] == teams[i]);
            }
            if first_team(rest, name) is Some {
                let j = choose|j: int| 0 <= j < rest.len() && rest[j] == first_team(rest, name)->0;
                assert(teams[j + 1] == rest[j]);
            }
        } else {
            assert(teams[0] == teams.first());
        }
    }
}

/// What the kinds of teams are called.
pub proof fn law_kinds_in_words()
    ensures
        TeamKind::Team.words() == "team"@,
        TeamKind::WorkingGroup.words() == "working group"@,
        TeamKind::ProjectGroup.words() == "project group"@,
{
}

/// A permission is given if it is one of those given by name, and held if it is one of those
/// or comes along with them; one is held as soon as there is any of either.
pub proof fn law_permissions_held(permissions: Permissions, permission: Seq<char>)
    ensures
        permissions.gives(permission) <==> exists|i: int|
            0 <= i < permissions.direct.len() && (#[trigger] permissions.direct@[i])@ == permission,
        permissions.holds(permission) <==> (exists|i: int|
            0 <= i < permissions.direct.len() && (#[trigger] permissions.direct@[i])@
                == permission) || (exists|i: int|
            0 <= i < permissions.implied.len() && (#[trigger] permissions.implied@[i])@
                == permission),
        permissions.holds_any() <==> permissions.direct.len() > 0 || permissions.implied.len() > 0,
{
    let direct = permissions.direct.deep_view();
    let implied = permissions.implied.deep_view();
    assert(forall|i: int|
        0 <= i < direct.len() ==> #[trigger] direct[i] == permissions.direct@[i]@);
    assert(forall|i: int|
        0 <= i < direct.len() ==> direct[i] == (#[trigger] permissions.direct@[i])@);
    assert(forall|i: int|
        0 <= i < implied.len() ==> #[trigger] implied[i] == permissions.implied@[i]@);
    assert(forall|i: int|
        0 <= i < implied.len() ==> implied[i] == (#[trigger] permissions.implied@[i])@);
    if direct.len() > 0 {
        assert(direct.contains(direct[0]) && permissions.holds(direct[0]));
    }
    if implied.len() > 0 {
        assert(implied.contains(implied[0]) && permissions.holds(implied[0]));
    }
}

/// What is wrong with permissions, if anything is, is said with the holder's name between
/// what comes before and after it.
pub proof fn law_permissions_fault(permissions: Permissions, what: Seq<char>)
    ensures
        permissions.fault is None ==> permissions.fault_of(what) is None,
        permissions.fault matches Some(fault) ==> permissions.fault_of(what) == Some(
            fault.before@ + what + fault.after@,
        ),
{
}

/// The record that a name leads to is the first of those of people who go by it.
pub proof fn law_first_person(data: Data, name: Seq<char>)
    ensures
        match data.person_named(name) {
            Some(person) => exists|i: int|
                {
                    &&& 0 <= i < data.people.len()
                    &&& #[trigger] data.people@[i] == person
                    &&& person.github@ == name
                    &&& forall|j: int| 0 <= j < i ==> (#[trigger] data.people@[j]).github@ != name
                },
            None => forall|j: int|
                0 <= j < data.people.len() ==> (#[trigger] data.people@[j]).github@ != name,
        },
{
    lemma_first_person(data.people@, name);
}

proof fn lemma_first_person(people: Seq<Person>, name: Seq<char>)
    ensures
        match first_person(people, name) {
            Some(person) => exists|i: int|
                {
                    &&& 0 <= i < people.len()
                    &&& #[trigger] people[i] == person
                    &&& person.github@ == name
                    &&& forall|j: int| 0 <= j < i ==> (#[trigger] people[j]).github@ != name
                },
            None => forall|j: int| 0 <= j < people.len() ==> (#[trigger] people[j]).github@ != name,
        },
    decreases people.len(),
{
    if people.len() > 0 {
        let rest = people.drop_first();
        lemma_first_person(rest, name);
        assert(forall|j: int| 0 < j < people.len() ==> #[trigger] people[j] == rest[j - 1]);
        if people[0].github@ == name {
            assert(people[0] == people.first());
        } else if first_person(rest, name) is Some {
            let person = first_person(rest, name)->0;
            let i = choose|i: int|
                {
                    &&& 0 <= i < rest.len()
                    &&& #[trigger] rest[i] == person
                    &&& person.github@ == name
                    &&& forall|j: int| 0 <= j < i ==> (#[trigger] rest[j]).github@ != name
                };
            assert(people[i + 1] == person);
        }
    }
}

/// The record that a name leads to is the first of those of teams that go by it.
pub proof fn law_first_team(data: Data, name: Seq<char>)
    ensures
        match data.team_named(name) {
            Some(team) => exists|i: int|
                {
                    &&& 0 <= i < data.teams.len()
                    &&& #[trigger] data.teams@[i] == team
                    &&& team.name@ == name
                    &&& forall|j: int| 0 <= j < i ==> (#[trigger] data.teams@[j]).name@ != name
                },
            None => forall|j: int|
                0 <= j < data.teams.len() ==> (#[trigger] data.teams@[j]).name@ != name,
        },
{
    lemma_first_team(data.teams@, name);
}

proof fn lemma_first_team(teams: Seq<Team>, name: Seq<char>)
    ensures
        match first_team(teams, name) {
            Some(team) => exists|i: int|
                {
                    &&& 0 <= i < teams.len()
                    &&& #[trigger] teams[i] == team
                    &&& team.name@ == name
                    &&& forall|j: int| 0 <= j < i ==> (#[trigger] teams[j]).name@ != name
                },
            None => forall|j: int| 0 <= j < teams.len() ==> (#[trigger] teams[j]).name@ != name,
        },
    decreases teams.len(),
{
    if teams.len() > 0 {
        let rest = teams.drop_first();
        lemma_first_team(rest, name);
        assert(forall|j: int| 0 < j < teams.len() ==> #[trigger] teams[j] == rest[j - 1]);
        if teams[0].name@ == name {
            assert(teams[0] == teams.first());
        } else if first_team(rest, name) is Some {
            let team = first_team(rest, name)->0;
            let i = choose|i: int|
                {
                    &&& 0 <= i < rest.len()
                    &&& #[trigger] rest[i] == team
                    &&& team.name@ == name
                    &&& forall|j: int| 0 <= j < i ==> (#[trigger] rest[j]).name@ != name
                };
            assert(teams[i + 1] == team);
        }
    }
}

} // verus!
