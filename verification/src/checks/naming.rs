//! How teams, and what belongs to them, are named.

use vstd::prelude::*;

use crate::findings;
use crate::findings::wrapper;
use crate::schema::{Data, Team, TeamKind};
use crate::text;

verus! {

/// What is wrong with a team's name if the teams of one kind, and only those, have
/// names that start with `prefix`.
pub open spec fn prefix_fault(team: Team, kind: TeamKind, prefix: Seq<char>) -> Option<Seq<char>> {
    if team.kind == kind && !text::is_prefix(prefix, team.name@) {
        Some(
            kind.words() + " `"@ + team.name@ + "`'s name doesn't start with `"@ + prefix + "`"@,
        )
    } else if team.kind != kind && text::is_prefix(prefix, team.name@) {
        Some(
            team.kind.words() + " `"@ + team.name@ + "` seems like a "@ + kind.words()
                + " (since it has the `"@ + prefix + "` prefix)"@,
        )
    } else {
        None
    }
}

/// What is wrong with the prefix of a team's name.
pub open spec fn name_prefix_fault(team: Team) -> Option<Seq<char>> {
    match prefix_fault(team, TeamKind::WorkingGroup, "wg-"@) {
        Some(message) => Some(message),
        None => prefix_fault(team, TeamKind::ProjectGroup, "project-"@),
    }
}

fn ensure_prefix(team: &Team, kind: TeamKind, prefix: &str) -> (verdict: Result<(), String>)
    ensures
        findings::fault(verdict) == prefix_fault(*team, kind, prefix@),
{
    if team.kind == kind && !text::starts_with(team.name.as_str(), prefix) {
        Err(
            kind.label().to_owned().concat(" `").concat(team.name.as_str()).concat(
                "`'s name doesn't start with `",
            ).concat(prefix).concat("`"),
        )
    } else if team.kind != kind && text::starts_with(team.name.as_str(), prefix) {
        Err(
            team.kind.label().to_owned().concat(" `").concat(team.name.as_str()).concat(
                "` seems like a ",
            ).concat(kind.label()).concat(" (since it has the `").concat(prefix).concat(
                "` prefix)",
            ),
        )
    } else {
        Ok(())
    }
}

/// What is found wrong with the prefixes of names.
pub open spec fn name_prefix_findings(data: Data) -> Seq<Seq<char>> {
    findings::each(data.teams@, |team: Team| findings::listed(name_prefix_fault(team)))
}

/// Ensures that the names of working groups, and only those, start with `wg-`, and the
/// names of project groups, and only those, with `project-`.
pub fn validate_name_prefixes(data: &Data, errors: &mut Vec<String>)
    ensures
        final(errors).deep_view() == old(errors).deep_view() + name_prefix_findings(*data),
{
    let rule = |team: &Team, errors: Vec<String>| -> (out: (Vec<String>, Result<(), String>))
        ensures
            findings::outcome(out) == errors.deep_view() + findings::listed(
                name_prefix_fault(*team),
            ),
        {
            let verdict = match ensure_prefix(team, TeamKind::WorkingGroup, "wg-") {
                Err(message) => Err(message),
                Ok(()) => ensure_prefix(team, TeamKind::ProjectGroup, "project-"),
            };
            (errors, verdict)
        };
    assert(findings::adds(rule, |team: Team| findings::listed(name_prefix_fault(team))));
    wrapper(&data.teams, errors, rule);
}

/// Whether a name is made up of letters, numbers and dashes.
pub open spec fn plain_name(name: Seq<char>) -> bool {
    forall|i: int|
        0 <= i < name.len() ==> text::letter_or_number(#[trigger] name[i]) || name[i] == '-'
}

/// What is wrong with the characters of a team's name.
pub open spec fn team_name_fault(team: Team) -> Option<Seq<char>> {
    if plain_name(team.name@) {
        None
    } else {
        Some("team name `"@ + team.name@ + "` can only be alphanumeric with dashes"@)
    }
}

/// Whether a name is made up of letters, numbers and dashes.
pub fn is_plain_name(name: &str) -> (yes: bool)
    ensures
        yes == plain_name(name@),
{
    for c in it: name.chars()
        invariant
            it.seq() == name@,
            forall|i: int|
                0 <= i < it.index() ==> text::letter_or_number(#[trigger] name@[i]) || name@[i]
                    == '-',
    {
        if !(c.is_alphanumeric() || c == '-') {
            assert(name@[it.index()] == c);
            return false;
        }
    }
    true
}

/// What is found wrong with the characters of names.
pub open spec fn team_name_findings(data: Data) -> Seq<Seq<char>> {
    findings::each(data.teams@, |team: Team| findings::listed(team_name_fault(team)))
}

/// Says what is wrong with the characters of a team's name, given whether it is made up
/// of letters, numbers and dashes.
pub fn ensure_plain(name: &str, plain: bool) -> (verdict: Result<(), String>)
    ensures
        findings::fault(verdict) == (if plain {
            None
        } else {
            Some("team name `"@ + name@ + "` can only be alphanumeric with dashes"@)
        }),
{
    if plain {
        Ok(())
    } else {
        Err(
            "team name `".to_owned().concat(name).concat("` can only be alphanumeric with dashes"),
        )
    }
}

/// Ensures that the names of teams are alphanumeric with dashes.
pub fn validate_team_names(data: &Data, errors: &mut Vec<String>)
    ensures
        final(errors).deep_view() == old(errors).deep_view() + team_name_findings(*data),
{
    let rule = |team: &Team, errors: Vec<String>| -> (out: (Vec<String>, Result<(), String>))
        ensures
            findings::outcome(out) == errors.deep_view() + findings::listed(team_name_fault(*team)),
        {
            let plain = is_plain_name(team.name.as_str());
            (errors, ensure_plain(team.name.as_str(), plain))
        };
    assert(findings::adds(rule, |team: Team| findings::listed(team_name_fault(team))));
    wrapper(&data.teams, errors, rule);
}

/// Whether a character can stand first in the scheme of a link: an ASCII letter.
pub open spec fn starts_scheme(c: char) -> bool {
    'a' <= c <= 'z' || 'A' <= c <= 'Z'
}

/// Whether a character can stand in the scheme of a link: an ASCII letter or digit, `+`, `-`
/// or `.`.
pub open spec fn in_scheme(c: char) -> bool {
    text::ascii_alphanumeric(c) || c == '+' || c == '-' || c == '.'
}

/// Whether the first `n` characters of a text can be the scheme of a link.
pub open spec fn scheme_ends(text: Seq<char>, n: int) -> bool {
    &&& 0 < n <= text.len()
    &&& starts_scheme(text[0])
    &&& forall|i: int| 0 <= i < n ==> in_scheme(#[trigger] text[i])
}

/// Whether a text is a link whose scheme has `n` characters: `://` follows on the scheme, and
/// anything on that.
pub open spec fn is_link_after(text: Seq<char>, n: int) -> bool {
    &&& scheme_ends(text, n)
    &&& n + 3 <= text.len()
    &&& text[n] == ':' && text[n + 1] == '/' && text[n + 2] == '/'
}

/// Whether a text is a link, whatever its scheme and in whatever case that is written.
pub open spec fn is_link(text: Seq<char>) -> bool {
    exists|n: int| #[trigger] is_link_after(text, n)
}

/// Whether a text is a link, whatever its scheme and in whatever case that is written.
pub fn is_a_link(text: &str) -> (yes: bool)
    ensures
        yes == is_link(text@),
{
    let mut in_a_scheme: bool = false;
    let mut marks: usize = 0;
    let ghost mut n: int = 0;
    for c in it: text.chars()
        invariant
            it.seq() == text@,
            n >= 0,
            marks <= 2,
            n + marks == it.index(),
            in_a_scheme == (n > 0),
            in_a_scheme ==> scheme_ends(text@, n),
            marks > 0 ==> in_a_scheme && text@[n] == ':',
            marks > 1 ==> text@[n + 1] == '/',
    {
        assert(text@[it.index()] == c);
        let letter = ('a' <= c && c <= 'z') || ('A' <= c && c <= 'Z');
        let other = ('0' <= c && c <= '9') || c == '+' || c == '-' || c == '.';
        if marks == 2 {
            assert(c == '/' ==> is_link_after(text@, n));
            return c == '/';
        } else if marks == 1 {
            if c != '/' {
                return false;
            }
            marks = 2;
        } else if letter || (in_a_scheme && other) {
            in_a_scheme = true;
            proof {
                n = n + 1;
            }
        } else if in_a_scheme && c == ':' {
            marks = 1;
        } else {
            return false;
        }
    }
    false
}

/// What is wrong with the name of a team's Zulip stream.
pub open spec fn zulip_stream_fault(team: Team) -> Option<Seq<char>> {
    match team.website {
        Some(website) => match website.zulip_stream {
            Some(stream) => if is_link(stream@) {
                Some(
                    "the zulip stream name of the team `"@ + team.name@
                        + "` is a link: only the name is required"@,
                )
            } else {
                None
            },
            None => None,
        },
        None => None,
    }
}

fn ensure_stream_name(team: &Team) -> (verdict: Result<(), String>)
    ensures
        findings::fault(verdict) == zulip_stream_fault(*team),
{
    match &team.website {
        Some(website) => match &website.zulip_stream {
            Some(stream) => if is_a_link(stream.as_str()) {
                Err(
                    "the zulip stream name of the team `".to_owned().concat(
                        team.name.as_str(),
                    ).concat("` is a link: only the name is required"),
                )
            } else {
                Ok(())
            },
            None => Ok(()),
        },
        None => Ok(()),
    }
}

/// What is found wrong with the names of Zulip streams.
pub open spec fn zulip_stream_findings(data: Data) -> Seq<Seq<char>> {
    findings::each(data.teams@, |team: Team| findings::listed(zulip_stream_fault(team)))
}

/// Ensures that no link is given as the name of a Zulip stream.
pub fn validate_zulip_stream_name(data: &Data, errors: &mut Vec<String>)
    ensures
        final(errors).deep_view() == old(errors).deep_view() + zulip_stream_findings(*data),
{
    let rule = |team: &Team, errors: Vec<String>| -> (out: (Vec<String>, Result<(), String>))
        ensures
            findings::outcome(out) == errors.deep_view() + findings::listed(
                zulip_stream_fault(*team),
            ),
        { (errors, ensure_stream_name(team)) };
    assert(findings::adds(rule, |team: Team| findings::listed(zulip_stream_fault(team))));
    wrapper(&data.teams, errors, rule);
}

/// Whether the names of working groups, and only those, start with `wg-`, and the names of
/// project groups, and only those, with `project-`.
pub open spec fn names_fit_kinds(data: Data) -> bool {
    forall|i: int|
        0 <= i < data.teams.len() ==> {
            let team = #[trigger] data.teams[i];
            &&& team.kind == TeamKind::WorkingGroup <==> text::is_prefix("wg-"@, team.name@)
            &&& team.kind == TeamKind::ProjectGroup <==> text::is_prefix(
                "project-"@,
                team.name@,
            )
        }
}

/// Nothing is found wrong with the prefixes of names exactly if a team is a working
/// group when its name starts with `wg-` and only then, and a project group when its
/// name starts with `project-` and only then.
pub proof fn law_name_prefixes(data: Data)
    ensures
        name_prefix_findings(data).len() == 0 <==> names_fit_kinds(data),
{
    findings::law_each_empty(
        data.teams@,
        |team: Team| findings::listed(name_prefix_fault(team)),
    );
}

/// Whether the names of teams are made up of letters, numbers and dashes.
pub open spec fn names_are_plain(data: Data) -> bool {
    forall|i: int|
        0 <= i < data.teams.len() ==> plain_name((#[trigger] data.teams[i]).name@)
}

/// Nothing is found wrong with the characters of names exactly if every team's name is
/// made up of letters, numbers and dashes.
pub proof fn law_team_names(data: Data)
    ensures
        team_name_findings(data).len() == 0 <==> names_are_plain(data),
{
    findings::law_each_empty(data.teams@, |team: Team| findings::listed(team_name_fault(team)));
}

/// Whether no link is given as the name of a Zulip stream.
pub open spec fn streams_are_named(data: Data) -> bool {
    forall|i: int|
        0 <= i < data.teams.len() ==> ((#[trigger] data.teams[i]).website matches Some(website)
            ==> website.zulip_stream matches Some(stream) ==> !is_link(stream@))
}

/// Whatever starts with `https://` or `http://` is a link.
pub proof fn law_links_to_pages(text: Seq<char>)
    requires
        text::is_prefix("https://"@, text) || text::is_prefix("http://"@, text),
    ensures
        is_link(text),
{
    reveal_strlit("https://");
    reveal_strlit("http://");
    if text::is_prefix("https://"@, text) {
        assert(forall|i: int| 0 <= i < 8 ==> #[trigger] text[i] == text.take(8)[i]);
        assert(is_link_after(text, 5));
    } else {
        assert(forall|i: int| 0 <= i < 7 ==> #[trigger] text[i] == text.take(7)[i]);
        assert(is_link_after(text, 4));
    }
}

/// Nothing is found wrong with the names of Zulip streams exactly if none of them is a
/// link.
pub proof fn law_zulip_stream_names(data: Data)
    ensures
        zulip_stream_findings(data).len() == 0 <==> streams_are_named(data),
{
    findings::law_each_empty(
        data.teams@,
        |team: Team| findings::listed(zulip_stream_fault(team)),
    );
}

/// There is a finding on the prefix of a name for each team whose name starts with `wg-`
/// though it is no working group, or with `project-` though it is no project group, or does
/// not though it is; what is said first is what there is to say of `wg-`.
pub proof fn law_name_prefix_findings(data: Data)
    ensures
        name_prefix_findings(data) == data.teams@.filter(
            |team: Team|
                (team.kind == TeamKind::WorkingGroup) != text::is_prefix("wg-"@, team.name@) || (
                team.kind == TeamKind::ProjectGroup) != text::is_prefix("project-"@, team.name@),
        ).map_values(
            |team: Team|
                {
                    if team.kind == TeamKind::WorkingGroup && !text::is_prefix(
                        "wg-"@,
                        team.name@,
                    ) {
                        "working group"@ + " `"@ + team.name@ + "`'s name doesn't start with `"@
                            + "wg-"@ + "`"@
                    } else if team.kind != TeamKind::WorkingGroup && text::is_prefix(
                        "wg-"@,
                        team.name@,
                    ) {
                        team.kind.words() + " `"@ + team.name@ + "` seems like a "@
                            + "working group"@ + " (since it has the `"@ + "wg-"@ + "` prefix)"@
                    } else if team.kind == TeamKind::ProjectGroup {
                        "project group"@ + " `"@ + team.name@ + "`'s name doesn't start with `"@
                            + "project-"@ + "`"@
                    } else {
                        team.kind.words() + " `"@ + team.name@ + "` seems like a "@
                            + "project group"@ + " (since it has the `"@ + "project-"@
                            + "` prefix)"@
                    }
                },
        ),
{
    let wrong = |team: Team|
        (team.kind == TeamKind::WorkingGroup) != text::is_prefix("wg-"@, team.name@) || (team.kind
            == TeamKind::ProjectGroup) != text::is_prefix("project-"@, team.name@);
    let words = |team: Team|
        {
            if team.kind == TeamKind::WorkingGroup && !text::is_prefix("wg-"@, team.name@) {
                "working group"@ + " `"@ + team.name@ + "`'s name doesn't start with `"@ + "wg-"@
                    + "`"@
            } else if team.kind != TeamKind::WorkingGroup && text::is_prefix("wg-"@, team.name@) {
                team.kind.words() + " `"@ + team.name@ + "` seems like a "@ + "working group"@
                    + " (since it has the `"@ + "wg-"@ + "` prefix)"@
            } else if team.kind == TeamKind::ProjectGroup {
                "project group"@ + " `"@ + team.name@ + "`'s name doesn't start with `"@
                    + "project-"@ + "`"@
            } else {
                team.kind.words() + " `"@ + team.name@ + "` seems like a "@ + "project group"@
                    + " (since it has the `"@ + "project-"@ + "` prefix)"@
            }
        };
    findings::law_each_of_the_wrong(
        data.teams@,
        |team: Team| findings::listed(name_prefix_fault(team)),
        wrong,
        words,
    );
}

/// There is a finding on the characters of a name for each team in whose name, anywhere,
/// there is a character that is neither a letter, a number nor a dash.
pub proof fn law_team_name_findings(data: Data)
    ensures
        team_name_findings(data) == data.teams@.filter(
            |team: Team|
                exists|k: int|
                    0 <= k < team.name@.len() && !text::letter_or_number(#[trigger] team.name@[k])
                        && team.name@[k] != '-',
        ).map_values(
            |team: Team|
                "team name `"@ + team.name@ + "` can only be alphanumeric with dashes"@,
        ),
{
    let wrong = |team: Team|
        exists|k: int|
            0 <= k < team.name@.len() && !text::letter_or_number(#[trigger] team.name@[k])
                && team.name@[k] != '-';
    let words = |team: Team|
        "team name `"@ + team.name@ + "` can only be alphanumeric with dashes"@;
    findings::law_each_of_the_wrong(
        data.teams@,
        |team: Team| findings::listed(team_name_fault(team)),
        wrong,
        words,
    );
}

/// A name is plain exactly if each of its characters is a dash, an ASCII letter or digit, or
/// a character beyond ASCII of which `char::is_alphanumeric` says that it is one.
pub proof fn law_plain_name(name: Seq<char>)
    ensures
        plain_name(name) <==> forall|k: int|
            #![trigger name[k]]
            0 <= k < name.len() ==> name[k] == '-' || if name[k] <= '\x7f' {
                'a' <= name[k] <= 'z' || 'A' <= name[k] <= 'Z' || '0' <= name[k] <= '9'
            } else {
                text::alphanumeric(name[k])
            },
{
}

/// Any one character of any team's name that is not a letter, a number or a dash is enough
/// for a finding on that team.
pub proof fn law_every_character_counts(data: Data, i: int, k: int)
    requires
        0 <= i < data.teams.len(),
        0 <= k < data.teams@[i].name@.len(),
        ({
            let c = data.teams@[i].name@[k];
            c != '-' && if c <= '\x7f' {
                !('a' <= c <= 'z' || 'A' <= c <= 'Z' || '0' <= c <= '9')
            } else {
                !text::alphanumeric(c)
            }
        }),
    ensures
        team_name_findings(data).contains(
            "team name `"@ + data.teams@[i].name@ + "` can only be alphanumeric with dashes"@,
        ),
{
    let team = data.teams@[i];
    text::law_letter_or_number(team.name@[k]);
    let rule = |team: Team| findings::listed(team_name_fault(team));
    let message = "team name `"@ + team.name@ + "` can only be alphanumeric with dashes"@;
    findings::law_each_contains(data.teams@, rule, message);
    assert(rule(team)[0] == message);
    assert(rule(data.teams@[i]).contains(message));
}

/// If all characters of a team's name are letters, numbers and dashes, there is no finding on
/// a team of that name.
pub proof fn law_plain_names_pass(data: Data, i: int)
    requires
        0 <= i < data.teams.len(),
        forall|k: int|
            #![trigger data.teams@[i].name@[k]]
            0 <= k < data.teams@[i].name@.len() ==> ({
                let c = data.teams@[i].name@[k];
                c == '-' || if c <= '\x7f' {
                    'a' <= c <= 'z' || 'A' <= c <= 'Z' || '0' <= c <= '9'
                } else {
                    text::alphanumeric(c)
                }
            }),
    ensures
        !team_name_findings(data).contains(
            "team name `"@ + data.teams@[i].name@ + "` can only be alphanumeric with dashes"@,
        ),
{
    let name = data.teams@[i].name@;
    let rule = |team: Team| findings::listed(team_name_fault(team));
    let message = "team name `"@ + name + "` can only be alphanumeric with dashes"@;
    findings::law_each_contains(data.teams@, rule, message);
    assert forall|k: int| 0 <= k < name.len() implies text::letter_or_number(#[trigger] name[k])
        || name[k] == '-' by {
        text::law_letter_or_number(data.teams@[i].name@[k]);
    }
    assert forall|j: int| 0 <= j < data.teams.len() implies !rule(
        #[trigger] data.teams@[j],
    ).contains(message) by {
        let other = data.teams@[j].name@;
        if rule(data.teams@[j]).contains(message) {
            let n = "team name `"@.len() as int;
            assert(message.len() == n + other.len() + (message.len() - n - name.len()));
            assert(message.skip(n).take(name.len() as int) =~= name);
            assert(message.skip(n).take(other.len() as int) =~= other);
        }
    }
}

/// A text is a link exactly if it is a scheme, `://` and a rest, where a scheme is made up of
/// ASCII letters, digits, `+`, `-` and `.`, with a letter first.
pub proof fn law_link(text: Seq<char>)
    ensures
        is_link(text) <==> exists|scheme: Seq<char>, rest: Seq<char>|
            {
                &&& text == #[trigger] (scheme + "://"@ + rest)
                &&& scheme.len() > 0
                &&& 'a' <= scheme[0] <= 'z' || 'A' <= scheme[0] <= 'Z'
                &&& forall|i: int|
                    #![trigger scheme[i]]
                    0 <= i < scheme.len() ==> 'a' <= scheme[i] <= 'z' || 'A' <= scheme[i] <= 'Z'
                        || '0' <= scheme[i] <= '9' || scheme[i] == '+' || scheme[i] == '-'
                        || scheme[i] == '.'
            },
{
    reveal_strlit("://");
    if is_link(text) {
        let n = choose|n: int| #[trigger] is_link_after(text, n);
        let scheme = text.take(n);
        let rest = text.skip(n + 3);
        assert(text =~= scheme + "://"@ + rest);
        assert(forall|i: int| 0 <= i < n ==> #[trigger] scheme[i] == text[i]);
    }
    if exists|scheme: Seq<char>, rest: Seq<char>|
        {
            &&& text == #[trigger] (scheme + "://"@ + rest)
            &&& scheme.len() > 0
            &&& 'a' <= scheme[0] <= 'z' || 'A' <= scheme[0] <= 'Z'
            &&& forall|i: int|
                #![trigger scheme[i]]
                0 <= i < scheme.len() ==> 'a' <= scheme[i] <= 'z' || 'A' <= scheme[i] <= 'Z' || '0'
                    <= scheme[i] <= '9' || scheme[i] == '+' || scheme[i] == '-' || scheme[i] == '.'
        } {
        let (scheme, rest) = choose|scheme: Seq<char>, rest: Seq<char>|
            {
                &&& text == #[trigger] (scheme + "://"@ + rest)
                &&& scheme.len() > 0
                &&& 'a' <= scheme[0] <= 'z' || 'A' <= scheme[0] <= 'Z'
                &&& forall|i: int|
                    #![trigger scheme[i]]
                    0 <= i < scheme.len() ==> 'a' <= scheme[i] <= 'z' || 'A' <= scheme[i] <= 'Z'
                        || '0' <= scheme[i] <= '9' || scheme[i] == '+' || scheme[i] == '-'
                        || scheme[i] == '.'
            };
        assert(forall|i: int| 0 <= i < scheme.len() ==> #[trigger] text[i] == scheme[i]);
        assert(is_link_after(text, scheme.len() as int));
    }
}

/// There is a finding on a stream for each team whose website names one that is a link.
pub proof fn law_zulip_stream_findings(data: Data)
    ensures
        zulip_stream_findings(data) == data.teams@.filter(
            |team: Team|
                team.website is Some && team.website->0.zulip_stream is Some && is_link(
                    team.website->0.zulip_stream->0@,
                ),
        ).map_values(
            |team: Team|
                "the zulip stream name of the team `"@ + team.name@
                    + "` is a link: only the name is required"@,
        ),
{
    let wrong = |team: Team|
        team.website is Some && team.website->0.zulip_stream is Some && is_link(
            team.website->0.zulip_stream->0@,
        );
    let words = |team: Team|
        "the zulip stream name of the team `"@ + team.name@
            + "` is a link: only the name is required"@;
    findings::law_each_of_the_wrong(
        data.teams@,
        |team: Team| findings::listed(zulip_stream_fault(team)),
        wrong,
        words,
    );
}

} // verus!
