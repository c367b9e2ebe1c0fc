# team_validate

Validation of the records that a team repository keeps: people, teams, mailing
lists, permissions, and the teams and accounts on GitHub that belong to them.

- `src/schema.rs`: the records.
- `src/checks/`: the checks. Each states exactly which findings it adds to a list,
  and a law beside it says what holds of the records when it adds none.
- `src/findings.rs`: lists of findings, and the ordered report on them.
- `src/validate.rs`: which checks are run, what is asked of GitHub, what is warned
  of, and what comes of it all.
- `src/text.rs`: texts.
- `app/`: asks GitHub, and logs the warnings and the outcome.

Two things are taken on trust, each where it is called: what `regex` finds with the
one pattern for list addresses (`src/checks/lists.rs`), and what
`char::is_alphanumeric` says of a character (`src/text.rs`).
