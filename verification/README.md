# add-jira-tag

A `prepare-commit-msg` hook that puts the JIRA key of a feature branch
(`fb-{KEY}` or `fb-{KEY}-{suffix}`) in front of the commit title, as
`[KEY] title`. Special commits (`fixup!`, `squash!`, `amend!`, `Merge `) and
titles that already carry a bracketed key are left alone; an old-format tag,
a key alone on the last line of the message, is moved into the title.

Layout:

- `src/text.rs`: the character model of text (whitespace, `trim`, `lines`,
  joining) and the verified routines that compute it.
- `src/pattern.rs`: the grammar of keys and branch names, and the calls into
  the `regex` crate that recognise them.
- `src/hook.rs`: the hook's decisions, each with a contract over the model.
- `src/laws.rs`: properties proved for every message and branch, among them
  that a second run of the hook changes nothing (outside one stated case).
- `app/main.rs`: reads the branch (environment or `git`) and the message
  file, prints the status line and writes the result back.
