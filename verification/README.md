# hookguard

Consent-gated git hooks, verified with Verus.

A repository may commit hooks: commands in `.githooks.toml`, and scripts under
`.githooks/`. Shims that are installed once per machine call `git-hooks run`, which
runs a hook's commands only with consent to their exact content: by the user's
answer, by a recorded decision, by `GIT_HOOKS_CONSENT` for one call, or by the
signature of a key that is trusted.

- `src/` is the library. It touches no file, process or terminal: a command is a
  function of the exchanges it has had with the outside world so far. Every
  function says in its contract what it returns, and `src/requests.rs` proves that
  no command of a hook is ever asked for without consent. `src/replay.rs` proves
  that a command goes on from where it stopped when its request has been performed,
  and `src/keeping.rs`, and the modules that build on it, what one call of the program
  leaves for the next: that consent covers every file of the hooks, that a decision is
  remembered and holds for that very content, and so on.
- `app/` is the program: it performs the requests, one after another.
- `tests/` runs the library, from end to end in a world that is kept in memory.

The one dependency is `toml`, which reads and prints the configuration and the
policy. What is believed of it, and of the standard library, stands with the items
marked `external_body` and `assume_specification` in `src/document.rs`,
`src/text.rs` and `src/world.rs`.
