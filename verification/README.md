# cargo-aged

A Cargo subcommand that moves dependencies only to releases that have aged past a threshold, and
a check for CI that a lock file holds no release that is too fresh.

    cargo aged --min-age 14             # one pass
    cargo aged --min-age 14 --dry-run   # say what a pass would do
    cargo aged --min-age 14 --iterate   # passes until one moves nothing, ten at most
    cargo aged --min-age 14 --check     # exit 1 if a lock entry is too fresh

Without `--min-age`, the age is the `[registry] min-publish-age` of the nearest
`.cargo/config.toml`, for example `"14 days"` or `"2 weeks"`. There is no default.

## Layout

- `src/` is the library, verified with Verus. It holds the rules of a run, from the minimum age to
  the exit code, and touches neither files nor the network.
  - `rows` states what holds of rows of any kind.
  - `text`, `time` and `document` hold what the rest is built on: characters and numbers, points in
    time, TOML trees.
  - `age` and `config` find the minimum age.
  - `manifest` and `lockfile` read what a project depends on and holds.
  - `versions` tells which published versions are stable, newest first.
  - `status` and `check` say how dependencies stand, `pass` plans and follows their updates, and
    `run` is the course of a whole run, up to its exit code. `report` writes the lines that all of them print.
- `app/` is the command: arguments, files, HTTP, and `cargo update`.
- `tests/` runs the library on concrete values.

What the library takes on trust is a handful of calls into `toml`, `chrono`, `reqwest` and the
standard library. Each is marked `external_body` or `assume_specification`, and its doc comment
says what is assumed.
