# git_ai

Logic of git-ai, verified with Verus.

- `src/authorship`: line ranges, the authorship log of a commit, and how the log of a commit that
  resolves conflicts is merged out of shifted, source and resolution attestations.
- `src/metrics`: the operations on the metrics database, as a machine that asks for statements and
  is handed the answers. `tables.rs` says what the statements do to the tables; `db_laws.rs` what
  the operations come to, and `failure_laws.rs` what they come to when requests fail.
- `src/daemon`: which rewritten commits are reported as metrics, and how their events are built.
- `src/commands`: syncing with the background service before a command runs.
- `src/text.rs`, `src/text_map.rs`, `src/error.rs`: what the others share.

`app` holds what performs the questions of the library: the SQLite connection, the repository, the
background service, and the threads. `tests` runs the library, the database operations against
SQLite in memory.
