# seasalt

Fish-style inline autosuggestion and per-directory history for bash and zsh,
kept in a SQLite store. The library under `src/` is written in Verus: its
functions carry `requires`/`ensures` contracts that Verus proves; the command
`app/` parses arguments, finds and protects the database file, reads the
environment and prints.

## Layout

- `src/text.rs` — characters and texts: whitespace, trimming, joining,
  directory normalization.
- `src/paths.rs` — the shell word splitter, the arguments of a command that
  name existing files, and the check that recorded files still exist.
- `src/db.rs` — the schema and its migrations, recording, exit codes,
  trimming, deletion, and the prefix queries behind suggestions (with the
  GLOB/LIKE escaping of the typed line).
- `src/suggest.rs` — the scoped search: current directory, parents nearest
  first, then everything; exact case before case-insensitive; stale
  candidates skipped; a time budget that never turns into an error.
- `src/search.rs`, `src/report.rs` — listing entries and printing them one
  per line (`--tsv`: six tab-separated columns).
- `src/commands.rs` — the decisions of the front end: which commands are
  recorded, the history limit, the search scope, the data directory.
- `src/integration.rs` — the bash and zsh snippets printed by `seasalt init`.
- `src/sqlite.rs`, `src/clock.rs` — the calls into `rusqlite` and into the
  monotonic clock, each a trusted function with its contract stated.

## Trust

What SQLite stores and returns, what exists on disk, and what time it is are
not modelled. The functions that ask them state what they asked: each call
into `rusqlite`, `Path::exists` or the clocks is recorded by a predicate
(`db::ran_statement`, `db::ran_batch`, `db::interruption_answer`,
`paths::disk_answered`, `clock::clock_passed`, `clock::deadline_read`,
`commands::clock_reading`, ...) naming the statement and bound values, the
path, the deadline or the reading, and the contracts say which calls are
made, in which order, and how their answers become the result: a
suggestion skips exactly the candidates whose files the disk reported
missing, and a search stops early only when the clock reported the deadline
passed. The logic that consumes the answers (candidate selection, escaping,
formatting, parsing, the migration plan, the chunking of deletions) is
verified exactly. What the contracts cannot say is that no other call was
made: the connection carries no state that Verus can see.
