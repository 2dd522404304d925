//! The history store: schema, migrations and the statements run on it.

use vstd::prelude::*;
use crate::sqlite;
use crate::text::{chars_of, flat_map_chars, lemma_flat_map_front, string_of};

verus! {

/// One recorded command, as `search` lists it.
#[derive(Debug, Clone, PartialEq, Eq)]
pub struct HistoryEntry {
    pub id: i64,
    pub cwd: String,
    pub cmd: String,
    pub exit_code: Option<i64>,
    pub started_at: i64,
    pub shell: String,
}

/// Why a call on the store failed.
#[derive(Debug)]
pub enum StoreError {
    /// A statement was interrupted: the time budget of the call ran out.
    Interrupted(rusqlite::Error),
    /// SQLite reported any other failure.
    Sqlite(rusqlite::Error),
}

/// Whether `e` reports a statement interrupted by a progress handler
/// (`rusqlite::Error::SqliteFailure` whose code is
/// `ErrorCode::OperationInterrupted`).
#[verifier::external_body]
fn is_interruption(e: &rusqlite::Error) -> (r: bool) {
    match e {
        rusqlite::Error::SqliteFailure(err, _) => err.code == rusqlite::ErrorCode::OperationInterrupted,
        _ => false,
    }
}

/// `is_interruption` answered `interrupted` for the SQLite error `e`. The
/// error is opaque here, so which answer that is is not known; the
/// predicate records the question.
pub closed spec fn interruption_answer(e: rusqlite::Error, interrupted: bool) -> bool {
    call_ensures(is_interruption, (&e,), interrupted)
}

/// The store's error for the SQLite error `e` when `is_interruption`
/// answered `interrupted`.
pub open spec fn classified(e: rusqlite::Error, interrupted: bool) -> StoreError {
    if interrupted {
        StoreError::Interrupted(e)
    } else {
        StoreError::Sqlite(e)
    }
}

/// `e` is the store's error for a SQLite error for which `is_interruption`
/// answered `interrupted`.
pub open spec fn reported(e: StoreError, interrupted: bool) -> bool {
    exists|e0: rusqlite::Error| #[trigger] interruption_answer(e0, interrupted) && e == classified(e0, interrupted)
}

/// The store's error for an error reported by SQLite: `Interrupted` exactly
/// when `is_interruption` says the error is an interruption.
pub fn store_error(e: rusqlite::Error) -> (r: StoreError)
    ensures
        exists|b: bool| #[trigger] interruption_answer(e, b) && r == classified(e, b),
{
    let ask = is_interruption;
    let b = ask(&e);
    proof {
        assert(interruption_answer(e, b));
    }
    if b {
        StoreError::Interrupted(e)
    } else {
        StoreError::Sqlite(e)
    }
}

/// `r` fails with the store's error for SQLite's error `e` (see
/// `store_error`).
pub open spec fn fails_with<T>(r: Result<T, StoreError>, e: rusqlite::Error) -> bool {
    exists|b: bool| #[trigger] interruption_answer(e, b) && r == Err::<T, StoreError>(classified(e, b))
}

/// `r` is the store's answer for SQLite's answer `raw`: the same value on
/// success, else the error mapped by `store_error`.
pub open spec fn from_sqlite<T>(raw: Result<T, rusqlite::Error>, r: Result<T, StoreError>) -> bool {
    match raw {
        Ok(v) => r == Ok::<T, StoreError>(v),
        Err(e) => fails_with(r, e),
    }
}

/// `r` is `Ok(())` when SQLite's answer `raw` is a success, else the error
/// mapped by `store_error`.
pub open spec fn done_from_sqlite<T>(raw: Result<T, rusqlite::Error>, r: Result<(), StoreError>) -> bool {
    match raw {
        Ok(_) => r == Ok::<(), StoreError>(()),
        Err(e) => fails_with(r, e),
    }
}

// What the store hands to SQLite. Each predicate below says that SQLite
// answered `raw` when the named call ran on `conn` with the given statement
// and bound values (texts first, then integers). Which answer that is
// depends on the database, so nothing more is known of `raw`: the
// predicates record what was run, and the functions of this module state
// them of their calls.

/// `Connection::execute_batch` ran the batch `sql` and answered `raw`.
pub closed spec fn ran_batch(conn: &rusqlite::Connection, sql: Seq<char>, raw: Result<(), rusqlite::Error>) -> bool {
    exists|q: &str| #![trigger call_ensures(sqlite::run_batch, (conn, q), raw)]
        q@ == sql && call_ensures(sqlite::run_batch, (conn, q), raw)
}

/// `Connection::execute` ran `sql` with the bound values and answered `raw`.
pub closed spec fn ran_statement(
    conn: &rusqlite::Connection,
    sql: Seq<char>,
    texts: Seq<Seq<char>>,
    ints: Seq<i64>,
    raw: Result<usize, rusqlite::Error>,
) -> bool {
    exists|q: &str, t: &[String], i: &[i64]|
        #![trigger call_ensures(sqlite::run_statement, (conn, q, t, i), raw)]
        q@ == sql && crate::text::string_views(t@) == texts && i@ == ints && call_ensures(
            sqlite::run_statement,
            (conn, q, t, i),
            raw,
        )
}

/// `Connection::query_row` ran `sql` with the bound values and answered
/// `raw` (the integer of the first column of the first row).
pub closed spec fn ran_single_int(
    conn: &rusqlite::Connection,
    sql: Seq<char>,
    texts: Seq<Seq<char>>,
    ints: Seq<i64>,
    raw: Result<i64, rusqlite::Error>,
) -> bool {
    exists|q: &str, t: &[String], i: &[i64]|
        #![trigger call_ensures(sqlite::query_single_int, (conn, q, t, i), raw)]
        q@ == sql && crate::text::string_views(t@) == texts && i@ == ints && call_ensures(
            sqlite::query_single_int,
            (conn, q, t, i),
            raw,
        )
}

/// The query `sql` ran with the bound values and answered `raw` (the texts
/// of its first two columns, row by row).
pub closed spec fn ran_text_pairs(
    conn: &rusqlite::Connection,
    sql: Seq<char>,
    texts: Seq<Seq<char>>,
    ints: Seq<i64>,
    raw: Result<Vec<(String, String)>, rusqlite::Error>,
) -> bool {
    exists|q: &str, t: &[String], i: &[i64]|
        #![trigger call_ensures(sqlite::query_text_pairs, (conn, q, t, i), raw)]
        q@ == sql && crate::text::string_views(t@) == texts && i@ == ints && call_ensures(
            sqlite::query_text_pairs,
            (conn, q, t, i),
            raw,
        )
}

/// The query `sql` ran with the bound values and answered `raw` (its rows
/// read as history entries).
pub closed spec fn ran_entries(
    conn: &rusqlite::Connection,
    sql: Seq<char>,
    texts: Seq<Seq<char>>,
    ints: Seq<i64>,
    raw: Result<Vec<HistoryEntry>, rusqlite::Error>,
) -> bool {
    exists|q: &str, t: &[String], i: &[i64]|
        #![trigger call_ensures(sqlite::query_entries, (conn, q, t, i), raw)]
        q@ == sql && crate::text::string_views(t@) == texts && i@ == ints && call_ensures(
            sqlite::query_entries,
            (conn, q, t, i),
            raw,
        )
}

/// Runs the entry query `sql` with the bound values (for `search`).
pub(crate) fn entries_query(
    conn: &rusqlite::Connection,
    sql: &str,
    texts: &[String],
    ints: &[i64],
) -> (raw: Result<Vec<HistoryEntry>, rusqlite::Error>)
    ensures
        ran_entries(conn, sql@, crate::text::string_views(texts@), ints@, raw),
{
    let run = sqlite::query_entries;
    run(conn, sql, texts, ints)
}

/// `Connection::pragma_update` set the integer pragma `name` to `value` and
/// answered `raw`.
pub closed spec fn set_int_pragma(
    conn: &rusqlite::Connection,
    name: Seq<char>,
    value: i64,
    raw: Result<(), rusqlite::Error>,
) -> bool {
    exists|q: &str| #![trigger call_ensures(sqlite::set_pragma_int, (conn, q, value), raw)]
        q@ == name && call_ensures(sqlite::set_pragma_int, (conn, q, value), raw)
}

/// `Connection::pragma_update` set the text pragma `name` to `value` and
/// answered `raw`.
pub closed spec fn set_text_pragma(
    conn: &rusqlite::Connection,
    name: Seq<char>,
    value: Seq<char>,
    raw: Result<(), rusqlite::Error>,
) -> bool {
    exists|q: &str, v: &str| #![trigger call_ensures(sqlite::set_pragma_text, (conn, q, v), raw)]
        q@ == name && v@ == value && call_ensures(sqlite::set_pragma_text, (conn, q, v), raw)
}

/// `Connection::busy_timeout` set a wait of `millis` milliseconds and
/// answered `raw`.
pub closed spec fn set_busy(conn: &rusqlite::Connection, millis: u64, raw: Result<(), rusqlite::Error>) -> bool {
    call_ensures(sqlite::set_busy_timeout, (conn, millis), raw)
}

/// `Connection::open` opened the database at `path` and answered `raw`.
pub closed spec fn opened(path: Seq<char>, raw: Result<rusqlite::Connection, rusqlite::Error>) -> bool {
    exists|q: &str| #![trigger call_ensures(sqlite::open_connection, (q,), raw)]
        q@ == path && call_ensures(sqlite::open_connection, (q,), raw)
}

/// How a character of a GLOB prefix is written so that it matches itself:
/// `*`, `?` and `[` go inside a one-character class.
pub open spec fn glob_escape_char(c: char) -> Seq<char> {
    if c == '*' || c == '?' || c == '[' {
        seq!['[', c, ']']
    } else {
        seq![c]
    }
}

/// How a character of a LIKE prefix is written so that it matches itself
/// (with `ESCAPE '\'`): `%`, `_` and `\` get a backslash before them.
pub open spec fn like_escape_char(c: char) -> Seq<char> {
    if c == '%' || c == '_' || c == '\\' {
        seq!['\\', c]
    } else {
        seq![c]
    }
}

/// `s` written as a literal GLOB pattern.
pub open spec fn glob_escaped(s: Seq<char>) -> Seq<char> {
    flat_map_chars(s, |c: char| glob_escape_char(c))
}

/// `s` written as a literal LIKE pattern (escape character `\`).
pub open spec fn like_escaped(s: Seq<char>) -> Seq<char> {
    flat_map_chars(s, |c: char| like_escape_char(c))
}

/// Reads a GLOB pattern made of literal characters and one-character classes
/// `[x]` back into the characters it matches.
pub open spec fn glob_literal(t: Seq<char>) -> Seq<char>
    decreases t.len(),
{
    if t.len() == 0 {
        seq![]
    } else if t.len() >= 3 && t[0] == '[' && t[2] == ']' {
        seq![t[1]] + glob_literal(t.subrange(3, t.len() as int))
    } else {
        seq![t[0]] + glob_literal(t.drop_first())
    }
}

/// Reads a LIKE pattern with escape character `\` back into the characters
/// it matches literally.
pub open spec fn like_literal(t: Seq<char>) -> Seq<char>
    decreases t.len(),
{
    if t.len() == 0 {
        seq![]
    } else if t.len() >= 2 && t[0] == '\\' {
        seq![t[1]] + like_literal(t.subrange(2, t.len() as int))
    } else {
        seq![t[0]] + like_literal(t.drop_first())
    }
}

/// Escaping for GLOB loses nothing: the escaped pattern reads back as the
/// typed text, so a line holding `*`, `?` or `[` is matched literally.
pub proof fn glob_escape_reads_back(s: Seq<char>)
    ensures
        glob_literal(glob_escaped(s)) == s,
    decreases s.len(),
{
    if s.len() > 0 {
        let f = |c: char| glob_escape_char(c);
        lemma_flat_map_front(s, f);
        glob_escape_reads_back(s.drop_first());
        let t = glob_escaped(s);
        let rest = glob_escaped(s.drop_first());
        let c = s[0];
        if c == '*' || c == '?' || c == '[' {
            assert(t.subrange(3, t.len() as int) =~= rest);
        } else {
            assert(t.drop_first() =~= rest);
        }
        assert(seq![c] + s.drop_first() =~= s);
    } else {
        assert(glob_escaped(s) =~= Seq::<char>::empty());
    }
}

/// Escaping for LIKE loses nothing: the escaped pattern reads back as the
/// typed text, so a line holding `%`, `_` or `\` is matched literally.
pub proof fn like_escape_reads_back(s: Seq<char>)
    ensures
        like_literal(like_escaped(s)) == s,
    decreases s.len(),
{
    if s.len() > 0 {
        let f = |c: char| like_escape_char(c);
        lemma_flat_map_front(s, f);
        like_escape_reads_back(s.drop_first());
        let t = like_escaped(s);
        let rest = like_escaped(s.drop_first());
        let c = s[0];
        if c == '%' || c == '_' || c == '\\' {
            assert(t.subrange(2, t.len() as int) =~= rest);
        } else {
            assert(t.drop_first() =~= rest);
        }
        assert(seq![c] + s.drop_first() =~= s);
    } else {
        assert(like_escaped(s) =~= Seq::<char>::empty());
    }
}

/// `s` written as a literal GLOB pattern (SQLite's GLOB has no escape
/// character, so `*`, `?` and `[` are put in one-character classes).
pub fn escape_glob(s: &str) -> (r: String)
    ensures
        r@ == glob_escaped(s@),
{
    let cs = chars_of(s);
    let ghost f = |c: char| glob_escape_char(c);
    let mut out: Vec<char> = Vec::new();
    let mut i: usize = 0;
    while i < cs.len()
        invariant
            i <= cs.len(),
            cs@ == s@,
            f == (|c: char| glob_escape_char(c)),
            out@ == flat_map_chars(cs@.subrange(0, i as int), f),
        decreases cs.len() - i,
    {
        let c = cs[i];
        proof {
            assert(cs@.subrange(0, i + 1).drop_last() =~= cs@.subrange(0, i as int));
        }
        let ghost before = out@;
        if c == '*' || c == '?' || c == '[' {
            out.push('[');
            out.push(c);
            out.push(']');
            proof {
                assert(out@ =~= before + seq!['[', c, ']']);
            }
        } else {
            out.push(c);
            proof {
                assert(out@ =~= before + seq![c]);
            }
        }
        i = i + 1;
    }
    proof {
        assert(cs@.subrange(0, cs.len() as int) =~= cs@);
    }
    string_of(out.as_slice())
}

/// `s` written as a literal LIKE pattern with escape character `\`.
pub fn escape_like(s: &str) -> (r: String)
    ensures
        r@ == like_escaped(s@),
{
    let cs = chars_of(s);
    let ghost f = |c: char| like_escape_char(c);
    let mut out: Vec<char> = Vec::new();
    let mut i: usize = 0;
    while i < cs.len()
        invariant
            i <= cs.len(),
            cs@ == s@,
            f == (|c: char| like_escape_char(c)),
            out@ == flat_map_chars(cs@.subrange(0, i as int), f),
        decreases cs.len() - i,
    {
        let c = cs[i];
        proof {
            assert(cs@.subrange(0, i + 1).drop_last() =~= cs@.subrange(0, i as int));
        }
        let ghost before = out@;
        if c == '%' || c == '_' || c == '\\' {
            out.push('\\');
            out.push(c);
            proof {
                assert(out@ =~= before + seq!['\\', c]);
            }
        } else {
            out.push(c);
            proof {
                assert(out@ =~= before + seq![c]);
            }
        }
        i = i + 1;
    }
    proof {
        assert(cs@.subrange(0, cs.len() as int) =~= cs@);
    }
    string_of(out.as_slice())
}

/// Exact-case prefix candidates within one directory, newest first.
pub const SCOPED_GLOB_SQL: &'static str = "SELECT cmd, paths FROM history WHERE cwd = ?1 AND cmd GLOB ?2
             ORDER BY started_at DESC, id DESC LIMIT ?3";

/// Exact-case prefix candidates over all directories, newest first.
pub const GLOBAL_GLOB_SQL: &'static str = "SELECT cmd, paths FROM history WHERE cmd GLOB ?1
             ORDER BY started_at DESC, id DESC LIMIT ?2";

/// Case-insensitive prefix candidates within one directory, newest first.
pub const SCOPED_LIKE_SQL: &'static str = "SELECT cmd, paths FROM history WHERE cwd = ?1 AND cmd LIKE ?2 ESCAPE '\\'
             ORDER BY started_at DESC, id DESC LIMIT ?3";

/// Case-insensitive prefix candidates over all directories, newest first.
pub const GLOBAL_LIKE_SQL: &'static str = "SELECT cmd, paths FROM history WHERE cmd LIKE ?1 ESCAPE '\\'
             ORDER BY started_at DESC, id DESC LIMIT ?2";

/// The prefix pattern for `needle`: the escaped needle followed by the
/// "anything" wildcard of GLOB (`*`) or LIKE (`%`).
pub open spec fn prefix_pattern(needle: Seq<char>, sensitive: bool) -> Seq<char> {
    if sensitive {
        glob_escaped(needle).push('*')
    } else {
        like_escaped(needle).push('%')
    }
}

/// The statement that looks up prefix candidates, and its text values: the
/// directory (when the search is scoped to one) and then the pattern.
pub open spec fn prefix_query_spec(
    dir: Option<Seq<char>>,
    needle: Seq<char>,
    sensitive: bool,
    limit: usize,
) -> (&'static str, Seq<Seq<char>>, Seq<i64>) {
    let pat = prefix_pattern(needle, sensitive);
    match dir {
        Some(d) => (if sensitive {
            SCOPED_GLOB_SQL
        } else {
            SCOPED_LIKE_SQL
        }, seq![d, pat], seq![limit as i64]),
        None => (if sensitive {
            GLOBAL_GLOB_SQL
        } else {
            GLOBAL_LIKE_SQL
        }, seq![pat], seq![limit as i64]),
    }
}

/// A prefix lookup hands SQLite the caller's limit, whatever its size: the
/// one integer bound to the statement is `limit` itself; the texts bound
/// before it are the directory (when scoped) and the escaped needle followed
/// by the wildcard of the chosen matching.
pub proof fn prefix_lookup_binds_the_callers_limit(
    dir: Option<Seq<char>>,
    needle: Seq<char>,
    sensitive: bool,
    limit: usize,
)
    requires
        limit <= i64::MAX,
    ensures
        prefix_query_spec(dir, needle, sensitive, limit).2.len() == 1,
        prefix_query_spec(dir, needle, sensitive, limit).2[0] == limit,
        prefix_query_spec(dir, needle, sensitive, limit).1.last() == (if sensitive {
            glob_escaped(needle).push('*')
        } else {
            like_escaped(needle).push('%')
        }),
        dir matches Some(d) ==> prefix_query_spec(dir, needle, sensitive, limit).1[0] == d,
{
}

/// The view of an optional text.
pub open spec fn opt_view(o: Option<&str>) -> Option<Seq<char>> {
    match o {
        Some(s) => Some(s@),
        None => None,
    }
}

/// The statement and bound values (texts, then integers) with which
/// `suggest_prefix` looks up at most `limit` commands that start with
/// `needle` (case-sensitively or not), in `dir` or everywhere.
pub fn prefix_query(dir: Option<&str>, needle: &str, sensitive: bool, limit: usize) -> (r: (
    &'static str,
    Vec<String>,
    Vec<i64>,
))
    ensures
        r.0 == prefix_query_spec(opt_view(dir), needle@, sensitive, limit).0,
        crate::text::string_views(r.1@) == prefix_query_spec(opt_view(dir), needle@, sensitive, limit).1,
        r.2@ == prefix_query_spec(opt_view(dir), needle@, sensitive, limit).2,
{
    let escaped = if sensitive {
        escape_glob(needle)
    } else {
        escape_like(needle)
    };
    let mut pc = chars_of(escaped.as_str());
    pc.push(if sensitive { '*' } else { '%' });
    let pattern = string_of(pc.as_slice());
    let mut texts: Vec<String> = Vec::new();
    let sql = match dir {
        Some(d) => {
            texts.push(string_of(chars_of(d).as_slice()));
            if sensitive { SCOPED_GLOB_SQL } else { SCOPED_LIKE_SQL }
        },
        None => if sensitive { GLOBAL_GLOB_SQL } else { GLOBAL_LIKE_SQL },
    };
    let ghost t0 = texts@;
    texts.push(pattern);
    proof {
        assert(crate::text::string_views(texts@) =~= crate::text::string_views(t0).push(
            pattern@,
        ));
        assert(crate::text::string_views(texts@) =~= prefix_query_spec(
            opt_view(dir),
            needle@,
            sensitive,
            limit,
        ).1);
    }
    let ints: Vec<i64> = vec![limit as i64];
    proof {
        assert(ints@ =~= seq![limit as i64]);
    }
    (sql, texts, ints)
}

/// The commands recorded in `dir` (or anywhere, for `None`) that start with
/// `needle`, newest first, at most `limit` of them, each with its recorded
/// paths. `sensitive` selects exact-case matching (GLOB) over
/// case-insensitive matching (LIKE). An empty needle matches nothing and
/// runs no query; any other needle runs the query of `prefix_query`, whose
/// rows depend on the store's contents.
pub fn suggest_prefix(
    conn: &rusqlite::Connection,
    dir: Option<&str>,
    needle: &str,
    limit: usize,
    sensitive: bool,
) -> (r: Result<Vec<(String, String)>, StoreError>)
    ensures
        needle@.len() == 0 ==> (r matches Ok(v) && v@.len() == 0),
        needle@.len() > 0 ==> exists|raw: Result<Vec<(String, String)>, rusqlite::Error>|
            #[trigger] ran_text_pairs(
                conn,
                prefix_query_spec(opt_view(dir), needle@, sensitive, limit).0@,
                prefix_query_spec(opt_view(dir), needle@, sensitive, limit).1,
                prefix_query_spec(opt_view(dir), needle@, sensitive, limit).2,
                raw,
            ) && from_sqlite(raw, r),
{
    if needle.is_empty() {
        return Ok(Vec::new());
    }
    let (sql, texts, ints) = prefix_query(dir, needle, sensitive, limit);
    let run = sqlite::query_text_pairs;
    let raw = run(conn, sql, texts.as_slice(), ints.as_slice());
    let ghost g = raw;
    proof {
        assert(ran_text_pairs(conn, sql@, crate::text::string_views(texts@), ints@, g));
    }
    match raw {
        Ok(rows) => Ok(rows),
        Err(e) => Err(store_error(e)),
    }
}

/// The schema of a new store (`CREATE ... IF NOT EXISTS`, so it can run on
/// an existing one).
pub const SCHEMA: &'static str = "
CREATE TABLE IF NOT EXISTS history (
  id INTEGER PRIMARY KEY AUTOINCREMENT,
  cwd TEXT NOT NULL,
  cmd TEXT NOT NULL,
  exit_code INTEGER,
  started_at INTEGER NOT NULL,
  session TEXT,
  paths TEXT NOT NULL DEFAULT '',
  shell TEXT NOT NULL DEFAULT 'bash'
);
CREATE INDEX IF NOT EXISTS idx_history_cwd ON history(cwd);
CREATE INDEX IF NOT EXISTS idx_history_cmd ON history(cmd);
CREATE INDEX IF NOT EXISTS idx_history_started_at ON history(started_at);
";

/// The schema version that `init` brings a store to.
pub const SCHEMA_VERSION: i64 = 3;

/// How long a statement waits for another shell's write lock, in
/// milliseconds (kept under the suggestion budget).
pub const BUSY_TIMEOUT_MS: u64 = 150;

/// Opens the store at `path` (`:memory:` for an in-memory store) without
/// configuring it.
pub fn connect(path: &str) -> (r: Result<rusqlite::Connection, StoreError>)
    ensures
        exists|raw: Result<rusqlite::Connection, rusqlite::Error>|
            #[trigger] opened(path@, raw) && from_sqlite(raw, r),
{
    let open = sqlite::open_connection;
    let raw = open(path);
    let ghost g = raw;
    proof {
        assert(opened(path@, g));
    }
    match raw {
        Ok(c) => Ok(c),
        Err(e) => Err(store_error(e)),
    }
}

/// The pragma that selects the journal mode.
pub const JOURNAL_MODE_PRAGMA: &'static str = "journal_mode";

/// The journal mode of a store on disk.
pub const WAL_MODE: &'static str = "WAL";

/// The steps of `configure` after the journal mode: the busy timeout of
/// `BUSY_TIMEOUT_MS`, then, if SQLite accepted it, `init`; `r` is the answer
/// of the last step run.
pub open spec fn timed_then_initialized(conn: &rusqlite::Connection, r: Result<(), StoreError>) -> bool {
    exists|b: Result<(), rusqlite::Error>|
        #[trigger] set_busy(conn, BUSY_TIMEOUT_MS, b) && match b {
            Err(e) => fails_with(r, e),
            Ok(_) => initialized(conn, r),
        }
}

/// What `configure` does: with `wal`, first sets `journal_mode` to `WAL`
/// (stopping if SQLite refuses); then the steps of
/// `timed_then_initialized`.
pub open spec fn configured(conn: &rusqlite::Connection, wal: bool, r: Result<(), StoreError>) -> bool {
    if wal {
        exists|w: Result<(), rusqlite::Error>|
            #[trigger] set_text_pragma(conn, JOURNAL_MODE_PRAGMA@, WAL_MODE@, w) && match w {
                Err(e) => fails_with(r, e),
                Ok(_) => timed_then_initialized(conn, r),
            }
    } else {
        timed_then_initialized(conn, r)
    }
}

/// A store that `configure` reports ready has been set up in full, whatever
/// `wal` is: with `wal` the journal mode was set to `WAL`; the busy timeout
/// of `BUSY_TIMEOUT_MS` was set; the schema batch ran; the stored version
/// `v` was read; and every step of `migration_plan(v)` ran and succeeded.
pub proof fn configured_store_is_initialized(conn: &rusqlite::Connection, wal: bool)
    requires
        configured(conn, wal, Ok(())),
    ensures
        initialized(conn, Ok(())),
        wal ==> exists|w: Result<(), rusqlite::Error>|
            #[trigger] set_text_pragma(conn, JOURNAL_MODE_PRAGMA@, WAL_MODE@, w) && w is Ok,
        exists|b: Result<(), rusqlite::Error>| #[trigger] set_busy(conn, BUSY_TIMEOUT_MS, b) && b is Ok,
        exists|raw: Result<(), rusqlite::Error>| #[trigger] ran_batch(conn, SCHEMA@, raw) && raw is Ok,
        exists|v: i64|
            #[trigger] ran_single_int(conn, VERSION_SQL@, unbound_texts(), unbound_ints(), Ok(v))
                && forall|k: int|
                0 <= k < migration_plan(v).len() ==> step_ran(
                    conn,
                    #[trigger] migration_plan(v)[k],
                    Ok(()),
                ),
{
    let ok = Ok::<(), StoreError>(());
    if wal {
        let w = choose|w: Result<(), rusqlite::Error>|
            #[trigger] set_text_pragma(conn, JOURNAL_MODE_PRAGMA@, WAL_MODE@, w) && match w {
                Err(e) => fails_with(ok, e),
                Ok(_) => timed_then_initialized(conn, ok),
            };
        if let Err(e) = w {
            assert(fails_with(ok, e));
            let b = choose|b: bool| #[trigger] interruption_answer(e, b) && ok == Err::<(), StoreError>(
                classified(e, b),
            );
            assert(false);
        }
    }
    assert(timed_then_initialized(conn, ok));
    let b = choose|b: Result<(), rusqlite::Error>|
        #[trigger] set_busy(conn, BUSY_TIMEOUT_MS, b) && match b {
            Err(e) => fails_with(ok, e),
            Ok(_) => initialized(conn, ok),
        };
    if let Err(e) = b {
        let c = choose|c: bool| #[trigger] interruption_answer(e, c) && ok == Err::<(), StoreError>(
            classified(e, c),
        );
        assert(false);
    }
    assert(initialized(conn, ok));
    let raw = choose|raw: Result<(), rusqlite::Error>|
        #[trigger] ran_batch(conn, SCHEMA@, raw) && match raw {
            Err(e) => fails_with(ok, e),
            Ok(_) => migrated(conn, ok),
        };
    if let Err(e) = raw {
        let c = choose|c: bool| #[trigger] interruption_answer(e, c) && ok == Err::<(), StoreError>(
            classified(e, c),
        );
        assert(false);
    }
    assert(migrated(conn, ok));
    let vr = choose|v: Result<i64, rusqlite::Error>|
        #[trigger] ran_single_int(conn, VERSION_SQL@, unbound_texts(), unbound_ints(), v)
            && match v {
            Err(e) => fails_with(ok, e),
            Ok(version) => exists|n: int| #[trigger] steps_ran(conn, migration_plan(version), n, ok),
        };
    match vr {
        Err(e) => {
            let c = choose|c: bool| #[trigger] interruption_answer(e, c) && ok == Err::<(), StoreError>(
                classified(e, c),
            );
            assert(false);
        },
        Ok(version) => {
            let n = choose|n: int| #[trigger] steps_ran(conn, migration_plan(version), n, ok);
            assert(n == migration_plan(version).len());
            assert(ran_single_int(conn, VERSION_SQL@, unbound_texts(), unbound_ints(), Ok(version)));
        },
    }
}

/// The migrations always bring a store to `SCHEMA_VERSION`: a store below it
/// gets a plan whose last step records `SCHEMA_VERSION`, in which every
/// recorded version is higher than the stored one and higher than the one
/// recorded before it; it gets the `shell` column exactly when it is below
/// version 3 and the `paths` column exactly when it is below version 1. A
/// store at or above it gets no step.
pub proof fn migrations_reach_schema_version(v: i64)
    ensures
        v < SCHEMA_VERSION ==> migration_plan(v).len() > 0 && migration_plan(v).last()
            == MigrationStep::SetVersion(SCHEMA_VERSION),
        v >= SCHEMA_VERSION ==> migration_plan(v).len() == 0,
        forall|i: int, j: int, a: i64, b: i64|
            0 <= i < j < migration_plan(v).len() && migration_plan(v)[i] == MigrationStep::SetVersion(
                a,
            ) && migration_plan(v)[j] == MigrationStep::SetVersion(b) ==> v < a < b,
        (exists|i: int|
            0 <= i < migration_plan(v).len() && migration_plan(v)[i] == MigrationStep::AddColumn(
                SHELL_COLUMN,
                ADD_SHELL_SQL,
            )) <==> v < 3,
        (exists|i: int|
            0 <= i < migration_plan(v).len() && migration_plan(v)[i] == MigrationStep::AddColumn(
                PATHS_COLUMN,
                ADD_PATHS_SQL,
            )) <==> v < 1,
{
    let p = migration_plan(v);
    if v < 1 {
        assert(p[0] == MigrationStep::AddColumn(PATHS_COLUMN, ADD_PATHS_SQL));
        assert(p[4] == MigrationStep::AddColumn(SHELL_COLUMN, ADD_SHELL_SQL));
    } else if v < 2 {
        assert(p[2] == MigrationStep::AddColumn(SHELL_COLUMN, ADD_SHELL_SQL));
        assert forall|i: int| 0 <= i < p.len() implies p[i] != MigrationStep::AddColumn(
            PATHS_COLUMN,
            ADD_PATHS_SQL,
        ) by {}
    } else if v < 3 {
        assert(p[0] == MigrationStep::AddColumn(SHELL_COLUMN, ADD_SHELL_SQL));
        assert forall|i: int| 0 <= i < p.len() implies p[i] != MigrationStep::AddColumn(
            PATHS_COLUMN,
            ADD_PATHS_SQL,
        ) by {}
    } else {
        assert(p =~= Seq::<MigrationStep>::empty());
    }
}

/// Prepares a freshly opened connection: WAL journaling for a store on disk
/// (`wal`), the bounded busy timeout, and the schema (`init`), stopping at
/// the first failure.
pub fn configure(conn: &rusqlite::Connection, wal: bool) -> (r: Result<(), StoreError>)
    ensures
        configured(conn, wal, r),
{
    if wal {
        let set = sqlite::set_pragma_text;
        let raw = set(conn, JOURNAL_MODE_PRAGMA, WAL_MODE);
        let ghost g = raw;
        proof {
            assert(set_text_pragma(conn, JOURNAL_MODE_PRAGMA@, WAL_MODE@, g));
        }
        if let Err(e) = raw {
            return Err(store_error(e));
        }
    }
    let wait = sqlite::set_busy_timeout;
    let raw = wait(conn, BUSY_TIMEOUT_MS);
    let ghost b = raw;
    proof {
        assert(set_busy(conn, BUSY_TIMEOUT_MS, b));
    }
    if let Err(e) = raw {
        return Err(store_error(e));
    }
    init(conn)
}

/// What `init` does: runs `SCHEMA`, then, if SQLite accepted it, `migrate`.
pub open spec fn initialized(conn: &rusqlite::Connection, r: Result<(), StoreError>) -> bool {
    exists|raw: Result<(), rusqlite::Error>|
        #[trigger] ran_batch(conn, SCHEMA@, raw) && match raw {
            Err(e) => fails_with(r, e),
            Ok(_) => migrated(conn, r),
        }
}

/// Creates the schema if needed and brings an older store up to the current
/// schema version. Running it again changes nothing.
pub fn init(conn: &rusqlite::Connection) -> (r: Result<(), StoreError>)
    ensures
        initialized(conn, r),
{
    let run = sqlite::run_batch;
    let raw = run(conn, SCHEMA);
    let ghost g = raw;
    proof {
        assert(ran_batch(conn, SCHEMA@, g));
    }
    if let Err(e) = raw {
        return Err(store_error(e));
    }
    migrate(conn)
}

/// The query that reads the stored schema version.
pub const VERSION_SQL: &'static str = "PRAGMA user_version";

/// The pragma that holds the schema version.
pub const VERSION_PRAGMA: &'static str = "user_version";

/// The query that lists the columns (name, type) of `history`.
pub const TABLE_INFO_SQL: &'static str = "SELECT name, type FROM pragma_table_info('history')";

/// The column added by the first migration.
pub const PATHS_COLUMN: &'static str = "paths";

/// The statement that adds the `paths` column.
pub const ADD_PATHS_SQL: &'static str = "ALTER TABLE history ADD COLUMN paths TEXT NOT NULL DEFAULT ''";

/// The batch of the second migration: keeps the newest row of each
/// (directory, command) pair and makes the pair unique.
pub const DEDUP_SQL: &'static str = "DELETE FROM history WHERE id NOT IN (
               SELECT id FROM (
                 SELECT id, ROW_NUMBER() OVER (
                   PARTITION BY cwd, cmd ORDER BY started_at DESC, id DESC
                 ) AS rn FROM history
               ) WHERE rn = 1
             );
             CREATE UNIQUE INDEX IF NOT EXISTS idx_history_cwd_cmd_unique ON history(cwd, cmd);
             DROP INDEX IF EXISTS idx_history_cwd_cmd;";

/// The column added by the third migration.
pub const SHELL_COLUMN: &'static str = "shell";

/// The statement that adds the `shell` column.
pub const ADD_SHELL_SQL: &'static str = "ALTER TABLE history ADD COLUMN shell TEXT NOT NULL DEFAULT 'bash'";

/// One step of the schema migrations.
pub enum MigrationStep {
    /// Adds a column to `history` with the statement `ddl`, unless a column
    /// called `name` is already there.
    AddColumn(&'static str, &'static str),
    /// Runs a batch of statements.
    Batch(&'static str),
    /// Records the schema version in `PRAGMA user_version`.
    SetVersion(i64),
}

/// The steps that bring a store at schema version `version` to
/// `SCHEMA_VERSION`, in order: below 1 the `paths` column, below 2 the
/// deduplication and the unique (directory, command) index, below 3 the
/// `shell` column; each followed by recording the version it reaches.
pub open spec fn migration_plan(version: i64) -> Seq<MigrationStep> {
    (if version < 1 {
        seq![MigrationStep::AddColumn(PATHS_COLUMN, ADD_PATHS_SQL), MigrationStep::SetVersion(1)]
    } else {
        seq![]
    }) + (if version < 2 {
        seq![MigrationStep::Batch(DEDUP_SQL), MigrationStep::SetVersion(2)]
    } else {
        seq![]
    }) + (if version < 3 {
        seq![
            MigrationStep::AddColumn(SHELL_COLUMN, ADD_SHELL_SQL),
            MigrationStep::SetVersion(SCHEMA_VERSION),
        ]
    } else {
        seq![]
    })
}

/// The migration steps for a store at schema version `version`.
pub fn migration_steps(version: i64) -> (r: Vec<MigrationStep>)
    ensures
        r@ == migration_plan(version),
{
    let mut out: Vec<MigrationStep> = Vec::new();
    if version < 1 {
        out.push(MigrationStep::AddColumn(PATHS_COLUMN, ADD_PATHS_SQL));
        out.push(MigrationStep::SetVersion(1));
    }
    let ghost a = out@;
    if version < 2 {
        out.push(MigrationStep::Batch(DEDUP_SQL));
        out.push(MigrationStep::SetVersion(2));
    }
    let ghost b = out@;
    if version < 3 {
        out.push(MigrationStep::AddColumn(SHELL_COLUMN, ADD_SHELL_SQL));
        out.push(MigrationStep::SetVersion(SCHEMA_VERSION));
    }
    proof {
        assert(out@ =~= migration_plan(version));
    }
    out
}

/// No bound integers.
pub open spec fn unbound_ints() -> Seq<i64> {
    Seq::empty()
}

/// Whether one of the column descriptions (name, type) is called `name`.
pub open spec fn names_column_spec(columns: Seq<(String, String)>, name: Seq<char>) -> bool {
    exists|j: int| 0 <= j < columns.len() && (#[trigger] columns[j]).0@ == name
}

/// What `has_column` does: lists the columns of `history`
/// (`TABLE_INFO_SQL`) and answers whether one is called `name`.
pub open spec fn column_listed(conn: &rusqlite::Connection, name: Seq<char>, r: Result<bool, StoreError>) -> bool {
    exists|cols: Result<Vec<(String, String)>, rusqlite::Error>|
        #[trigger] ran_text_pairs(conn, TABLE_INFO_SQL@, unbound_texts(), unbound_ints(), cols)
            && match cols {
            Err(e) => fails_with(r, e),
            Ok(c) => r == Ok::<bool, StoreError>(names_column_spec(c@, name)),
        }
}

/// Whether the `history` table has a column called `name`.
fn has_column(conn: &rusqlite::Connection, name: &str) -> (r: Result<bool, StoreError>)
    ensures
        column_listed(conn, name@, r),
{
    let no_texts: Vec<String> = Vec::new();
    let no_ints: Vec<i64> = Vec::new();
    let list = sqlite::query_text_pairs;
    let cols = list(conn, TABLE_INFO_SQL, no_texts.as_slice(), no_ints.as_slice());
    let ghost c = cols;
    proof {
        assert(crate::text::string_views(no_texts@) =~= unbound_texts());
        assert(no_ints@ =~= unbound_ints());
        assert(ran_text_pairs(conn, TABLE_INFO_SQL@, unbound_texts(), unbound_ints(), c));
    }
    match cols {
        Ok(columns) => Ok(names_column(&columns, name)),
        Err(e) => Err(store_error(e)),
    }
}

/// What one migration step does, and `r` its answer. A batch, or setting
/// the version, is one call. Adding a column first lists the columns of
/// `history` (`TABLE_INFO_SQL`); when that succeeds and none is called
/// `name`, it runs `ddl`.
pub open spec fn step_ran(conn: &rusqlite::Connection, step: MigrationStep, r: Result<(), StoreError>) -> bool {
    match step {
        MigrationStep::Batch(sql) => exists|raw: Result<(), rusqlite::Error>|
            #[trigger] ran_batch(conn, sql@, raw) && done_from_sqlite(raw, r),
        MigrationStep::SetVersion(n) => exists|raw: Result<(), rusqlite::Error>|
            #[trigger] set_int_pragma(conn, VERSION_PRAGMA@, n, raw) && done_from_sqlite(raw, r),
        MigrationStep::AddColumn(name, ddl) => exists|found: Result<bool, StoreError>|
            #[trigger] column_listed(conn, name@, found) && match found {
                Err(e) => r == Err::<(), StoreError>(e),
                Ok(true) => r == Ok::<(), StoreError>(()),
                Ok(false) => exists|raw: Result<(), rusqlite::Error>|
                    #[trigger] ran_batch(conn, ddl@, raw) && done_from_sqlite(raw, r),
            },
    }
}

/// The first `n` steps of `plan` ran and succeeded; on success that was
/// all of them, else the next one ran and failed with `r`.
pub open spec fn steps_ran(
    conn: &rusqlite::Connection,
    plan: Seq<MigrationStep>,
    n: int,
    r: Result<(), StoreError>,
) -> bool {
    &&& 0 <= n <= plan.len()
    &&& forall|k: int| 0 <= k < n ==> step_ran(conn, #[trigger] plan[k], Ok(()))
    &&& r is Ok ==> n == plan.len()
    &&& r is Err ==> n < plan.len() && step_ran(conn, plan[n], r)
}

/// What `migrate` does: reads the stored version (`VERSION_SQL`); if SQLite
/// answers `v`, runs the steps of `migration_plan(v)` in order, stopping at
/// the first failure.
pub open spec fn migrated(conn: &rusqlite::Connection, r: Result<(), StoreError>) -> bool {
    exists|v: Result<i64, rusqlite::Error>|
        #[trigger] ran_single_int(conn, VERSION_SQL@, unbound_texts(), unbound_ints(), v)
            && match v {
            Err(e) => fails_with(r, e),
            Ok(version) => exists|n: int| #[trigger] steps_ran(conn, migration_plan(version), n, r),
        }
}

/// Runs one migration step.
fn apply_step(conn: &rusqlite::Connection, step: &MigrationStep) -> (r: Result<(), StoreError>)
    ensures
        step_ran(conn, *step, r),
{
    match step {
        MigrationStep::Batch(sql) => {
            let run = sqlite::run_batch;
            let raw = run(conn, *sql);
            let ghost g = raw;
            proof {
                assert(ran_batch(conn, (*sql)@, g));
            }
            match raw {
                Ok(_) => Ok(()),
                Err(e) => Err(store_error(e)),
            }
        },
        MigrationStep::SetVersion(n) => {
            let set = sqlite::set_pragma_int;
            let raw = set(conn, VERSION_PRAGMA, *n);
            let ghost g = raw;
            proof {
                assert(set_int_pragma(conn, VERSION_PRAGMA@, *n, g));
            }
            match raw {
                Ok(_) => Ok(()),
                Err(e) => Err(store_error(e)),
            }
        },
        MigrationStep::AddColumn(name, ddl) => {
            let found = has_column(conn, *name);
            let ghost f = found;
            match found {
                Err(e) => Err(e),
                Ok(true) => Ok(()),
                Ok(false) => {
                    let run = sqlite::run_batch;
                    let raw = run(conn, *ddl);
                    let ghost g = raw;
                    proof {
                        assert(ran_batch(conn, (*ddl)@, g));
                    }
                    match raw {
                        Ok(_) => Ok(()),
                        Err(e) => Err(store_error(e)),
                    }
                },
            }
        },
    }
}

/// Applies the schema migrations in order, recording the applied version in
/// `PRAGMA user_version` so that later opens skip them: reads the stored
/// version and runs the steps of `migration_plan` for it, stopping at the
/// first failure.
fn migrate(conn: &rusqlite::Connection) -> (r: Result<(), StoreError>)
    ensures
        migrated(conn, r),
{
    let no_texts: Vec<String> = Vec::new();
    let no_ints: Vec<i64> = Vec::new();
    let read = sqlite::query_single_int;
    let raw = read(conn, VERSION_SQL, no_texts.as_slice(), no_ints.as_slice());
    let ghost g = raw;
    proof {
        assert(crate::text::string_views(no_texts@) =~= unbound_texts());
        assert(no_ints@ =~= unbound_ints());
        assert(ran_single_int(conn, VERSION_SQL@, unbound_texts(), unbound_ints(), g));
    }
    let version: i64 = match raw {
        Ok(v) => v,
        Err(e) => return Err(store_error(e)),
    };
    let steps = migration_steps(version);
    let ghost plan = migration_plan(version);
    let mut k: usize = 0;
    while k < steps.len()
        invariant
            k <= steps.len(),
            steps@ == plan,
            plan == migration_plan(version),
            g == Ok::<i64, rusqlite::Error>(version),
            ran_single_int(conn, VERSION_SQL@, unbound_texts(), unbound_ints(), g),
            forall|j: int| 0 <= j < k ==> step_ran(conn, #[trigger] plan[j], Ok(())),
        decreases steps.len() - k,
    {
        let out = apply_step(conn, &steps[k]);
        if out.is_err() {
            proof {
                assert(steps_ran(conn, migration_plan(version), k as int, out));
                assert(g->Ok_0 == version);
                assert(migrated(conn, out));
            }
            return out;
        }
        proof {
            assert(out == Ok::<(), StoreError>(()));
        }
        k = k + 1;
    }
    proof {
        assert(steps_ran(conn, plan, k as int, Ok(())));
    }
    Ok(())
}

/// Whether one of the column descriptions (name, type) is called `name`.
fn names_column(columns: &Vec<(String, String)>, name: &str) -> (r: bool)
    ensures
        r == names_column_spec(columns@, name@),
{
    let mut i: usize = 0;
    while i < columns.len()
        invariant
            i <= columns.len(),
            forall|j: int| 0 <= j < i ==> (#[trigger] columns@[j]).0@ != name@,
        decreases columns.len() - i,
    {
        if crate::text::same_text(columns[i].0.as_str(), name) {
            return true;
        }
        i = i + 1;
    }
    false
}

/// The statement that records a command: `cwd, cmd, session, paths, shell`
/// are bound to `?1 ..= ?5` and the start time to `?6`.
pub const RECORD_SQL: &'static str = "INSERT INTO history (cwd, cmd, session, paths, shell, started_at)
         VALUES (?1, ?2, ?3, ?4, ?5, ?6)
         ON CONFLICT(cwd, cmd) DO UPDATE SET
           started_at = excluded.started_at,
           session = excluded.session,
           paths = excluded.paths,
           shell = excluded.shell,
           exit_code = NULL
         RETURNING id";

/// The texts bound to `RECORD_SQL`, in order.
pub open spec fn record_texts(
    cwd: Seq<char>,
    cmd: Seq<char>,
    session: Seq<char>,
    paths: Seq<char>,
    shell: Seq<char>,
) -> Seq<Seq<char>> {
    seq![cwd, cmd, session, paths, shell]
}

/// No bound texts.
pub open spec fn unbound_texts() -> Seq<Seq<char>> {
    Seq::empty()
}

/// One bound integer.
pub open spec fn one_int(a: i64) -> Seq<i64> {
    seq![a]
}

/// Two bound integers, in order.
pub open spec fn two_ints(a: i64, b: i64) -> Seq<i64> {
    seq![a, b]
}

/// Records that `cmd` ran in `cwd`: inserts a row, or, when the same command
/// was already recorded in the same directory, refreshes that row instead
/// (new start time, session, paths and shell; exit code cleared), so a
/// command appears once per directory. Returns the row's id, as SQLite
/// gives it back for `RECORD_SQL` run with these values.
pub fn record_history(
    conn: &rusqlite::Connection,
    cwd: &str,
    cmd: &str,
    started_at: i64,
    session: &str,
    paths: &str,
    shell: &str,
) -> (r: Result<i64, StoreError>)
    ensures
        exists|raw: Result<i64, rusqlite::Error>|
            #[trigger] ran_single_int(
                conn,
                RECORD_SQL@,
                record_texts(cwd@, cmd@, session@, paths@, shell@),
                one_int(started_at),
                raw,
            ) && from_sqlite(raw, r),
{
    let texts: Vec<String> = vec![
        string_of(chars_of(cwd).as_slice()),
        string_of(chars_of(cmd).as_slice()),
        string_of(chars_of(session).as_slice()),
        string_of(chars_of(paths).as_slice()),
        string_of(chars_of(shell).as_slice()),
    ];
    let ints: Vec<i64> = vec![started_at];
    let run = sqlite::query_single_int;
    let raw = run(conn, RECORD_SQL, texts.as_slice(), ints.as_slice());
    let ghost g = raw;
    proof {
        assert(crate::text::string_views(texts@) =~= seq![cwd@, cmd@, session@, paths@, shell@]);
        assert(ints@ =~= seq![started_at]);
        assert(ran_single_int(conn, RECORD_SQL@, crate::text::string_views(texts@), ints@, g));
        assert(ran_single_int(
            conn,
            RECORD_SQL@,
            record_texts(cwd@, cmd@, session@, paths@, shell@),
            one_int(started_at),
            g,
        ));
    }
    match raw {
        Ok(id) => Ok(id),
        Err(e) => Err(store_error(e)),
    }
}

/// The statement that stores an exit code: the code is bound to `?1`, the
/// row's id to `?2`.
pub const EXIT_CODE_SQL: &'static str = "UPDATE history SET exit_code = ?1 WHERE id = ?2";

/// Stores the exit code of the row `id`; an id that names no row is not an
/// error.
pub fn update_exit_code(conn: &rusqlite::Connection, id: i64, code: i64) -> (r: Result<
    (),
    StoreError,
>)
    ensures
        exists|raw: Result<usize, rusqlite::Error>|
            #[trigger] ran_statement(conn, EXIT_CODE_SQL@, unbound_texts(), two_ints(code, id), raw)
                && done_from_sqlite(raw, r),
{
    let no_texts: Vec<String> = Vec::new();
    let ints: Vec<i64> = vec![code, id];
    let run = sqlite::run_statement;
    let raw = run(conn, EXIT_CODE_SQL, no_texts.as_slice(), ints.as_slice());
    let ghost g = raw;
    proof {
        assert(crate::text::string_views(no_texts@) =~= Seq::<Seq<char>>::empty());
        assert(ints@ =~= seq![code, id]);
        assert(ran_statement(conn, EXIT_CODE_SQL@, crate::text::string_views(no_texts@), ints@, g));
        assert(ran_statement(conn, EXIT_CODE_SQL@, unbound_texts(), two_ints(code, id), g));
    }
    match raw {
        Ok(_) => Ok(()),
        Err(e) => Err(store_error(e)),
    }
}

/// The statement that trims the history: it deletes every row that comes
/// after the row at the offset bound to `?1`, in the order newest first
/// (start time, then id).
pub const TRIM_SQL: &'static str = "DELETE FROM history WHERE (started_at, id) < (
           SELECT started_at, id FROM history ORDER BY started_at DESC, id DESC LIMIT 1 OFFSET ?1
         )";

/// The offset of the oldest row that a history of `max` rows keeps:
/// `max - 1`, capped at the largest `i64`.
pub open spec fn trim_offset_spec(max: usize) -> i64 {
    if max - 1 <= i64::MAX {
        (max - 1) as i64
    } else {
        i64::MAX
    }
}

/// The offset bound to `TRIM_SQL` for a limit of `max` rows.
pub fn trim_offset(max: usize) -> (r: i64)
    requires
        max >= 1,
    ensures
        r == trim_offset_spec(max),
{
    let below: u64 = (max - 1) as u64;
    if below <= 0x7fff_ffff_ffff_ffffu64 {
        below as i64
    } else {
        i64::MAX
    }
}

/// Keeps only the newest `max` rows (ordered by start time, then id) and
/// deletes the rest; rows that tie on start time are ordered by id, so
/// exactly `max` rows stay when there are more. A store with at most `max`
/// rows is left as it is. `max = 0` is no limit: callers handle it before
/// calling.
pub fn trim_history(conn: &rusqlite::Connection, max: usize) -> (r: Result<(), StoreError>)
    requires
        max >= 1,
    ensures
        exists|raw: Result<usize, rusqlite::Error>|
            #[trigger] ran_statement(conn, TRIM_SQL@, unbound_texts(), one_int(trim_offset_spec(max)), raw)
                && done_from_sqlite(raw, r),
{
    let no_texts: Vec<String> = Vec::new();
    let ints: Vec<i64> = vec![trim_offset(max)];
    let run = sqlite::run_statement;
    let raw = run(conn, TRIM_SQL, no_texts.as_slice(), ints.as_slice());
    let ghost g = raw;
    proof {
        assert(crate::text::string_views(no_texts@) =~= Seq::<Seq<char>>::empty());
        assert(ints@ =~= seq![trim_offset_spec(max)]);
        assert(ran_statement(conn, TRIM_SQL@, crate::text::string_views(no_texts@), ints@, g));
        assert(ran_statement(conn, TRIM_SQL@, unbound_texts(), one_int(trim_offset_spec(max)), g));
    }
    match raw {
        Ok(_) => Ok(()),
        Err(e) => Err(store_error(e)),
    }
}

/// The batch that `clear` runs.
pub const CLEAR_SQL: &'static str = "DELETE FROM history; VACUUM;";

/// Deletes every row and gives the file space back (`VACUUM`).
pub fn clear(conn: &rusqlite::Connection) -> (r: Result<(), StoreError>)
    ensures
        exists|raw: Result<(), rusqlite::Error>|
            #[trigger] ran_batch(conn, CLEAR_SQL@, raw) && done_from_sqlite(raw, r),
{
    let run = sqlite::run_batch;
    let raw = run(conn, CLEAR_SQL);
    let ghost g = raw;
    proof {
        assert(ran_batch(conn, CLEAR_SQL@, g));
    }
    match raw {
        Ok(_) => Ok(()),
        Err(e) => Err(store_error(e)),
    }
}

/// The most ids that one delete statement binds (SQLite's default limit on
/// bound values is 999).
pub const DELETE_CHUNK: usize = 900;

/// The concatenation of a sequence of id lists.
pub open spec fn concat_ids(chunks: Seq<Seq<i64>>) -> Seq<i64>
    decreases chunks.len(),
{
    if chunks.len() == 0 {
        seq![]
    } else {
        concat_ids(chunks.drop_last()) + chunks.last()
    }
}

/// The views of a sequence of id vectors.
pub open spec fn id_views(v: Seq<Vec<i64>>) -> Seq<Seq<i64>> {
    v.map_values(|c: Vec<i64>| c@)
}

/// Cuts `ids` into consecutive pieces of `size` ids (the last one may be
/// shorter): together they hold every id once, in order, and none is empty.
pub fn id_chunks(ids: &[i64], size: usize) -> (r: Vec<Vec<i64>>)
    requires
        size >= 1,
    ensures
        concat_ids(id_views(r@)) == ids@,
        forall|k: int| 0 <= k < r@.len() ==> 1 <= (#[trigger] r@[k])@.len() <= size,
{
    let mut out: Vec<Vec<i64>> = Vec::new();
    let mut start: usize = 0;
    while start < ids.len()
        invariant
            start <= ids.len(),
            size >= 1,
            concat_ids(id_views(out@)) == ids@.subrange(0, start as int),
            forall|k: int| 0 <= k < out@.len() ==> 1 <= (#[trigger] out@[k])@.len() <= size,
        decreases ids.len() - start,
    {
        let end: usize = if ids.len() - start > size {
            start + size
        } else {
            ids.len()
        };
        let mut piece: Vec<i64> = Vec::new();
        let mut i: usize = start;
        while i < end
            invariant
                start <= i <= end <= ids.len(),
                piece@ == ids@.subrange(start as int, i as int),
            decreases end - i,
        {
            piece.push(ids[i]);
            proof {
                assert(ids@.subrange(start as int, i + 1) =~= ids@.subrange(start as int, i as int).push(
                    ids@[i as int],
                ));
            }
            i = i + 1;
        }
        let ghost before = out@;
        out.push(piece);
        proof {
            assert(id_views(out@).drop_last() =~= id_views(before));
            assert(id_views(out@).last() == ids@.subrange(start as int, end as int));
            assert(ids@.subrange(0, end as int) =~= ids@.subrange(0, start as int) + ids@.subrange(
                start as int,
                end as int,
            ));
            assert forall|k: int| 0 <= k < out@.len() implies 1 <= (#[trigger] out@[k])@.len()
                <= size by {
                if k < before.len() {
                    assert(out@[k] == before[k]);
                }
            }
        }
        start = end;
    }
    proof {
        assert(ids@.subrange(0, ids.len() as int) =~= ids@);
    }
    out
}

/// `n` copies of `?` separated by commas.
pub open spec fn placeholder_list(n: nat) -> Seq<char>
    decreases n,
{
    if n == 0 {
        seq![]
    } else if n == 1 {
        seq!['?']
    } else {
        placeholder_list((n - 1) as nat) + seq![',', '?']
    }
}

/// The statement that deletes the rows whose id is one of `n` bound values.
pub fn delete_statement(n: usize) -> (r: String)
    ensures
        r@ == "DELETE FROM history WHERE id IN ("@ + placeholder_list(n as nat) + ")"@,
{
    let mut out = chars_of("DELETE FROM history WHERE id IN (");
    let ghost head = out@;
    let mut k: usize = 0;
    while k < n
        invariant
            k <= n,
            out@ == head + placeholder_list(k as nat),
        decreases n - k,
    {
        if k > 0 {
            out.push(',');
        }
        out.push('?');
        proof {
            if k == 0 {
                assert(placeholder_list(1) == seq!['?']);
                assert(out@ =~= head + placeholder_list(1));
            } else {
                assert(out@ =~= head + placeholder_list(k as nat) + seq![',', '?']);
            }
        }
        k = k + 1;
    }
    let tail = chars_of(")");
    crate::text::push_all(&mut out, tail.as_slice());
    string_of(out.as_slice())
}

/// The text of `delete_statement(n)`.
pub open spec fn delete_sql(n: nat) -> Seq<char> {
    "DELETE FROM history WHERE id IN ("@ + placeholder_list(n) + ")"@
}

/// A run of deletions: `ids` cut into `chunks` (in order, each of 1 to
/// `DELETE_CHUNK` ids), the statement `delete_sql` of each chunk run with the
/// chunk's ids bound, one after the other, while SQLite answered success
/// (`raws` are its answers); `r` is the answer of the last one run, and on
/// success every chunk ran.
pub open spec fn deleted_in_chunks(
    conn: &rusqlite::Connection,
    ids: Seq<i64>,
    chunks: Seq<Seq<i64>>,
    raws: Seq<Result<usize, rusqlite::Error>>,
    r: Result<(), StoreError>,
) -> bool {
    &&& concat_ids(chunks) == ids
    &&& forall|k: int| 0 <= k < chunks.len() ==> 1 <= (#[trigger] chunks[k]).len() <= DELETE_CHUNK
    &&& 1 <= raws.len() <= chunks.len()
    &&& forall|k: int|
        0 <= k < raws.len() ==> ran_statement(
            conn,
            delete_sql(chunks[k].len()),
            unbound_texts(),
            chunks[k],
            #[trigger] raws[k],
        )
    &&& forall|k: int| 0 <= k < raws.len() - 1 ==> (#[trigger] raws[k]) is Ok
    &&& done_from_sqlite(raws.last(), r)
    &&& r is Ok ==> raws.len() == chunks.len()
}

/// Deletes the rows with the given ids, at most `DELETE_CHUNK` ids per
/// statement, chunk after chunk, stopping at the first failure; ids that
/// name no row are ignored, and an empty list runs no statement.
pub fn delete_by_ids(conn: &rusqlite::Connection, ids: &[i64]) -> (r: Result<(), StoreError>)
    ensures
        ids@.len() == 0 ==> r is Ok,
        ids@.len() > 0 ==> exists|
            chunks: Seq<Seq<i64>>,
            raws: Seq<Result<usize, rusqlite::Error>>,
        | #[trigger] deleted_in_chunks(conn, ids@, chunks, raws, r),
{
    if ids.len() == 0 {
        return Ok(());
    }
    let chunks = id_chunks(ids, DELETE_CHUNK);
    let ghost cs = id_views(chunks@);
    proof {
        if chunks@.len() == 0 {
            assert(concat_ids(cs) =~= Seq::<i64>::empty());
        }
        assert forall|k: int| 0 <= k < cs.len() implies 1 <= (#[trigger] cs[k]).len()
            <= DELETE_CHUNK by {
            assert(cs[k] == chunks@[k]@);
        }
    }
    let no_texts: Vec<String> = Vec::new();
    let ghost mut raws: Seq<Result<usize, rusqlite::Error>> = seq![];
    let mut k: usize = 0;
    while k < chunks.len()
        invariant
            k <= chunks.len(),
            chunks@.len() >= 1,
            cs == id_views(chunks@),
            concat_ids(cs) == ids@,
            forall|j: int| 0 <= j < cs.len() ==> 1 <= (#[trigger] cs[j]).len() <= DELETE_CHUNK,
            no_texts@.len() == 0,
            raws.len() == k,
            forall|j: int|
                0 <= j < raws.len() ==> ran_statement(
                    conn,
                    delete_sql(cs[j].len()),
                    unbound_texts(),
                    cs[j],
                    #[trigger] raws[j],
                ),
            forall|j: int| 0 <= j < raws.len() ==> (#[trigger] raws[j]) is Ok,
        decreases chunks.len() - k,
    {
        let sql = delete_statement(chunks[k].len());
        let run = sqlite::run_statement;
        let raw = run(conn, sql.as_str(), no_texts.as_slice(), chunks[k].as_slice());
        let ghost g = raw;
        proof {
            assert(cs[k as int] == chunks@[k as int]@);
            assert(crate::text::string_views(no_texts@) =~= unbound_texts());
            assert(ran_statement(
                conn,
                delete_sql(cs[k as int].len()),
                unbound_texts(),
                cs[k as int],
                g,
            ));
            raws = raws.push(g);
            assert(raws[k as int] == g);
        }
        if let Err(e) = raw {
            let out = Err(store_error(e));
            proof {
                assert(deleted_in_chunks(conn, ids@, cs, raws, out));
            }
            return out;
        }
        k = k + 1;
    }
    proof {
        assert(raws.last() == raws[raws.len() - 1]);
        assert(deleted_in_chunks(conn, ids@, cs, raws, Ok(())));
    }
    Ok(())
}

} // verus!
