//! The calls into SQLite (through `rusqlite`) that the store makes.
//!
//! Every function here makes one call into `rusqlite` and converts its
//! arguments and result. The store's contents live in SQLite, so nothing is
//! promised about what a query returns: the library's own logic decides which
//! statement runs and with which values.
//!
//! Parameter convention: the texts of a call are bound to `?1 ..= ?k` in
//! order, and its integers to the numbers after them.

use vstd::prelude::*;
use crate::clock;
use crate::db::HistoryEntry;

verus! {

/// A connection to a SQLite database (`rusqlite::Connection`).
#[verifier::external_type_specification]
#[verifier::external_body]
pub struct ExConnection(rusqlite::Connection);

/// An error reported by `rusqlite`.
#[verifier::external_type_specification]
#[verifier::external_body]
pub struct ExSqliteError(rusqlite::Error);

/// Opens (creating if needed) the database at `path`
/// (`rusqlite::Connection::open`); `:memory:` opens an in-memory database.
/// No outcome is promised: it depends on the database and its file.
#[verifier::external_body]
pub(crate) fn open_connection(path: &str) -> (r: Result<rusqlite::Connection, rusqlite::Error>) {
    rusqlite::Connection::open(path)
}

/// Runs a batch of `;`-separated statements (`Connection::execute_batch`).
/// No outcome is promised: it depends on the database and its file.
#[verifier::external_body]
pub(crate) fn run_batch(conn: &rusqlite::Connection, sql: &str) -> (r: Result<(), rusqlite::Error>) {
    conn.execute_batch(sql)
}

/// Runs one statement with bound values and returns the number of changed
/// rows (`Connection::execute`).
/// No outcome is promised: it depends on the database and its file.
#[verifier::external_body]
pub(crate) fn run_statement(
    conn: &rusqlite::Connection,
    sql: &str,
    texts: &[String],
    ints: &[i64],
) -> (r: Result<usize, rusqlite::Error>) {
    let mut args: Vec<&dyn rusqlite::ToSql> = Vec::new();
    args.extend(texts.iter().map(|t| t as &dyn rusqlite::ToSql));
    args.extend(ints.iter().map(|i| i as &dyn rusqlite::ToSql));
    conn.execute(sql, args.as_slice())
}

/// Runs a query and returns the integer in the first column of its first row
/// (`Connection::query_row`).
/// No outcome is promised: it depends on the database and its file.
#[verifier::external_body]
pub(crate) fn query_single_int(
    conn: &rusqlite::Connection,
    sql: &str,
    texts: &[String],
    ints: &[i64],
) -> (r: Result<i64, rusqlite::Error>) {
    let mut args: Vec<&dyn rusqlite::ToSql> = Vec::new();
    args.extend(texts.iter().map(|t| t as &dyn rusqlite::ToSql));
    args.extend(ints.iter().map(|i| i as &dyn rusqlite::ToSql));
    conn.query_row(sql, args.as_slice(), |row| row.get(0))
}

/// Runs a query and returns, row by row, the texts in its first two columns
/// (`Statement::query_map`).
/// No outcome is promised: it depends on the database and its file.
#[verifier::external_body]
pub(crate) fn query_text_pairs(
    conn: &rusqlite::Connection,
    sql: &str,
    texts: &[String],
    ints: &[i64],
) -> (r: Result<Vec<(String, String)>, rusqlite::Error>) {
    let mut args: Vec<&dyn rusqlite::ToSql> = Vec::new();
    args.extend(texts.iter().map(|t| t as &dyn rusqlite::ToSql));
    args.extend(ints.iter().map(|i| i as &dyn rusqlite::ToSql));
    let mut stmt = conn.prepare(sql)?;
    let rows = stmt.query_map(args.as_slice(), |row| Ok((row.get(0)?, row.get(1)?)))?;
    rows.collect()
}

/// Runs a query and returns its rows as history entries, reading the columns
/// `id, cwd, cmd, exit_code, started_at, shell` in that order
/// (`Statement::query_map`).
/// No outcome is promised: it depends on the database and its file.
#[verifier::external_body]
pub(crate) fn query_entries(
    conn: &rusqlite::Connection,
    sql: &str,
    texts: &[String],
    ints: &[i64],
) -> (r: Result<Vec<HistoryEntry>, rusqlite::Error>) {
    let mut args: Vec<&dyn rusqlite::ToSql> = Vec::new();
    args.extend(texts.iter().map(|t| t as &dyn rusqlite::ToSql));
    args.extend(ints.iter().map(|i| i as &dyn rusqlite::ToSql));
    let mut stmt = conn.prepare(sql)?;
    let rows = stmt.query_map(args.as_slice(), |r| {
        Ok(HistoryEntry { id: r.get(0)?, cwd: r.get(1)?, cmd: r.get(2)?, exit_code: r.get(3)?, started_at: r.get(4)?, shell: r.get(5)? })
    })?;
    rows.collect()
}

/// Sets an integer pragma (`Connection::pragma_update`).
/// No outcome is promised: it depends on the database and its file.
#[verifier::external_body]
pub(crate) fn set_pragma_int(conn: &rusqlite::Connection, name: &str, value: i64) -> (r: Result<
    (),
    rusqlite::Error,
>) {
    conn.pragma_update(None, name, value)
}

/// Sets a text pragma (`Connection::pragma_update`).
/// No outcome is promised: it depends on the database and its file.
#[verifier::external_body]
pub(crate) fn set_pragma_text(conn: &rusqlite::Connection, name: &str, value: &str) -> (r: Result<
    (),
    rusqlite::Error,
>) {
    conn.pragma_update(None, name, value)
}

/// Makes statements wait up to `millis` milliseconds for a lock held by
/// another connection (`Connection::busy_timeout`, which panics on a wait
/// longer than `i32::MAX` milliseconds).
/// No outcome is promised: it depends on the database and its file.
#[verifier::external_body]
pub(crate) fn set_busy_timeout(conn: &rusqlite::Connection, millis: u64) -> (r: Result<
    (),
    rusqlite::Error,
>)
    requires
        millis <= i32::MAX,
{
    conn.busy_timeout(std::time::Duration::from_millis(millis))
}

/// Makes every running statement check, every `ops` virtual-machine steps,
/// whether `deadline` has passed, and interrupt itself when it has
/// (`Connection::progress_handler`). Nothing is stated about its effect.
#[verifier::external_body]
pub(crate) fn interrupt_after(conn: &rusqlite::Connection, ops: i32, deadline: std::time::Instant) {
    conn.progress_handler(ops, Some(move || clock::expired(Some(deadline))));
}

/// Removes the progress handler (`Connection::progress_handler` with `None`).
/// Nothing is stated about its effect.
#[verifier::external_body]
pub(crate) fn clear_interrupt(conn: &rusqlite::Connection, ops: i32) {
    conn.progress_handler(ops, None::<fn() -> bool>);
}

} // verus!
