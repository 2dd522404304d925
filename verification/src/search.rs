//! Listing history entries that contain a pattern.

use vstd::prelude::*;
use crate::db::{from_sqlite, opt_view, ran_entries, store_error, HistoryEntry, StoreError};
use crate::text::string_views;
use crate::text::{chars_of, normalize_dir, normalized_dir, push_all, string_of};

verus! {

/// Entries of one directory whose command contains the pattern, newest first.
pub const SCOPED_SEARCH_SQL: &'static str =
    "SELECT id, cwd, cmd, exit_code, started_at, shell FROM history
             WHERE cwd = ?1 AND cmd LIKE ?2
             ORDER BY started_at DESC, id DESC LIMIT ?3";

/// Entries of all directories whose command contains the pattern, newest first.
pub const GLOBAL_SEARCH_SQL: &'static str =
    "SELECT id, cwd, cmd, exit_code, started_at, shell FROM history
             WHERE cmd LIKE ?1
             ORDER BY started_at DESC, id DESC LIMIT ?2";

/// The LIKE pattern that matches commands containing `pattern`; `%` and `_`
/// in `pattern` stay wildcards.
pub open spec fn contains_pattern(pattern: Seq<char>) -> Seq<char> {
    seq!['%'] + pattern + seq!['%']
}

/// The statement and bound values (texts, then integers) with which
/// `search` lists at most `limit` entries of `cwd` (or of all directories)
/// whose command contains `pattern`.
pub open spec fn search_query_spec(cwd: Option<Seq<char>>, pattern: Seq<char>, limit: usize) -> (
    &'static str,
    Seq<Seq<char>>,
    Seq<i64>,
) {
    match cwd {
        Some(d) => (SCOPED_SEARCH_SQL, seq![d, contains_pattern(pattern)], seq![limit as i64]),
        None => (GLOBAL_SEARCH_SQL, seq![contains_pattern(pattern)], seq![limit as i64]),
    }
}

/// The statement and bound values of `search_query_spec`.
pub fn search_query(cwd: Option<&str>, pattern: &str, limit: usize) -> (r: (
    &'static str,
    Vec<String>,
    Vec<i64>,
))
    ensures
        r.0 == search_query_spec(opt_view(cwd), pattern@, limit).0,
        string_views(r.1@) == search_query_spec(opt_view(cwd), pattern@, limit).1,
        r.2@ == search_query_spec(opt_view(cwd), pattern@, limit).2,
{
    let mut like: Vec<char> = vec!['%'];
    push_all(&mut like, chars_of(pattern).as_slice());
    like.push('%');
    proof {
        assert(like@ =~= contains_pattern(pattern@));
    }
    let like_text = string_of(like.as_slice());
    let mut texts: Vec<String> = Vec::new();
    let sql = match cwd {
        Some(d) => {
            texts.push(string_of(chars_of(d).as_slice()));
            SCOPED_SEARCH_SQL
        },
        None => GLOBAL_SEARCH_SQL,
    };
    let ghost t0 = texts@;
    texts.push(like_text);
    let ints: Vec<i64> = vec![limit as i64];
    proof {
        assert(string_views(texts@) =~= string_views(t0).push(like_text@));
        assert(string_views(texts@) =~= search_query_spec(opt_view(cwd), pattern@, limit).1);
        assert(ints@ =~= search_query_spec(opt_view(cwd), pattern@, limit).2);
    }
    (sql, texts, ints)
}

/// `search` hands SQLite the caller's limit, whatever its size: the one
/// integer bound to the statement (its `LIMIT`) is `limit` itself, so two
/// different limits bind different values; the texts bound before it are
/// the directory (when the search is scoped) and the pattern wrapped in `%`.
pub proof fn search_binds_the_callers_limit(cwd: Option<Seq<char>>, pattern: Seq<char>, limit: usize)
    requires
        limit <= i64::MAX,
    ensures
        search_query_spec(cwd, pattern, limit).2.len() == 1,
        search_query_spec(cwd, pattern, limit).2[0] == limit,
        forall|other: usize|
            other <= i64::MAX && other != limit ==> #[trigger] search_query_spec(cwd, pattern, other).2
                != search_query_spec(cwd, pattern, limit).2,
        search_query_spec(cwd, pattern, limit).1.last() == seq!['%'] + pattern + seq!['%'],
        search_query_spec(cwd, pattern, limit).1.len() == (if cwd is Some {
            2int
        } else {
            1int
        }),
        cwd matches Some(d) ==> search_query_spec(cwd, pattern, limit).1[0] == d,
{
    assert forall|other: usize|
        other <= i64::MAX && other != limit implies #[trigger] search_query_spec(cwd, pattern, other).2
            != search_query_spec(cwd, pattern, limit).2 by {
        assert(search_query_spec(cwd, pattern, other).2[0] == other);
    }
}

/// The entries recorded in `cwd` (or in any directory, for `None`) whose
/// command contains `pattern` (SQL LIKE: `%` and `_` are wildcards), newest
/// first, at most `limit` of them: the rows that SQLite gives back for the
/// query of `search_query`, which depend on the store's contents.
pub fn search(
    conn: &rusqlite::Connection,
    cwd: Option<&str>,
    pattern: &str,
    limit: usize,
) -> (r: Result<Vec<HistoryEntry>, StoreError>)
    ensures
        exists|raw: Result<Vec<HistoryEntry>, rusqlite::Error>|
            #[trigger] ran_entries(
                conn,
                search_query_spec(opt_view(cwd), pattern@, limit).0@,
                search_query_spec(opt_view(cwd), pattern@, limit).1,
                search_query_spec(opt_view(cwd), pattern@, limit).2,
                raw,
            ) && from_sqlite(raw, r),
{
    let (sql, texts, ints) = search_query(cwd, pattern, limit);
    let raw = crate::db::entries_query(conn, sql, texts.as_slice(), ints.as_slice());
    match raw {
        Ok(v) => Ok(v),
        Err(e) => Err(store_error(e)),
    }
}

/// The directory a search without `--cwd` is scoped to: the shell's `$PWD`
/// when it is an absolute path, else the process's current directory; each
/// with trailing slashes removed. `None` when neither is known.
pub fn choose_default_cwd(pwd: Option<String>, current: Option<String>) -> (r: Option<String>)
    ensures
        match pwd {
            Some(p) if p@.len() > 0 && p@[0] == '/' => r matches Some(d) && d@ == normalized_dir(
                p@,
            ),
            _ => match current {
                Some(c) => r matches Some(d) && d@ == normalized_dir(c@),
                None => r is None,
            },
        },
{
    if let Some(p) = &pwd {
        let pc = chars_of(p.as_str());
        if pc.len() > 0 && pc[0] == '/' {
            return Some(normalize_dir(p.as_str()));
        }
    }
    match current {
        Some(c) => Some(normalize_dir(c.as_str())),
        None => None,
    }
}

} // verus!
