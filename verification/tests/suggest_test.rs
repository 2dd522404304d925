use rusqlite::Connection;
use seasalt::db;
use seasalt::paths;
use seasalt::suggest;

fn recorded(conn: &Connection, cwd: &str, cmd: &str, started_at: i64) {
    let paths = paths::required_paths(cwd, cmd).join("\0");
    db::record_history(conn, cwd, cmd, started_at, "s", &paths, "bash").unwrap();
}

fn seed(conn: &Connection) {
    // started_at is controlled explicitly to make the "latest" decision deterministic
    db::record_history(conn, "/proj/sub", "cargo build", 5000, "s", "", "bash").unwrap();
    db::record_history(conn, "/proj/sub", "cargo test", 4000, "s", "", "bash").unwrap();
    db::record_history(conn, "/proj", "cargo check", 3000, "s", "", "bash").unwrap();
    db::record_history(conn, "/other", "cargo doc", 2000, "s", "", "bash").unwrap();
    db::record_history(conn, "/home", "ls -la", 6000, "s", "", "bash").unwrap();
}

#[test]
fn exact_cwd_is_prioritized_over_parent() {
    let conn = Connection::open_in_memory().unwrap();
    db::init(&conn).unwrap();
    seed(&conn);

    // In /proj/sub the newest /proj/sub match (cargo build) wins over /proj's cargo check
    let got = suggest::suggest(&conn, "/proj/sub", "cargo")
        .unwrap()
        .unwrap();
    assert_eq!(got, "cargo build");
}

#[test]
fn parent_is_prioritized_over_global() {
    let conn = Connection::open_in_memory().unwrap();
    db::init(&conn).unwrap();
    seed(&conn);

    // /proj/deep/deeper has no exact match, so parents /proj/deep and /proj are searched in order -> cargo check
    let got = suggest::suggest(&conn, "/proj/deep/deeper", "cargo")
        .unwrap()
        .unwrap();
    assert_eq!(got, "cargo check");
}

#[test]
fn global_fallback_works() {
    let conn = Connection::open_in_memory().unwrap();
    db::init(&conn).unwrap();
    seed(&conn);

    // /nowhere has no cwd/parent match -> the newest global match (ls -la)
    let got = suggest::suggest(&conn, "/nowhere", "ls").unwrap().unwrap();
    assert_eq!(got, "ls -la");
}

#[test]
fn latest_within_scope_wins() {
    let conn = Connection::open_in_memory().unwrap();
    db::init(&conn).unwrap();
    seed(&conn);

    // Newest cargo-prefixed command within the same directory /proj/sub = cargo build (5000 > 4000)
    let got = suggest::suggest(&conn, "/proj/sub", "cargo")
        .unwrap()
        .unwrap();
    assert_eq!(got, "cargo build");
}

#[test]
fn no_match_returns_none() {
    let conn = Connection::open_in_memory().unwrap();
    db::init(&conn).unwrap();
    seed(&conn);

    assert!(suggest::suggest(&conn, "/proj/sub", "zzz_not_here")
        .unwrap()
        .is_none());
}

#[test]
fn suggestion_never_equals_current_line() {
    let conn = Connection::open_in_memory().unwrap();
    db::init(&conn).unwrap();
    db::record_history(&conn, "/proj/sub", "cargo build", 5000, "s", "", "bash").unwrap();

    // The same command just run and recorded is not suggested
    assert!(suggest::suggest(&conn, "/proj/sub", "cargo build")
        .unwrap()
        .is_none());
}

#[test]
fn case_insensitive_match() {
    let conn = Connection::open_in_memory().unwrap();
    db::init(&conn).unwrap();
    db::record_history(&conn, "/proj/sub", "CARGO BUILD", 5000, "s", "", "bash").unwrap();

    let got = suggest::suggest(&conn, "/proj/sub", "cargo")
        .unwrap()
        .unwrap();
    assert_eq!(got, "CARGO BUILD");
}

#[test]
fn ancestors_does_not_include_root() {
    assert_eq!(
        suggest::ancestors("/a/b/c"),
        vec!["/a/b".to_string(), "/a".to_string()]
    );
    assert!(suggest::ancestors("/").is_empty());
}

#[test]
fn empty_line_returns_none() {
    let conn = Connection::open_in_memory().unwrap();
    db::init(&conn).unwrap();
    seed(&conn);

    assert!(suggest::suggest(&conn, "/proj/sub", "").unwrap().is_none());
}

#[test]
fn case_sensitive_match_is_preferred() {
    let conn = Connection::open_in_memory().unwrap();
    db::init(&conn).unwrap();
    // An older exact-case candidate is preferred over a newer icase-only one (like fish)
    db::record_history(&conn, "/proj/sub", "CARGO BUILD", 2000, "s", "", "bash").unwrap();
    db::record_history(&conn, "/proj/sub", "cargo build", 1000, "s", "", "bash").unwrap();
    let got = suggest::suggest(&conn, "/proj/sub", "cargo")
        .unwrap()
        .unwrap();
    assert_eq!(got, "cargo build");
}

#[test]
fn case_insensitive_fallback_without_sensitive_match() {
    let conn = Connection::open_in_memory().unwrap();
    db::init(&conn).unwrap();
    db::record_history(&conn, "/proj/sub", "CARGO BUILD", 2000, "s", "", "bash").unwrap();
    let got = suggest::suggest(&conn, "/proj/sub", "cargo")
        .unwrap()
        .unwrap();
    assert_eq!(got, "CARGO BUILD");
}

#[test]
fn uppercase_needle_prefers_exact_case() {
    let conn = Connection::open_in_memory().unwrap();
    db::init(&conn).unwrap();
    db::record_history(&conn, "/proj/sub", "cargo build", 2000, "s", "", "bash").unwrap();
    db::record_history(&conn, "/proj/sub", "Cargo check", 1000, "s", "", "bash").unwrap();
    // Exact case is preferred even for a needle containing uppercase (like fish)
    let got = suggest::suggest(&conn, "/proj/sub", "Cargo")
        .unwrap()
        .unwrap();
    assert_eq!(got, "Cargo check");
}

#[test]
fn cwd_icase_beats_parent_exact_case() {
    let conn = Connection::open_in_memory().unwrap();
    db::init(&conn).unwrap();
    db::record_history(&conn, "/proj/sub", "CARGO BUILD", 2000, "s", "", "bash").unwrap();
    db::record_history(&conn, "/proj", "cargo check", 1000, "s", "", "bash").unwrap();
    // Scope priority outranks case priority: the cwd's icase candidate wins
    let got = suggest::suggest(&conn, "/proj/sub", "cargo")
        .unwrap()
        .unwrap();
    assert_eq!(got, "CARGO BUILD");
}

#[test]
fn exact_case_preferred_when_line_contains_glob_chars() {
    let conn = Connection::open_in_memory().unwrap();
    db::init(&conn).unwrap();
    db::record_history(&conn, "/x", "LS *.txt", 2000, "s", "", "bash").unwrap();
    db::record_history(&conn, "/x", "ls *.txt", 1000, "s", "", "bash").unwrap();
    // Like fish, the exact-case match wins even though it is older;
    // the broken GLOB escape made the sensitive pass miss and the
    // newer icase candidate "LS *.txt" win instead.
    let got = suggest::suggest(&conn, "/x", "ls *").unwrap().unwrap();
    assert_eq!(got, "ls *.txt");
}

#[test]
fn global_scope_prefers_exact_case() {
    let conn = Connection::open_in_memory().unwrap();
    db::init(&conn).unwrap();
    db::record_history(&conn, "/a", "Cargo build", 2000, "s", "", "bash").unwrap();
    db::record_history(&conn, "/a", "cargo check", 1000, "s", "", "bash").unwrap();
    // /nowhere has no cwd/parent match; the global scope prefers
    // the exact-case candidate even though it is older.
    let got = suggest::suggest(&conn, "/nowhere", "cargo")
        .unwrap()
        .unwrap();
    assert_eq!(got, "cargo check");
}

#[test]
fn like_escape_handles_underscore_in_icase_fallback() {
    let conn = Connection::open_in_memory().unwrap();
    db::init(&conn).unwrap();
    // Only a case-mismatched candidate exists: the sensitive GLOB pass
    // misses and the icase LIKE fallback must not treat `_` as a wildcard.
    db::record_history(&conn, "/proj/sub", "LS _x.txt", 2000, "s", "", "bash").unwrap();
    let got = suggest::suggest(&conn, "/proj/sub", "ls _")
        .unwrap()
        .unwrap();
    assert_eq!(got, "LS _x.txt");
}

#[test]
fn like_escape_handles_percent_in_icase_fallback() {
    let conn = Connection::open_in_memory().unwrap();
    db::init(&conn).unwrap();
    db::record_history(&conn, "/proj/sub", "PRINTF %s x", 2000, "s", "", "bash").unwrap();
    let got = suggest::suggest(&conn, "/proj/sub", "printf %s")
        .unwrap()
        .unwrap();
    assert_eq!(got, "PRINTF %s x");
}

#[test]
fn zero_budget_aborts_before_any_query() {
    let conn = Connection::open_in_memory().unwrap();
    db::init(&conn).unwrap();
    db::record_history(&conn, "/proj/sub", "cargo build", 5000, "s", "", "bash").unwrap();

    // An expired budget yields no suggestion (mid-query interrupts are
    // swallowed; the pre-query deadline check makes this deterministic).
    let got =
        suggest::suggest_budgeted(&conn, "/proj/sub", "cargo", Some(std::time::Duration::ZERO))
            .unwrap();
    assert!(got.is_none());

    // A generous budget, by contrast, still suggests the match.
    let got = suggest::suggest_budgeted(
        &conn,
        "/proj/sub",
        "cargo",
        Some(std::time::Duration::from_secs(10)),
    )
    .unwrap();
    assert_eq!(got, Some("cargo build".to_string()));
}

/// Exercises the mid-query interrupt path (OperationInterrupted swallow).
///
/// Unlike `zero_budget_aborts_before_any_query` which short-circuits at the
/// pre-query `expired()` check, this test uses a tiny but *positive* budget
/// so the pre-query `expired()` returns false and the SQL query actually
/// starts.  200k rows with a broad prefix ("c*") force the scoped query to
/// scan and sort a large range — easily taking milliseconds, far longer than
/// the 1 µs budget.  The `progress_handler` (fires every 100k VM ops) sees
/// the expired deadline mid-query and SQLite raises `OperationInterrupted`,
/// which `suggest_budgeted` swallows as `Ok(None)`.
///
/// A second assertion with a generous budget on the same data proves the
/// query *would* succeed without the interrupt — if the swallow path were
/// wrongly turned into an error, this test would fail.
#[test]
fn mid_query_interrupt_is_swallowed() {
    let conn = Connection::open_in_memory().unwrap();
    db::init(&conn).unwrap();

    // Seed 200k rows in the same cwd, all starting with "c" so the GLOB
    // "c*" scan covers the entire set.  The broad prefix + ORDER BY
    // started_at DESC forces a full scan + sort before LIMIT kicks in.
    conn.execute_batch("BEGIN").unwrap();
    {
        let mut stmt = conn
            .prepare(
                "INSERT INTO history (cwd, cmd, started_at, session, paths)
                 VALUES ('/big', ?1, ?2, 's', '')",
            )
            .unwrap();
        for i in 0..200_000 {
            stmt.execute((format!("cmd-{i}"), i as i64))
                .unwrap();
        }
    }
    conn.execute_batch("COMMIT").unwrap();

    // Positive but tiny budget: 1 µs.  The pre-query expired() check
    // (Instant::now() >= deadline) is false at entry because the deadline
    // is ~1 µs in the future, so the query starts.  But the scan+sort of
    // 200k rows takes milliseconds — long past the deadline.  The
    // progress_handler fires after 100k VM ops, sees the expired deadline,
    // and SQLite raises OperationInterrupted → swallowed as Ok(None).
    let got = suggest::suggest_budgeted(
        &conn,
        "/big",
        "c",
        Some(std::time::Duration::from_micros(1)),
    );
    assert!(got.unwrap().is_none(), "interrupt should be swallowed");

    // With a generous budget the same query succeeds, proving the data is
    // valid and the only reason the short-budget call returned None was
    // the mid-query interrupt.
    let got =
        suggest::suggest_budgeted(&conn, "/big", "c", Some(std::time::Duration::from_secs(10)));
    assert!(
        got.unwrap().is_some(),
        "query should succeed without interrupt"
    );
}

#[test]
fn ancestors_normalizes_trailing_slash() {
    assert_eq!(suggest::ancestors("/a/b/"), vec!["/a".to_string()]);
    assert_eq!(suggest::ancestors("/a/b//"), vec!["/a".to_string()]);
    assert_eq!(
        suggest::ancestors("/a/b/c/"),
        vec!["/a/b".to_string(), "/a".to_string()]
    );
    assert!(suggest::ancestors("///").is_empty());
    assert!(suggest::ancestors("").is_empty());
}

#[test]
fn ancestors_normalized_cwd_matches_parent_scope() {
    let conn = Connection::open_in_memory().unwrap();
    db::init(&conn).unwrap();
    db::record_history(&conn, "/proj", "cargo check", 1000, "s", "", "bash").unwrap();
    let got = suggest::suggest(&conn, "/proj/sub/", "cargo").unwrap().unwrap();
    assert_eq!(got, "cargo check");
}

#[test]
fn trailing_slash_cwd_matches_exact_scope() {
    let conn = Connection::open_in_memory().unwrap();
    db::init(&conn).unwrap();
    db::record_history(&conn, "/proj/sub", "cargo build", 1000, "s", "", "bash").unwrap();
    db::record_history(&conn, "/proj", "cargo check", 2000, "s", "", "bash").unwrap();
    let got = suggest::suggest(&conn, "/proj/sub//", "cargo").unwrap().unwrap();
    assert_eq!(got, "cargo build");
}

#[test]
fn pick_returns_nomatch_when_deadline_expired() {
    let expired = Some(std::time::Instant::now() - std::time::Duration::from_secs(1));
    assert_eq!(
        suggest::pick(
            "/x",
            "cargo",
            vec![("cargo build".to_string(), String::new())],
            expired,
        ),
        suggest::Outcome::NoMatch
    );
}

#[test]
fn pick_selects_first_valid_candidate() {
    assert_eq!(
        suggest::pick(
            "/x",
            "cargo",
            vec![("cargo build".to_string(), String::new())],
            None,
        ),
        suggest::Outcome::Suggest("cargo build".to_string())
    );
}

#[test]
fn pick_returns_identical_for_matching_line() {
    assert_eq!(
        suggest::pick(
            "/x",
            "cargo build",
            vec![("cargo build".to_string(), String::new())],
            None,
        ),
        suggest::Outcome::Identical
    );
}

#[test]
fn pick_skips_candidates_with_missing_files() {
    let missing = "/seasalt-no-such-dir/gone.txt".to_string();
    assert_eq!(
        suggest::pick(
            "/",
            "nvim",
            vec![
                ("nvim gone.txt".to_string(), missing.clone()),
                ("nvim other.txt".to_string(), String::new()),
            ],
            None,
        ),
        suggest::Outcome::Suggest("nvim other.txt".to_string())
    );
    assert_eq!(
        suggest::pick("/", "nvim", vec![("nvim gone.txt".to_string(), missing)], None),
        suggest::Outcome::NoMatch
    );
    assert_eq!(suggest::pick("/", "nvim", Vec::new(), None), suggest::Outcome::NoMatch);
}

#[test]
fn whitespace_only_line_returns_none() {
    let conn = Connection::open_in_memory().unwrap();
    db::init(&conn).unwrap();
    db::record_history(&conn, "/proj/sub", " cargo build", 5000, "s", "", "bash").unwrap();
    assert!(suggest::suggest(&conn, "/proj/sub", " \t").unwrap().is_none());
}

#[test]
fn multi_line_command_is_suggested_from_its_first_line() {
    let conn = Connection::open_in_memory().unwrap();
    db::init(&conn).unwrap();
    db::record_history(&conn, "/x", "for i in 1 2; do\n  echo $i\ndone", 1000, "s", "", "bash")
        .unwrap();
    let got = suggest::suggest(&conn, "/x", "for i").unwrap().unwrap();
    assert_eq!(got, "for i in 1 2; do\n  echo $i\ndone");
}

#[test]
fn candidate_with_missing_file_falls_back_to_next() {
    let conn = Connection::open_in_memory().unwrap();
    db::init(&conn).unwrap();
    db::record_history(&conn, "/", "nvim gone.txt", 2000, "s", "/seasalt-no-such-dir/gone.txt", "bash")
        .unwrap();
    db::record_history(&conn, "/", "nvim root", 1000, "s", "/", "bash").unwrap();
    assert_eq!(suggest::suggest(&conn, "/", "nvim").unwrap().unwrap(), "nvim root");
}

#[test]
fn candidate_with_only_missing_files_gives_none() {
    let conn = Connection::open_in_memory().unwrap();
    db::init(&conn).unwrap();
    db::record_history(&conn, "/", "nvim gone.txt", 2000, "s", "/seasalt-no-such-dir/gone.txt", "bash")
        .unwrap();
    assert!(suggest::suggest(&conn, "/", "nvim").unwrap().is_none());
}

#[test]
fn stale_exact_case_candidate_falls_back_to_icase() {
    let conn = Connection::open_in_memory().unwrap();
    db::init(&conn).unwrap();
    db::record_history(&conn, "/", "nvim gone.txt", 2000, "s", "/seasalt-no-such-dir/gone.txt", "bash")
        .unwrap();
    db::record_history(&conn, "/", "NVIM root", 1000, "s", "/", "bash").unwrap();
    assert_eq!(suggest::suggest(&conn, "/", "nvim").unwrap().unwrap(), "NVIM root");
}

#[test]
fn arguments_that_name_nothing_do_not_constrain() {
    let conn = Connection::open_in_memory().unwrap();
    db::init(&conn).unwrap();
    recorded(&conn, "/", "echo seasalt-hello-nowhere -la", 1000);
    assert_eq!(
        suggest::suggest(&conn, "/", "echo").unwrap().unwrap(),
        "echo seasalt-hello-nowhere -la"
    );
}

#[test]
fn search_with_consults_scopes_in_order() {
    let asked = std::cell::RefCell::new(Vec::new());
    let query = |dir: Option<String>, sensitive: bool| {
        asked.borrow_mut().push((dir.clone(), sensitive));
        if dir.is_none() && !sensitive {
            Ok(vec![("Cargo doc".to_string(), String::new())])
        } else {
            Ok(Vec::new())
        }
    };
    let got = suggest::search_with(query, "/a/b/", "cargo", None).unwrap();
    assert_eq!(got, Some("Cargo doc".to_string()));
    let s = |x: &str| Some(x.to_string());
    assert_eq!(
        *asked.borrow(),
        vec![
            (s("/a/b"), true),
            (s("/a/b"), false),
            (s("/a"), true),
            (s("/a"), false),
            (None, true),
            (None, false),
        ]
    );
}

#[test]
fn search_with_stops_at_first_decisive_scope() {
    let asked = std::cell::RefCell::new(0);
    let query = |dir: Option<String>, _sensitive: bool| {
        *asked.borrow_mut() += 1;
        if dir.as_deref() == Some("/a/b") {
            Ok(vec![("cargo".to_string(), String::new())])
        } else {
            Ok(vec![("cargo build".to_string(), String::new())])
        }
    };
    // The line itself is found in the first scope: no suggestion, and no
    // further lookup.
    assert_eq!(suggest::search_with(query, "/a/b", "cargo", None).unwrap(), None);
    assert_eq!(*asked.borrow(), 1);
}

#[test]
fn search_with_reports_the_failing_lookup() {
    let asked = std::cell::RefCell::new(Vec::new());
    let query = |dir: Option<String>, sensitive: bool| {
        asked.borrow_mut().push((dir.clone(), sensitive));
        if dir.as_deref() == Some("/a") && !sensitive {
            Err(seasalt::db::StoreError::Sqlite(rusqlite::Error::QueryReturnedNoRows))
        } else {
            Ok(Vec::new())
        }
    };
    // Every lookup before the failing one finds nothing.
    let got = suggest::search_with(query, "/a/b", "cargo", None);
    assert!(matches!(
        got,
        Err(seasalt::db::StoreError::Sqlite(rusqlite::Error::QueryReturnedNoRows))
    ));
    let s = |x: &str| Some(x.to_string());
    assert_eq!(
        *asked.borrow(),
        vec![(s("/a/b"), true), (s("/a/b"), false), (s("/a"), true), (s("/a"), false)]
    );
}
