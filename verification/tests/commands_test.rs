use seasalt::commands;
use seasalt::db::HistoryEntry;
use seasalt::integration;
use seasalt::report;
use seasalt::search;

#[test]
fn leading_whitespace_commands_are_not_recorded() {
    assert!(!commands::should_record(" password-command"));
    assert!(!commands::should_record("\tsecret"));
    assert!(!commands::should_record("\nsecret-multi"));
    assert!(commands::should_record("echo hi"));
    assert!(commands::should_record(""));
}

#[test]
fn parse_usize_reads_decimal_numbers() {
    assert_eq!(commands::parse_usize("42"), Some(42));
    assert_eq!(commands::parse_usize("+7"), Some(7));
    assert_eq!(commands::parse_usize("007"), Some(7));
    assert_eq!(commands::parse_usize("+"), None);
    assert_eq!(commands::parse_usize(""), None);
    assert_eq!(commands::parse_usize("-1"), None);
    assert_eq!(commands::parse_usize("1_000"), None);
    assert_eq!(commands::parse_usize("99999999999999999999999"), None);
    assert_eq!(
        commands::parse_usize(&usize::MAX.to_string()),
        Some(usize::MAX)
    );
}

#[test]
fn history_limit_follows_the_environment_value() {
    assert_eq!(commands::history_limit(None), Some(100_000));
    assert_eq!(commands::history_limit(Some("0".to_string())), None);
    assert_eq!(commands::history_limit(Some("500".to_string())), Some(500));
    assert_eq!(commands::history_limit(Some("many".to_string())), Some(100_000));
    assert_eq!(commands::history_limit(Some("00".to_string())), None);
    assert_eq!(commands::history_limit(Some("+0".to_string())), None);
}

#[test]
fn search_dir_scopes_searches() {
    assert_eq!(commands::search_dir(true, Some("/x".into()), Some("/y".into())), None);
    assert_eq!(
        commands::search_dir(false, Some("/proj/sub/".into()), Some("/y".into())),
        Some("/proj/sub/".to_string())
    );
    assert_eq!(
        commands::search_dir(false, Some("//".into()), None),
        Some("//".to_string())
    );
    assert_eq!(
        commands::search_dir(false, None, Some("/y".into())),
        Some("/y".to_string())
    );
    assert_eq!(commands::search_dir(false, None, None), None);
}

#[test]
fn data_dir_override_ignores_empty_value() {
    assert_eq!(commands::data_dir_override(None), None);
    assert_eq!(commands::data_dir_override(Some(String::new())), None);
    assert_eq!(
        commands::data_dir_override(Some("/data".into())),
        Some("/data".to_string())
    );
}

#[test]
fn now_ms_is_after_the_epoch() {
    assert!(commands::now_ms() > 0);
}

#[test]
fn default_cwd_prefers_absolute_pwd() {
    assert_eq!(
        search::choose_default_cwd(Some("/proj/sub/".into()), Some("/real".into())),
        Some("/proj/sub".to_string())
    );
    assert_eq!(
        search::choose_default_cwd(Some("relative".into()), Some("/real/".into())),
        Some("/real".to_string())
    );
    assert_eq!(
        search::choose_default_cwd(Some(String::new()), None),
        None
    );
    assert_eq!(
        search::choose_default_cwd(None, Some("/".into())),
        Some("/".to_string())
    );
}

#[test]
fn escape_cmd_keeps_entries_on_one_line() {
    assert_eq!(report::escape_cmd("a\nb\tc\\d"), "a\\nb\\tc\\\\d");
    assert_eq!(report::escape_cmd("plain"), "plain");
}

#[test]
fn decimal_text_writes_integers() {
    assert_eq!(report::decimal_text(0), "0");
    assert_eq!(report::decimal_text(1234567), "1234567");
    assert_eq!(report::decimal_text(-42), "-42");
    assert_eq!(report::decimal_text(i64::MIN), i64::MIN.to_string());
    assert_eq!(report::decimal_text(i64::MAX), i64::MAX.to_string());
}

#[test]
fn entry_line_formats_plain_and_tsv() {
    let e = HistoryEntry {
        id: 7,
        cwd: "/a\tb".to_string(),
        cmd: "echo multi\n  echo line2".to_string(),
        exit_code: Some(0),
        started_at: 1000,
        shell: "zsh".to_string(),
    };
    assert_eq!(report::entry_line(&e, false), "7\techo multi\\n  echo line2");
    assert_eq!(
        report::entry_line(&e, true),
        "7\t/a\tb\techo multi\\n  echo line2\t0\t1000\tzsh"
    );
    let open = HistoryEntry { exit_code: None, ..e };
    let open = HistoryEntry { cwd: "/a\\b".to_string(), ..open };
    let line = report::entry_line(&open, true);
    assert!(line.starts_with("7\t/a\\b\t"));
    assert_eq!(line.split('\t').collect::<Vec<_>>().len(), 6);
    assert_eq!(line.split('\t').nth(3), Some(""));
}

#[test]
fn init_script_knows_bash_and_zsh() {
    assert_eq!(commands_init("bash"), Some(integration::bash_init_script()));
    assert_eq!(commands_init("zsh"), Some(integration::zsh_init_script()));
    assert_eq!(commands_init("fish"), None);
    assert!(integration::bash_init_script().contains("_seasalt_preexec"));
    assert!(integration::zsh_init_script().contains("--shell zsh"));
}

fn commands_init(shell: &str) -> Option<&'static str> {
    integration::init_script(shell)
}

#[test]
fn millis_or_zero_reads_the_clock_value() {
    assert_eq!(commands::millis_or_zero(None), 0);
    assert_eq!(commands::millis_or_zero(Some(1_700_000_000_123)), 1_700_000_000_123);
}

#[test]
fn search_query_binds_directory_pattern_and_limit() {
    let (sql, texts, ints) = seasalt::search::search_query(Some("/w"), "git", 7);
    assert_eq!(sql, seasalt::search::SCOPED_SEARCH_SQL);
    assert_eq!(texts, vec!["/w".to_string(), "%git%".to_string()]);
    assert_eq!(ints, vec![7]);
    let (sql, texts, ints) = seasalt::search::search_query(None, "a_b", 100);
    assert_eq!(sql, seasalt::search::GLOBAL_SEARCH_SQL);
    assert_eq!(texts, vec!["%a_b%".to_string()]);
    assert_eq!(ints, vec![100]);
}

#[test]
fn checked_paths_resolve_the_non_empty_pieces() {
    assert_eq!(
        seasalt::paths::checked_paths("/a", "x\0\0/b"),
        vec!["/a/x".to_string(), "/b".to_string()]
    );
    assert!(seasalt::paths::checked_paths("/a", "").is_empty());
    assert!(seasalt::paths::checked_paths("/a", "\0").is_empty());
}

#[test]
fn recorded_paths_are_valid_while_the_files_stay() {
    let kept = seasalt::paths::required_paths("/", "ls / /seasalt-no-such-file");
    assert_eq!(kept, vec!["/".to_string()]);
    let recorded = seasalt::text::join_texts(&kept, '\0');
    assert!(seasalt::paths::valid("/", &recorded));
}

#[test]
fn store_error_keeps_plain_failures_apart_from_interruptions() {
    let e = seasalt::db::store_error(rusqlite::Error::QueryReturnedNoRows);
    assert!(matches!(e, seasalt::db::StoreError::Sqlite(_)));
    let interrupted = rusqlite::Error::SqliteFailure(
        rusqlite::ffi::Error::new(rusqlite::ffi::SQLITE_INTERRUPT),
        None,
    );
    assert!(matches!(
        seasalt::db::store_error(interrupted),
        seasalt::db::StoreError::Interrupted(_)
    ));
}
