use seasalt::paths;

#[test]
fn existing_absolute_argument_is_required() {
    assert_eq!(
        paths::required_paths("/seasalt-no-such-dir", "ls / /seasalt-no-such-dir/b.txt"),
        vec!["/"]
    );
    assert_eq!(paths::required_paths("/", "nvim \"/\""), vec!["/"]);
}

#[test]
fn command_word_flags_and_operators_are_not_paths() {
    assert_eq!(paths::required_paths("/", "/ -x / && / | /"), vec!["/", "/", "/"]);
    assert_eq!(paths::required_paths("/", "cd . && cd .. && ls"), Vec::<String>::new());
    assert_eq!(paths::required_paths("/", "echo $(ls /) `ls /`"), Vec::<String>::new());
}

#[test]
fn valid_checks_absolute_paths() {
    assert!(paths::valid("/seasalt-no-such-dir", "/"));
    assert!(paths::valid("/seasalt-no-such-dir", ""));
    assert!(!paths::valid("/", "seasalt-no-such-dir"));
    assert!(!paths::valid("/", "/\0/seasalt-no-such-dir"));
}

#[test]
fn split_words_follows_shell_quoting() {
    let w = |s: &str| paths::split_words(s);
    let v = |xs: &[&str]| Some(xs.iter().map(|x| x.to_string()).collect::<Vec<_>>());
    assert_eq!(w("nvim  a.txt\tb.txt"), v(&["nvim", "a.txt", "b.txt"]));
    assert_eq!(w("nvim \"my file.txt\""), v(&["nvim", "my file.txt"]));
    assert_eq!(w("echo 'a b'c"), v(&["echo", "a bc"]));
    assert_eq!(w("echo \"\\$x \\q\""), v(&["echo", "$x \\q"]));
    assert_eq!(w("nvim 'a\\'b.txt'"), v(&["nvim", "a'b.txt"]));
    assert_eq!(w("ls # a comment"), v(&["ls"]));
    assert_eq!(w("echo a\\\nb"), v(&["echo", "ab"]));
    assert_eq!(w(""), v(&[]));
    assert_eq!(w("echo \"open"), None);
    assert_eq!(w("echo trailing\\"), None);
}

#[test]
fn resolve_joins_relative_paths() {
    assert_eq!(paths::resolve("/tmp/x", "a.txt"), "/tmp/x/a.txt");
    assert_eq!(paths::resolve("/tmp/x/", "a.txt"), "/tmp/x/a.txt");
    assert_eq!(paths::resolve("/tmp/x", "/etc/hosts"), "/etc/hosts");
    assert_eq!(paths::resolve("", "a.txt"), "a.txt");
}

#[test]
fn is_operator_knows_shell_operators() {
    for op in ["|", "||", "|&", "&&", "&", ";", ";;", "<", ">", ">>", "<<", "(", ")", "{", "}", "!", "$"] {
        assert!(paths::is_operator(op), "{op}");
    }
    for tok in ["a", "&&&", "-", "<>", ""] {
        assert!(!paths::is_operator(tok), "{tok}");
    }
}

#[test]
fn unsplittable_command_requires_no_paths() {
    assert_eq!(paths::required_paths("/", "nvim \"/etc"), Vec::<String>::new());
}

#[test]
fn valid_ignores_empty_pieces() {
    assert!(paths::valid("/", "\0\0"));
    assert!(!paths::valid("/", "\0/seasalt-no-such-dir/x\0"));
}
