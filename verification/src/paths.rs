//! The files that a recorded command depends on, and whether they still exist.
//!
//! A command is split into words with shell quoting rules: words are separated
//! by spaces, tabs and newlines; `'...'` and `"..."` quote; a backslash escapes
//! the next character (inside single quotes too, where `\'` and `\\` stand for
//! `'` and `\`); `#` at the start of a word comments out the rest of the line.

use vstd::prelude::*;
use crate::text::{char_views, chars_of, joined, string_of, string_views};

verus! {

/// Where the word splitter stands after reading a prefix of a command.
pub enum LexMode {
    /// Between words.
    Between,
    /// Inside a `#` comment.
    Comment,
    /// Inside an unquoted part of a word.
    Word,
    /// Right after a backslash in an unquoted part.
    WordEscape,
    /// Inside double quotes.
    Double,
    /// Right after a backslash inside double quotes.
    DoubleEscape,
    /// Inside single quotes.
    Single,
    /// Right after a backslash inside single quotes.
    SingleEscape,
}

/// The characters that separate words.
pub open spec fn is_word_sep(c: char) -> bool {
    c == ' ' || c == '\t' || c == '\n'
}

/// The splitter's state: its mode, the word being read, and the finished words.
pub type LexState = (LexMode, Seq<char>, Seq<Seq<char>>);

/// Reading `c` inside (or at the start of) an unquoted part of the word `cur`.
pub open spec fn word_char(cur: Seq<char>, words: Seq<Seq<char>>, c: char) -> LexState {
    if c == '"' {
        (LexMode::Double, cur, words)
    } else if c == '\'' {
        (LexMode::Single, cur, words)
    } else if c == '\\' {
        (LexMode::WordEscape, cur, words)
    } else if is_word_sep(c) {
        (LexMode::Between, seq![], words.push(cur))
    } else {
        (LexMode::Word, cur.push(c), words)
    }
}

/// One character of the splitter.
pub open spec fn lex_step(st: LexState, c: char) -> LexState {
    let cur = st.1;
    let words = st.2;
    match st.0 {
        LexMode::Between => {
            if is_word_sep(c) {
                (LexMode::Between, seq![], words)
            } else if c == '#' {
                (LexMode::Comment, seq![], words)
            } else {
                word_char(seq![], words, c)
            }
        },
        LexMode::Comment => {
            if c == '\n' {
                (LexMode::Between, seq![], words)
            } else {
                (LexMode::Comment, seq![], words)
            }
        },
        LexMode::Word => word_char(cur, words, c),
        LexMode::WordEscape => {
            if c == '\n' {
                (LexMode::Word, cur, words)
            } else {
                (LexMode::Word, cur.push(c), words)
            }
        },
        LexMode::Double => {
            if c == '\\' {
                (LexMode::DoubleEscape, cur, words)
            } else if c == '"' {
                (LexMode::Word, cur, words)
            } else {
                (LexMode::Double, cur.push(c), words)
            }
        },
        LexMode::DoubleEscape => {
            if c == '$' || c == '`' || c == '"' || c == '\\' {
                (LexMode::Double, cur.push(c), words)
            } else if c == '\n' {
                (LexMode::Double, cur, words)
            } else {
                (LexMode::Double, cur.push('\\').push(c), words)
            }
        },
        LexMode::Single => {
            if c == '\'' {
                (LexMode::Word, cur, words)
            } else if c == '\\' {
                (LexMode::SingleEscape, cur, words)
            } else {
                (LexMode::Single, cur.push(c), words)
            }
        },
        LexMode::SingleEscape => {
            if c == '\'' || c == '\\' {
                (LexMode::Single, cur.push(c), words)
            } else {
                (LexMode::Single, cur.push('\\').push(c), words)
            }
        },
    }
}

/// The splitter's state after reading the first `n` characters of `s`.
pub open spec fn lex_prefix(s: Seq<char>, n: nat) -> LexState
    decreases n,
{
    if n == 0 {
        (LexMode::Between, seq![], seq![])
    } else {
        lex_step(lex_prefix(s, (n - 1) as nat), s[n - 1])
    }
}

/// The words of a command, or `None` when it ends inside quotes or right
/// after a backslash.
pub open spec fn shell_words(s: Seq<char>) -> Option<Seq<Seq<char>>> {
    let st = lex_prefix(s, s.len());
    match st.0 {
        LexMode::Between => Some(st.2),
        LexMode::Comment => Some(st.2),
        LexMode::Word => Some(st.2.push(st.1)),
        _ => None,
    }
}

/// Reads one character: the executable form of `lex_step`.
fn lex_char(mode: LexMode, cur: &mut Vec<char>, words: &mut Vec<Vec<char>>, c: char) -> (next:
    LexMode)
    requires
        mode is Between || mode is Comment ==> old(cur)@.len() == 0,
    ensures
        (next, final(cur)@, char_views(final(words)@)) == lex_step(
            (mode, old(cur)@, char_views(old(words)@)),
            c,
        ),
{
    let ghost w0 = char_views(words@);
    match mode {
        LexMode::Between => {
            if c == ' ' || c == '\t' || c == '\n' {
                LexMode::Between
            } else if c == '#' {
                LexMode::Comment
            } else {
                word_char_exec(cur, words, c)
            }
        },
        LexMode::Comment => {
            if c == '\n' {
                LexMode::Between
            } else {
                LexMode::Comment
            }
        },
        LexMode::Word => word_char_exec(cur, words, c),
        LexMode::WordEscape => {
            if c != '\n' {
                cur.push(c);
            }
            LexMode::Word
        },
        LexMode::Double => {
            if c == '\\' {
                LexMode::DoubleEscape
            } else if c == '"' {
                LexMode::Word
            } else {
                cur.push(c);
                LexMode::Double
            }
        },
        LexMode::DoubleEscape => {
            if c == '$' || c == '`' || c == '"' || c == '\\' {
                cur.push(c);
            } else if c != '\n' {
                cur.push('\\');
                cur.push(c);
            }
            LexMode::Double
        },
        LexMode::Single => {
            if c == '\'' {
                LexMode::Word
            } else if c == '\\' {
                LexMode::SingleEscape
            } else {
                cur.push(c);
                LexMode::Single
            }
        },
        LexMode::SingleEscape => {
            if c == '\'' || c == '\\' {
                cur.push(c);
            } else {
                cur.push('\\');
                cur.push(c);
            }
            LexMode::Single
        },
    }
}

/// The executable form of `word_char`.
fn word_char_exec(cur: &mut Vec<char>, words: &mut Vec<Vec<char>>, c: char) -> (next: LexMode)
    ensures
        (next, final(cur)@, char_views(final(words)@)) == word_char(
            old(cur)@,
            char_views(old(words)@),
            c,
        ),
{
    if c == '"' {
        LexMode::Double
    } else if c == '\'' {
        LexMode::Single
    } else if c == '\\' {
        LexMode::WordEscape
    } else if c == ' ' || c == '\t' || c == '\n' {
        let mut done: Vec<char> = Vec::new();
        std::mem::swap(&mut done, cur);
        let ghost before = words@;
        words.push(done);
        proof {
            assert(char_views(words@) =~= char_views(before).push(done@));
            assert(cur@ =~= Seq::<char>::empty());
        }
        LexMode::Between
    } else {
        cur.push(c);
        LexMode::Word
    }
}

/// Splits a command into its words (see the module documentation for the
/// quoting rules); `None` when the command ends inside quotes or right after
/// a backslash.
pub fn split_words(cmd: &str) -> (r: Option<Vec<String>>)
    ensures
        match r {
            Some(ws) => shell_words(cmd@) == Some(string_views(ws@)),
            None => shell_words(cmd@) is None,
        },
{
    match lex_words(&chars_of(cmd)) {
        None => None,
        Some(ws) => {
            let mut out: Vec<String> = Vec::new();
            let mut i: usize = 0;
            while i < ws.len()
                invariant
                    i <= ws.len(),
                    string_views(out@) =~= char_views(ws@).subrange(0, i as int),
                decreases ws.len() - i,
            {
                let w = string_of(ws[i].as_slice());
                let ghost before = out@;
                out.push(w);
                proof {
                    assert(string_views(out@) =~= string_views(before).push(w@));
                }
                i = i + 1;
            }
            proof {
                assert(char_views(ws@).subrange(0, ws.len() as int) =~= char_views(ws@));
            }
            Some(out)
        },
    }
}

/// The words of the command whose characters are `cs`.
fn lex_words(cs: &Vec<char>) -> (r: Option<Vec<Vec<char>>>)
    ensures
        match r {
            Some(ws) => shell_words(cs@) == Some(char_views(ws@)),
            None => shell_words(cs@) is None,
        },
{
    let mut mode = LexMode::Between;
    let mut cur: Vec<char> = Vec::new();
    let mut words: Vec<Vec<char>> = Vec::new();
    let mut i: usize = 0;
    while i < cs.len()
        invariant
            i <= cs.len(),
            (mode, cur@, char_views(words@)) == lex_prefix(cs@, i as nat),
            mode is Between || mode is Comment ==> cur@.len() == 0,
        decreases cs.len() - i,
    {
        mode = lex_char(mode, &mut cur, &mut words, cs[i]);
        proof {
            lemma_lex_modes_clear(lex_prefix(cs@, i as nat), cs@[i as int]);
        }
        i = i + 1;
    }
    match mode {
        LexMode::Between => Some(words),
        LexMode::Comment => Some(words),
        LexMode::Word => {
            let ghost before = words@;
            words.push(cur);
            proof {
                assert(char_views(words@) =~= char_views(before).push(cur@));
            }
            Some(words)
        },
        _ => None,
    }
}

proof fn lemma_lex_modes_clear(st: LexState, c: char)
    ensures
        ({
            let n = lex_step(st, c);
            n.0 is Between || n.0 is Comment ==> n.1.len() == 0
        }),
{
}

/// Whether a word is one of the shell operators
/// `| || |& && & ; ;; < > >> << ( ) { } ! $`.
pub open spec fn is_operator_word(t: Seq<char>) -> bool {
    ||| t.len() == 1 && (t[0] == '|' || t[0] == '&' || t[0] == ';' || t[0] == '<' || t[0] == '>'
        || t[0] == '(' || t[0] == ')' || t[0] == '{' || t[0] == '}' || t[0] == '!' || t[0] == '$')
    ||| t.len() == 2 && ((t[0] == '|' && t[1] == '|') || (t[0] == '|' && t[1] == '&') || (t[0]
        == '&' && t[1] == '&') || (t[0] == ';' && t[1] == ';') || (t[0] == '>' && t[1] == '>') || (
    t[0] == '<' && t[1] == '<'))
}

/// Whether `tok` is one of the shell operators.
pub fn is_operator(tok: &str) -> (r: bool)
    ensures
        r == is_operator_word(tok@),
{
    let t = chars_of(tok);
    if t.len() == 1 {
        let a = t[0];
        a == '|' || a == '&' || a == ';' || a == '<' || a == '>' || a == '(' || a == ')' || a == '{'
            || a == '}' || a == '!' || a == '$'
    } else if t.len() == 2 {
        let a = t[0];
        let b = t[1];
        (a == '|' && b == '|') || (a == '|' && b == '&') || (a == '&' && b == '&') || (a == ';' && b
            == ';') || (a == '>' && b == '>') || (a == '<' && b == '<')
    } else {
        false
    }
}

/// Whether `t` holds the two characters `a b` next to each other.
pub open spec fn has_pair(t: Seq<char>, a: char, b: char) -> bool {
    exists|i: int| #![trigger t[i]] 0 <= i && i + 1 < t.len() && t[i] == a && t[i + 1] == b
}

/// Whether `t` is `.`, `..`, `./` or `../`.
pub open spec fn is_dot_dir(t: Seq<char>) -> bool {
    ||| t == seq!['.']
    ||| t == seq!['.', '.']
    ||| t == seq!['.', '/']
    ||| t == seq!['.', '.', '/']
}

/// Whether an argument word may name a file: it is not empty, not a flag, not
/// an operator, holds no command substitution, and is not `.`/`..`.
pub open spec fn may_be_path(t: Seq<char>) -> bool {
    &&& t.len() > 0
    &&& t[0] != '-'
    &&& !is_operator_word(t)
    &&& !has_pair(t, '$', '(')
    &&& !t.contains('`')
    &&& !is_dot_dir(t)
}

/// The argument words (all but the first) of `words` from index `i` on that
/// may name a file, in order.
pub open spec fn candidates_from(words: Seq<Seq<char>>, i: int) -> Seq<Seq<char>>
    decreases words.len() - i,
{
    if i >= words.len() || i < 0 {
        seq![]
    } else {
        let rest = candidates_from(words, i + 1);
        if i >= 1 && may_be_path(words[i]) {
            seq![words[i]].add(rest)
        } else {
            rest
        }
    }
}

/// The words of `cmd` that may name a file (none when `cmd` does not split).
pub open spec fn path_candidates(cmd: Seq<char>) -> Seq<Seq<char>> {
    match shell_words(cmd) {
        Some(ws) => candidates_from(ws, 0),
        None => seq![],
    }
}

/// Whether the argument word `t` may name a file.
fn may_be_path_exec(t: &Vec<char>) -> (r: bool)
    ensures
        r == may_be_path(t@),
{
    if t.len() == 0 || t[0] == '-' {
        return false;
    }
    let s = string_of(t.as_slice());
    if is_operator(s.as_str()) {
        return false;
    }
    let mut i: usize = 0;
    while i < t.len()
        invariant
            i <= t.len(),
            forall|j: int| 0 <= j < i ==> t@[j] != '`',
            forall|j: int| #![trigger t@[j]] 0 <= j < i && j + 1 < t.len() ==> !(t@[j] == '$' && t@[j + 1] == '('),
        decreases t.len() - i,
    {
        if t[i] == '`' {
            return false;
        }
        if i + 1 < t.len() && t[i] == '$' && t[i + 1] == '(' {
            return false;
        }
        i = i + 1;
    }
    let n: usize = t.len();
    let dot = (n == 1 && t[0] == '.') || (n == 2 && t[0] == '.' && t[1] == '.') || (n == 2 && t[0]
        == '.' && t[1] == '/') || (n == 3 && t[0] == '.' && t[1] == '.' && t[2] == '/');
    proof {
        if dot {
            assert(is_dot_dir(t@)) by {
                if n == 1 {
                    assert(t@ =~= seq!['.']);
                } else if n == 2 && t@[1] == '.' {
                    assert(t@ =~= seq!['.', '.']);
                } else if n == 2 {
                    assert(t@ =~= seq!['.', '/']);
                } else {
                    assert(t@ =~= seq!['.', '.', '/']);
                }
            }
        }
    }
    !dot
}

/// The words of `cmd` that may name a file, as character vectors.
fn candidate_words(cmd: &str) -> (r: Vec<Vec<char>>)
    ensures
        char_views(r@) == path_candidates(cmd@),
{
    let cs = chars_of(cmd);
    match lex_words(&cs) {
        None => {
            let r: Vec<Vec<char>> = Vec::new();
            proof {
                assert(char_views(r@) =~= Seq::<Seq<char>>::empty());
            }
            r
        },
        Some(ws) => {
            let ghost wv = char_views(ws@);
            let mut out: Vec<Vec<char>> = Vec::new();
            let mut k: usize = ws.len();
            while k > 0
                invariant
                    k <= ws.len(),
                    wv == char_views(ws@),
                    char_views(out@).reverse() =~= candidates_from(wv, k as int),
                decreases k,
            {
                k = k - 1;
                let ghost before = out@;
                if k >= 1 && may_be_path_exec(&ws[k]) {
                    out.push(ws[k].clone());
                    proof {
                        assert(char_views(out@) =~= char_views(before).push(wv[k as int]));
                    }
                }
                proof {
                    assert(char_views(out@).reverse() =~= candidates_from(wv, k as int));
                }
            }
            let mut r: Vec<Vec<char>> = Vec::new();
            let mut j: usize = out.len();
            while j > 0
                invariant
                    j <= out.len(),
                    char_views(r@) =~= char_views(out@).reverse().subrange(0, out.len() - j),
                decreases j,
            {
                j = j - 1;
                let ghost before = r@;
                r.push(out[j].clone());
                proof {
                    assert(char_views(r@) =~= char_views(before).push(out@[j as int]@));
                }
            }
            r
        },
    }
}

/// The path that `path` names when read from the directory `cwd`: an absolute
/// path stands as it is; a relative one is joined to `cwd` with one `/`
/// (none when `cwd` is empty or already ends with `/`).
pub open spec fn resolved(cwd: Seq<char>, path: Seq<char>) -> Seq<char> {
    if path.len() > 0 && path[0] == '/' {
        path
    } else if cwd.len() == 0 || cwd.last() == '/' {
        cwd + path
    } else {
        cwd + seq!['/'] + path
    }
}

/// The path that `path` names when read from the directory `cwd`.
pub fn resolve(cwd: &str, path: &str) -> (r: String)
    ensures
        r@ == resolved(cwd@, path@),
{
    let c = chars_of(cwd);
    let p = chars_of(path);
    if p.len() > 0 && p[0] == '/' {
        return string_of(p.as_slice());
    }
    let mut out = c.clone();
    if c.len() > 0 && c[c.len() - 1] != '/' {
        out.push('/');
    }
    let ghost mid = out@;
    let mut i: usize = 0;
    while i < p.len()
        invariant
            i <= p.len(),
            out@ =~= mid + p@.subrange(0, i as int),
        decreases p.len() - i,
    {
        out.push(p[i]);
        i = i + 1;
    }
    proof {
        assert(p@.subrange(0, p.len() as int) =~= p@);
        if c.len() > 0 && c@.last() != '/' {
            assert(mid =~= c@ + seq!['/']);
        } else {
            assert(mid =~= c@);
        }
    }
    string_of(out.as_slice())
}

/// Whether something exists at `path` (`std::path::Path::exists`). The answer
/// depends on the file system at the time of the call, so nothing is promised
/// about it.
#[verifier::external_body]
fn path_exists(path: &str) -> (r: bool) {
    std::path::Path::new(path).exists()
}

/// The file system answered `found` when asked whether something exists at
/// `path` (`Path::exists`). Which answer that is depends on the file system
/// at the time of the call; the predicate records which path was asked.
pub closed spec fn disk_answered(path: Seq<char>, found: bool) -> bool {
    exists|p: &str| #![trigger call_ensures(path_exists, (p,), found)]
        p@ == path && call_ensures(path_exists, (p,), found)
}

/// Asks the file system whether something exists at `path`.
fn look_up(path: &str) -> (found: bool)
    ensures
        disk_answered(path@, found),
{
    let ask = path_exists;
    ask(path)
}

/// The elements of `s` whose flag in `keep` is set, in order.
pub open spec fn select<T>(s: Seq<T>, keep: Seq<bool>) -> Seq<T>
    decreases s.len(),
{
    if s.len() == 0 {
        seq![]
    } else {
        let rest = select(s.drop_last(), keep.drop_last());
        if keep.last() {
            rest.push(s.last())
        } else {
            rest
        }
    }
}

/// The arguments of `cmd` that exist relative to `cwd` at the time of the
/// call. The command word, flags, shell operators, words with command
/// substitutions, `.`/`..` and arguments that name nothing are left out, so
/// `echo hello` or `git push` depend on no file. A command that does not
/// split (open quote, trailing backslash) depends on no file. Each
/// candidate word `w` is kept when the file system says that
/// `resolved(cwd, w)` exists.
pub fn required_paths(cwd: &str, cmd: &str) -> (r: Vec<String>)
    ensures
        exists|keep: Seq<bool>|
            #![trigger select(path_candidates(cmd@), keep)]
            keep.len() == path_candidates(cmd@).len() && string_views(r@) == select(
                path_candidates(cmd@),
                keep,
            ) && forall|k: int|
                0 <= k < keep.len() ==> disk_answered(
                    resolved(cwd@, path_candidates(cmd@)[k]),
                    #[trigger] keep[k],
                ),
{
    let cands = candidate_words(cmd);
    let ghost cv = char_views(cands@);
    let mut out: Vec<String> = Vec::new();
    let ghost mut keep: Seq<bool> = seq![];
    let mut i: usize = 0;
    while i < cands.len()
        invariant
            i <= cands.len(),
            cv == char_views(cands@),
            keep.len() == i,
            string_views(out@) == select(cv.subrange(0, i as int), keep),
            forall|k: int|
                0 <= k < keep.len() ==> disk_answered(resolved(cwd@, cv[k]), #[trigger] keep[k]),
        decreases cands.len() - i,
    {
        let word = string_of(cands[i].as_slice());
        let full = resolve(cwd, word.as_str());
        let found = look_up(full.as_str());
        let ghost before = out@;
        if found {
            out.push(word);
            proof {
                assert(string_views(out@) =~= string_views(before).push(word@));
            }
        }
        proof {
            let nk = keep.push(found);
            assert(cv[i as int] == word@);
            assert(nk[i as int] == found);
            assert(cv.subrange(0, i + 1).drop_last() =~= cv.subrange(0, i as int));
            assert(nk.drop_last() =~= keep);
            keep = nk;
        }
        i = i + 1;
    }
    proof {
        assert(cv.subrange(0, cands.len() as int) =~= cv);
    }
    out
}

/// `s` cut at every occurrence of `sep` (one piece more than there are
/// separators; the empty text gives one empty piece).
pub open spec fn split_on(s: Seq<char>, sep: char) -> Seq<Seq<char>>
    decreases s.len(),
{
    if s.len() == 0 {
        seq![seq![]]
    } else {
        let r = split_on(s.drop_last(), sep);
        if s.last() == sep {
            r.push(seq![])
        } else {
            r.update(r.len() - 1, r.last().push(s.last()))
        }
    }
}

pub(crate) proof fn lemma_split_on_nonempty(s: Seq<char>, sep: char)
    ensures
        split_on(s, sep).len() >= 1,
    decreases s.len(),
{
    if s.len() > 0 {
        lemma_split_on_nonempty(s.drop_last(), sep);
    }
}

/// Whether a NUL-separated list of recorded paths names no file to check
/// (every piece is empty).
pub open spec fn no_checks(paths: Seq<char>) -> bool {
    forall|i: int| 0 <= i < split_on(paths, '\0').len() ==> (#[trigger] split_on(paths, '\0')[i]).len()
        == 0
}

/// The pieces of `cs` between occurrences of `sep`.
fn split_chars(cs: &Vec<char>, sep: char) -> (r: Vec<Vec<char>>)
    ensures
        char_views(r@) == split_on(cs@, sep),
{
    let mut done: Vec<Vec<char>> = Vec::new();
    let mut piece: Vec<char> = Vec::new();
    let mut i: usize = 0;
    while i < cs.len()
        invariant
            i <= cs.len(),
            char_views(done@).push(piece@) == split_on(cs@.subrange(0, i as int), sep),
        decreases cs.len() - i,
    {
        let ghost before = char_views(done@).push(piece@);
        proof {
            assert(cs@.subrange(0, i + 1).drop_last() =~= cs@.subrange(0, i as int));
            lemma_split_on_nonempty(cs@.subrange(0, i as int), sep);
        }
        if cs[i] == sep {
            let mut finished: Vec<char> = Vec::new();
            std::mem::swap(&mut finished, &mut piece);
            let ghost d0 = done@;
            done.push(finished);
            proof {
                assert(char_views(done@) =~= char_views(d0).push(finished@));
                assert(char_views(done@).push(piece@) =~= before.push(seq![]));
            }
        } else {
            let ghost p0 = piece@;
            piece.push(cs[i]);
            proof {
                assert(char_views(done@).push(piece@) =~= before.update(
                    before.len() - 1,
                    before.last().push(cs@[i as int]),
                ));
            }
        }
        i = i + 1;
    }
    proof {
        assert(cs@.subrange(0, cs.len() as int) =~= cs@);
    }
    let ghost d1 = done@;
    done.push(piece);
    proof {
        assert(char_views(done@) =~= char_views(d1).push(piece@));
    }
    done
}

/// The non-empty texts of `s`, in order.
pub open spec fn nonempty_pieces(s: Seq<Seq<char>>) -> Seq<Seq<char>>
    decreases s.len(),
{
    if s.len() == 0 {
        seq![]
    } else {
        let rest = nonempty_pieces(s.drop_last());
        if s.last().len() > 0 {
            rest.push(s.last())
        } else {
            rest
        }
    }
}

/// The paths that `valid` checks: the non-empty NUL-separated pieces of
/// `paths`, each resolved from `cwd`, in order.
pub open spec fn checked_paths_spec(cwd: Seq<char>, paths: Seq<char>) -> Seq<Seq<char>> {
    nonempty_pieces(split_on(paths, '\0')).map_values(|p: Seq<char>| resolved(cwd, p))
}

/// The paths that `valid` checks.
pub fn checked_paths(cwd: &str, paths: &str) -> (r: Vec<String>)
    ensures
        string_views(r@) == checked_paths_spec(cwd@, paths@),
{
    let pieces = split_chars(&chars_of(paths), '\0');
    let ghost pv = char_views(pieces@);
    let mut out: Vec<String> = Vec::new();
    let mut i: usize = 0;
    while i < pieces.len()
        invariant
            i <= pieces.len(),
            pv == char_views(pieces@),
            pv == split_on(paths@, '\0'),
            string_views(out@) == nonempty_pieces(pv.subrange(0, i as int)).map_values(
                |p: Seq<char>| resolved(cwd@, p),
            ),
        decreases pieces.len() - i,
    {
        let ghost before = out@;
        proof {
            assert(pv.subrange(0, i + 1).drop_last() =~= pv.subrange(0, i as int));
            assert(pv.subrange(0, i + 1).last() == pv[i as int]);
            assert(pv[i as int] == pieces@[i as int]@);
        }
        if pieces[i].len() > 0 {
            let p = string_of(pieces[i].as_slice());
            let full = resolve(cwd, p.as_str());
            out.push(full);
            proof {
                assert(string_views(out@) =~= string_views(before).push(full@));
                assert(nonempty_pieces(pv.subrange(0, i + 1)) == nonempty_pieces(
                    pv.subrange(0, i as int),
                ).push(pv[i as int]));
                assert(string_views(out@) =~= nonempty_pieces(pv.subrange(0, i + 1)).map_values(
                    |p: Seq<char>| resolved(cwd@, p),
                ));
            }
        } else {
            proof {
                assert(nonempty_pieces(pv.subrange(0, i + 1)) == nonempty_pieces(
                    pv.subrange(0, i as int),
                ));
            }
        }
        i = i + 1;
    }
    proof {
        assert(pv.subrange(0, pieces.len() as int) =~= pv);
    }
    out
}

proof fn lemma_no_checks_nothing_checked(s: Seq<Seq<char>>)
    requires
        forall|i: int| 0 <= i < s.len() ==> (#[trigger] s[i]).len() == 0,
    ensures
        nonempty_pieces(s).len() == 0,
    decreases s.len(),
{
    if s.len() > 0 {
        assert(s.last() == s[s.len() - 1]);
        lemma_no_checks_nothing_checked(s.drop_last());
    }
}

/// A run of `valid` over the paths `checked`: the file system was asked
/// about them in order and `answers` are its answers; asking stopped at the
/// first path that does not exist. `r` is whether every path exists.
pub open spec fn valid_run(checked: Seq<Seq<char>>, answers: Seq<bool>, r: bool) -> bool {
    &&& answers.len() <= checked.len()
    &&& forall|k: int| 0 <= k < answers.len() ==> disk_answered(checked[k], #[trigger] answers[k])
    &&& forall|k: int| 0 <= k < answers.len() - 1 ==> #[trigger] answers[k]
    &&& r ==> answers.len() == checked.len() && forall|k: int|
        0 <= k < answers.len() ==> #[trigger] answers[k]
    &&& !r ==> answers.len() > 0 && !answers.last()
}

/// Whether every recorded path (NUL-separated in `paths`, empty pieces
/// ignored) exists relative to the current directory `cwd`. A list that
/// names no file is always valid; for the others the paths of
/// `checked_paths` are asked about in order, and the answer is `false` at
/// the first one that the file system says does not exist.
pub fn valid(cwd: &str, paths: &str) -> (r: bool)
    ensures
        no_checks(paths@) ==> r,
        exists|answers: Seq<bool>|
            #[trigger] valid_run(checked_paths_spec(cwd@, paths@), answers, r),
{
    let checked = checked_paths(cwd, paths);
    let ghost cv = string_views(checked@);
    proof {
        if no_checks(paths@) {
            lemma_no_checks_nothing_checked(split_on(paths@, '\0'));
        }
    }
    let ghost mut answers: Seq<bool> = seq![];
    let mut i: usize = 0;
    while i < checked.len()
        invariant
            i <= checked.len(),
            cv == string_views(checked@),
            cv == checked_paths_spec(cwd@, paths@),
            no_checks(paths@) ==> cv.len() == 0,
            answers.len() == i,
            forall|k: int| 0 <= k < answers.len() ==> disk_answered(cv[k], #[trigger] answers[k]),
            forall|k: int| 0 <= k < answers.len() ==> #[trigger] answers[k],
        decreases checked.len() - i,
    {
        let found = look_up(checked[i].as_str());
        proof {
            assert(cv[i as int] == checked@[i as int]@);
            answers = answers.push(found);
            assert(answers[i as int] == found);
        }
        if !found {
            proof {
                assert(answers.last() == found);
                assert(valid_run(cv, answers, false));
            }
            return false;
        }
        i = i + 1;
    }
    proof {
        assert(valid_run(cv, answers, true));
    }
    true
}

proof fn lemma_split_concat(p: Seq<char>, q: Seq<char>, sep: char)
    ensures
        split_on(p + seq![sep] + q, sep) == split_on(p, sep) + split_on(q, sep),
    decreases q.len(),
{
    lemma_split_on_nonempty(p, sep);
    if q.len() == 0 {
        assert(p + seq![sep] + q =~= p.push(sep));
        assert((p + seq![sep] + q).drop_last() =~= p);
        assert(split_on(q, sep) =~= seq![seq![]]);
        assert(split_on(p, sep).push(seq![]) =~= split_on(p, sep) + seq![seq![]]);
    } else {
        let t = p + seq![sep] + q;
        assert(t.drop_last() =~= p + seq![sep] + q.drop_last());
        lemma_split_concat(p, q.drop_last(), sep);
        lemma_split_on_nonempty(q.drop_last(), sep);
        let a = split_on(p, sep);
        let b = split_on(q.drop_last(), sep);
        assert(t.last() == q.last());
        if q.last() == sep {
            assert((a + b).push(seq![]) =~= a + b.push(seq![]));
        } else {
            assert((a + b).update((a + b).len() - 1, (a + b).last().push(q.last())) =~= a
                + b.update(b.len() - 1, b.last().push(q.last())));
        }
    }
}

proof fn lemma_split_plain(x: Seq<char>, sep: char)
    requires
        !x.contains(sep),
    ensures
        split_on(x, sep) == seq![x],
    decreases x.len(),
{
    if x.len() > 0 {
        assert(!x.drop_last().contains(sep)) by {
            if x.drop_last().contains(sep) {
                let k: int = choose|k: int| 0 <= k < x.drop_last().len() && x.drop_last()[k] == sep;
                assert(x[k] == sep);
            }
        }
        lemma_split_plain(x.drop_last(), sep);
        assert(x.last() != sep) by {
            assert(x[x.len() - 1] == x.last());
        }
        assert(x.drop_last().push(x.last()) =~= x);
    } else {
        assert(x =~= Seq::<char>::empty());
    }
}


/// Joining pieces with a separator that none of them holds and cutting the
/// result at that separator gives the pieces back. (The recorded paths of a
/// command are stored joined with NUL and cut again when checked.)
pub proof fn joined_pieces_split_back(pieces: Seq<Seq<char>>, sep: char)
    requires
        pieces.len() >= 1,
        forall|i: int| 0 <= i < pieces.len() ==> !(#[trigger] pieces[i]).contains(sep),
    ensures
        split_on(joined(pieces, sep), sep) == pieces,
    decreases pieces.len(),
{
    lemma_split_plain(pieces.last(), sep);
    if pieces.len() == 1 {
        assert(seq![pieces[0]] =~= pieces);
    } else {
        joined_pieces_split_back(pieces.drop_last(), sep);
        lemma_split_concat(joined(pieces.drop_last(), sep), pieces.last(), sep);
        assert(pieces.drop_last() + seq![pieces.last()] =~= pieces);
    }
}


/// The splitter's state holds no NUL character, neither in the word being
/// read nor in the finished words.
pub open spec fn lex_nul_free(st: LexState) -> bool {
    &&& !st.1.contains('\0')
    &&& forall|i: int| 0 <= i < st.2.len() ==> !(#[trigger] st.2[i]).contains('\0')
}

proof fn lemma_push_nul_free(w: Seq<char>, c: char)
    requires
        !w.contains('\0'),
        c != '\0',
    ensures
        !w.push(c).contains('\0'),
{
    if w.push(c).contains('\0') {
        let k = choose|k: int| 0 <= k < w.push(c).len() && w.push(c)[k] == '\0';
        if k < w.len() {
            assert(w[k] == '\0');
        }
    }
}

proof fn lemma_lex_nul_free(s: Seq<char>, n: nat)
    requires
        n <= s.len(),
        !s.contains('\0'),
    ensures
        lex_nul_free(lex_prefix(s, n)),
    decreases n,
{
    if n > 0 {
        lemma_lex_nul_free(s, (n - 1) as nat);
        let st = lex_prefix(s, (n - 1) as nat);
        let c = s[n - 1];
        assert(c != '\0') by {
            if c == '\0' {
                assert(s.contains('\0'));
            }
        }
        lemma_push_nul_free(st.1, c);
        lemma_push_nul_free(st.1, '\\');
        lemma_push_nul_free(st.1.push('\\'), c);
        assert(!Seq::<char>::empty().contains('\0'));
        let words = st.2;
        assert forall|i: int| 0 <= i < words.push(st.1).len() implies !(#[trigger] words.push(
            st.1,
        )[i]).contains('\0') by {
            if i < words.len() {
                assert(words.push(st.1)[i] == words[i]);
            }
        }
        assert(lex_nul_free(lex_step(st, c)));
    }
}

proof fn lemma_candidates_nul_free(ws: Seq<Seq<char>>, i: int)
    requires
        forall|j: int| 0 <= j < ws.len() ==> !(#[trigger] ws[j]).contains('\0'),
    ensures
        forall|k: int|
            0 <= k < candidates_from(ws, i).len() ==> may_be_path(
                #[trigger] candidates_from(ws, i)[k],
            ) && !candidates_from(ws, i)[k].contains('\0'),
    decreases ws.len() - i,
{
    if i < ws.len() && i >= 0 {
        lemma_candidates_nul_free(ws, i + 1);
        let rest = candidates_from(ws, i + 1);
        if i >= 1 && may_be_path(ws[i]) {
            assert forall|k: int|
                0 <= k < candidates_from(ws, i).len() implies may_be_path(
                #[trigger] candidates_from(ws, i)[k],
            ) && !candidates_from(ws, i)[k].contains('\0') by {
                if k > 0 {
                    assert(candidates_from(ws, i)[k] == rest[k - 1]);
                }
            }
        }
    }
}

/// Every word that `required_paths` considers is non-empty, and holds no
/// NUL when the command holds none.
proof fn lemma_path_candidates_nul_free(cmd: Seq<char>)
    requires
        !cmd.contains('\0'),
    ensures
        forall|k: int|
            0 <= k < path_candidates(cmd).len() ==> (#[trigger] path_candidates(cmd)[k]).len() > 0
                && !path_candidates(cmd)[k].contains('\0'),
{
    lemma_lex_nul_free(cmd, cmd.len());
    let st = lex_prefix(cmd, cmd.len());
    if let Some(ws) = shell_words(cmd) {
        assert forall|j: int| 0 <= j < ws.len() implies !(#[trigger] ws[j]).contains('\0') by {
            if st.0 is Word && j == st.2.len() {
                assert(ws[j] == st.1);
            } else {
                assert(ws[j] == st.2[j]);
            }
        }
        lemma_candidates_nul_free(ws, 0);
    }
}

/// `x` is an element of `s` whose flag in `keep` is set.
pub open spec fn kept_at<T>(s: Seq<T>, keep: Seq<bool>, x: T) -> bool {
    exists|k: int| 0 <= k < s.len() && keep[k] && s[k] == x
}

/// Each element of `select(s, keep)` is an element of `s` whose flag is set.
proof fn lemma_select_kept<T>(s: Seq<T>, keep: Seq<bool>)
    requires
        keep.len() == s.len(),
    ensures
        forall|m: int|
            0 <= m < select(s, keep).len() ==> kept_at(s, keep, #[trigger] select(s, keep)[m]),
    decreases s.len(),
{
    if s.len() > 0 {
        let s0 = s.drop_last();
        let k0 = keep.drop_last();
        lemma_select_kept(s0, k0);
        let rest = select(s0, k0);
        assert forall|m: int| 0 <= m < select(s, keep).len() implies kept_at(
            s,
            keep,
            #[trigger] select(s, keep)[m],
        ) by {
            if m < rest.len() {
                assert(select(s, keep)[m] == rest[m]);
                assert(kept_at(s0, k0, rest[m]));
                let k = choose|k: int| 0 <= k < s0.len() && k0[k] && s0[k] == rest[m];
                assert(s0[k] == s[k]);
                assert(k0[k] == keep[k]);
            } else {
                assert(keep[s.len() - 1] && s[s.len() - 1] == select(s, keep)[m]);
            }
        }
    }
}

proof fn lemma_nonempty_pieces_all(s: Seq<Seq<char>>)
    requires
        forall|i: int| 0 <= i < s.len() ==> (#[trigger] s[i]).len() > 0,
    ensures
        nonempty_pieces(s) == s,
    decreases s.len(),
{
    if s.len() > 0 {
        assert(s.last() == s[s.len() - 1]);
        lemma_nonempty_pieces_all(s.drop_last());
        assert(s.drop_last().push(s.last()) =~= s);
    }
}

/// A command's recorded paths stay valid while its files are there: when
/// `required_paths(cwd, cmd)` kept the words flagged by `keep` (the file
/// system's answers for their resolved paths), and every path it found
/// still exists, `valid(cwd, p)` on those words joined with NUL answers
/// `true`, whatever run of `valid` gave `r`.
pub proof fn recorded_paths_stay_valid(
    cwd: Seq<char>,
    cmd: Seq<char>,
    keep: Seq<bool>,
    answers: Seq<bool>,
    r: bool,
)
    requires
        !cmd.contains('\0'),
        keep.len() == path_candidates(cmd).len(),
        forall|k: int|
            0 <= k < keep.len() ==> disk_answered(
                resolved(cwd, path_candidates(cmd)[k]),
                #[trigger] keep[k],
            ),
        forall|k: int, b: bool|
            0 <= k < keep.len() && keep[k] && #[trigger] disk_answered(
                resolved(cwd, path_candidates(cmd)[k]),
                b,
            ) ==> b,
        valid_run(
            checked_paths_spec(cwd, joined(select(path_candidates(cmd), keep), '\0')),
            answers,
            r,
        ),
    ensures
        r,
{
    let cands = path_candidates(cmd);
    let kept = select(cands, keep);
    lemma_path_candidates_nul_free(cmd);
    lemma_select_kept(cands, keep);
    assert forall|m: int| 0 <= m < kept.len() implies (#[trigger] kept[m]).len() > 0
        && !kept[m].contains('\0') by {
        assert(kept_at(cands, keep, kept[m]));
        let k = choose|k: int| 0 <= k < cands.len() && keep[k] && cands[k] == kept[m];
        assert(cands[k].len() > 0 && !cands[k].contains('\0'));
    }
    if kept.len() >= 1 {
        joined_pieces_split_back(kept, '\0');
        lemma_nonempty_pieces_all(kept);
    } else {
        assert(joined(kept, '\0') =~= Seq::<char>::empty());
        assert(split_on(Seq::<char>::empty(), '\0') == seq![Seq::<char>::empty()]);
        assert(nonempty_pieces(seq![Seq::<char>::empty()]) =~= Seq::<Seq<char>>::empty()) by {
            let one = seq![Seq::<char>::empty()];
            assert(one.drop_last() =~= Seq::<Seq<char>>::empty());
            assert(nonempty_pieces(Seq::<Seq<char>>::empty()) == Seq::<Seq<char>>::empty());
            assert(one.last().len() == 0);
        }
    }
    let checked = checked_paths_spec(cwd, joined(kept, '\0'));
    assert(checked == kept.map_values(|p: Seq<char>| resolved(cwd, p)));
    if !r {
        let m = answers.len() - 1;
        assert(answers[m] == answers.last());
        assert(disk_answered(checked[m], answers[m]));
        assert(kept_at(cands, keep, kept[m]));
        let k = choose|k: int| 0 <= k < cands.len() && keep[k] && cands[k] == kept[m];
        assert(checked[m] == resolved(cwd, cands[k]));
        assert(disk_answered(resolved(cwd, cands[k]), answers[m]));
    }
}


/// Whether `c` stands for itself in an unquoted word: it separates nothing,
/// opens no quote and escapes nothing.
pub open spec fn plain_char(c: char) -> bool {
    !is_word_sep(c) && c != '"' && c != '\'' && c != '\\'
}

/// The splitter's state after the first `n` characters of
/// `w + ['\\', c] + v` (see `backslash_makes_next_char_literal`).
spec fn escape_state(w: Seq<char>, c: char, v: Seq<char>, n: nat) -> LexState {
    if n == 0 {
        (LexMode::Between, seq![], seq![])
    } else if n <= w.len() {
        (LexMode::Word, w.subrange(0, n as int), seq![])
    } else if n == w.len() + 1 {
        (LexMode::WordEscape, w, seq![])
    } else {
        (LexMode::Word, w.push(c) + v.subrange(0, n - w.len() - 2), seq![])
    }
}

proof fn lemma_escape_prefix(w: Seq<char>, c: char, v: Seq<char>, n: nat)
    requires
        forall|i: int| 0 <= i < w.len() ==> plain_char(#[trigger] w[i]),
        forall|i: int| 0 <= i < v.len() ==> plain_char(#[trigger] v[i]),
        w.len() > 0 ==> w[0] != '#',
        c != '\n',
        n <= w.len() + 2 + v.len(),
    ensures
        lex_prefix(w + seq!['\\', c] + v, n) == escape_state(w, c, v, n),
    decreases n,
{
    let s = w + seq!['\\', c] + v;
    if n > 0 {
        lemma_escape_prefix(w, c, v, (n - 1) as nat);
        let x = s[n - 1];
        if n <= w.len() {
            assert(x == w[n - 1]);
            assert(plain_char(w[n - 1]));
            assert(w.subrange(0, n as int) =~= w.subrange(0, n - 1).push(x));
            if n == 1 {
                assert(w.subrange(0, 1) =~= seq![x]);
            }
        } else if n == w.len() + 1 {
            assert(x == '\\');
            assert(w.subrange(0, w.len() as int) =~= w);
            if w.len() == 0 {
                assert(w =~= Seq::<char>::empty());
            }
        } else if n == w.len() + 2 {
            assert(x == c);
            assert(w.push(c) + v.subrange(0, 0) =~= w.push(c));
        } else {
            let j = n - w.len() - 2;
            assert(x == v[j - 1]);
            assert(plain_char(v[j - 1]));
            assert(w.push(c) + v.subrange(0, j) =~= (w.push(c) + v.subrange(0, j - 1)).push(x));
        }
    }
}

/// Outside quotes a backslash makes the character after it (other than a
/// newline) part of the word, and is itself dropped: a word made of plain
/// characters, then `\` and `c`, then more plain characters, splits into the
/// single word with `c` in the backslash's place. (So `my\ notes.txt` is the
/// one word `my notes.txt`.)
pub proof fn backslash_makes_next_char_literal(w: Seq<char>, c: char, v: Seq<char>)
    requires
        forall|i: int| 0 <= i < w.len() ==> plain_char(#[trigger] w[i]),
        forall|i: int| 0 <= i < v.len() ==> plain_char(#[trigger] v[i]),
        w.len() > 0 ==> w[0] != '#',
        c != '\n',
    ensures
        shell_words(w + seq!['\\', c] + v) == Some(seq![w.push(c) + v]),
{
    let s = w + seq!['\\', c] + v;
    lemma_escape_prefix(w, c, v, s.len());
    assert(v.subrange(0, v.len() as int) =~= v);
    assert(Seq::<Seq<char>>::empty().push(w.push(c) + v) =~= seq![w.push(c) + v]);
}

/// In an unquoted word (or between words), reading a backslash and then a
/// character `c` other than a newline extends the word being read by `c`
/// alone; the finished words are unchanged.
pub proof fn escaped_char_extends_word(st: LexState, c: char)
    requires
        st.0 is Word || st.0 is Between,
        c != '\n',
    ensures
        lex_step(lex_step(st, '\\'), c) == (
            LexMode::Word,
            (if st.0 is Word {
                st.1
            } else {
                seq![]
            }).push(c),
            st.2,
        ),
{
}


/// In mode `m`, the character `ch` is appended to the word being read and
/// the mode stays.
pub open spec fn appends_in(m: LexMode, ch: char) -> bool {
    forall|cur: Seq<char>, ws: Seq<Seq<char>>| #[trigger] lex_step((m, cur, ws), ch) == (m, cur.push(ch), ws)
}

proof fn lemma_lex_run(s: Seq<char>, i: nat, j: nat, m: LexMode, cur: Seq<char>, ws: Seq<Seq<char>>)
    requires
        i + j <= s.len(),
        lex_prefix(s, i) == (m, cur, ws),
        forall|k: int| i <= k < i + j ==> appends_in(m, #[trigger] s[k]),
    ensures
        lex_prefix(s, i + j) == (m, cur + s.subrange(i as int, (i + j) as int), ws),
    decreases j,
{
    if j == 0 {
        assert(cur + s.subrange(i as int, i as int) =~= cur);
    } else {
        lemma_lex_run(s, i, (j - 1) as nat, m, cur, ws);
        let ch = s[i + j - 1];
        assert(appends_in(m, ch));
        let prev = cur + s.subrange(i as int, i + j - 1);
        assert(lex_step((m, prev, ws), ch) == (m, prev.push(ch), ws));
        assert(prev.push(ch) =~= cur + s.subrange(i as int, (i + j) as int));
    }
}

proof fn lemma_plain_appends(ch: char)
    requires
        plain_char(ch),
    ensures
        appends_in(LexMode::Word, ch),
{
}

proof fn lemma_plain_word(s: Seq<char>, w: Seq<char>, ws: Seq<Seq<char>>, start: nat)
    requires
        start + w.len() <= s.len(),
        w.len() > 0,
        w[0] != '#',
        forall|i: int| 0 <= i < w.len() ==> plain_char(#[trigger] w[i]),
        s.subrange(start as int, (start + w.len()) as int) == w,
        lex_prefix(s, start).0 is Between,
        lex_prefix(s, start).2 == ws,
    ensures
        lex_prefix(s, start + w.len()) == (LexMode::Word, w, ws),
{
    assert(s[start as int] == w[0]);
    assert(plain_char(w[0]));
    assert(lex_prefix(s, start + 1) == (LexMode::Word, seq![w[0]], ws));
    assert forall|k: int| start + 1 <= k < start + 1 + (w.len() - 1) implies appends_in(
        LexMode::Word,
        #[trigger] s[k],
    ) by {
        assert(s[k] == w[k - start]);
        lemma_plain_appends(s[k]);
    }
    lemma_lex_run(s, start + 1, (w.len() - 1) as nat, LexMode::Word, seq![w[0]], ws);
    assert(seq![w[0]] + s.subrange((start + 1) as int, (start + w.len()) as int) =~= w);
}

/// Whether `w` is a word of plain characters that does not start a comment.
pub open spec fn plain_word(w: Seq<char>) -> bool {
    &&& w.len() > 0
    &&& w[0] != '#'
    &&& forall|i: int| 0 <= i < w.len() ==> plain_char(#[trigger] w[i])
}

/// Unquoted words separated by a space split into those words, in order.
pub proof fn space_separates_words(a: Seq<char>, b: Seq<char>)
    requires
        plain_word(a),
        plain_word(b),
    ensures
        shell_words(a + seq![' '] + b) == Some(seq![a, b]),
{
    let s = a + seq![' '] + b;
    assert(s.subrange(0, a.len() as int) =~= a);
    lemma_plain_word(s, a, seq![], 0);
    assert(s[a.len() as int] == ' ');
    assert(lex_prefix(s, a.len() + 1) == (LexMode::Between, Seq::<char>::empty(), seq![a]));
    assert(s.subrange((a.len() + 1) as int, (a.len() + 1 + b.len()) as int) =~= b);
    lemma_plain_word(s, b, seq![a], a.len() + 1);
    assert(seq![a].push(b) =~= seq![a, b]);
}

/// Text in single quotes that holds no quote or backslash is one word, as
/// written.
pub proof fn single_quotes_keep_text(u: Seq<char>)
    requires
        !u.contains('\''),
        !u.contains('\\'),
    ensures
        shell_words(seq!['\''] + u + seq!['\'']) == Some(seq![u]),
{
    let s = seq!['\''] + u + seq!['\''];
    assert(s[0] == '\'');
    assert(lex_prefix(s, 0) == (LexMode::Between, Seq::<char>::empty(), Seq::<Seq<char>>::empty()));
    assert(lex_prefix(s, 1) == lex_step(lex_prefix(s, 0), s[0]));
    assert(lex_prefix(s, 1) == (LexMode::Single, Seq::<char>::empty(), Seq::<Seq<char>>::empty()));
    assert forall|k: int| 1 <= k < 1 + u.len() implies appends_in(LexMode::Single, #[trigger] s[k]) by {
        assert(s[k] == u[k - 1]);
        if s[k] == '\'' {
            assert(u.contains('\''));
        }
        if s[k] == '\\' {
            assert(u.contains('\\'));
        }
    }
    lemma_lex_run(s, 1, u.len(), LexMode::Single, seq![], seq![]);
    assert(Seq::<char>::empty() + s.subrange(1, (1 + u.len()) as int) =~= u);
    assert(s[(1 + u.len()) as int] == '\'');
    assert(Seq::<Seq<char>>::empty().push(u) =~= seq![u]);
}

/// Text in double quotes that holds no quote or backslash is one word, as
/// written, separators included.
pub proof fn double_quotes_keep_text(u: Seq<char>)
    requires
        !u.contains('"'),
        !u.contains('\\'),
    ensures
        shell_words(seq!['"'] + u + seq!['"']) == Some(seq![u]),
{
    let s = seq!['"'] + u + seq!['"'];
    assert(s[0] == '"');
    assert(lex_prefix(s, 0) == (LexMode::Between, Seq::<char>::empty(), Seq::<Seq<char>>::empty()));
    assert(lex_prefix(s, 1) == lex_step(lex_prefix(s, 0), s[0]));
    assert(lex_prefix(s, 1) == (LexMode::Double, Seq::<char>::empty(), Seq::<Seq<char>>::empty()));
    assert forall|k: int| 1 <= k < 1 + u.len() implies appends_in(LexMode::Double, #[trigger] s[k]) by {
        assert(s[k] == u[k - 1]);
        if s[k] == '"' {
            assert(u.contains('"'));
        }
        if s[k] == '\\' {
            assert(u.contains('\\'));
        }
    }
    lemma_lex_run(s, 1, u.len(), LexMode::Double, seq![], seq![]);
    assert(Seq::<char>::empty() + s.subrange(1, (1 + u.len()) as int) =~= u);
    assert(s[(1 + u.len()) as int] == '"');
    assert(Seq::<Seq<char>>::empty().push(u) =~= seq![u]);
}

} // verus!
