//! The text that `search` prints for each entry.

use vstd::prelude::*;
use crate::db::HistoryEntry;
use crate::paths::split_on;
use crate::text::{
    chars_of, flat_map_chars, join_texts, joined, lemma_flat_map_front, push_all, string_of,
    string_views,
};

verus! {

/// The decimal digit for `d` (0 to 9).
pub open spec fn digit_char(d: int) -> char {
    if d == 0 {
        '0'
    } else if d == 1 {
        '1'
    } else if d == 2 {
        '2'
    } else if d == 3 {
        '3'
    } else if d == 4 {
        '4'
    } else if d == 5 {
        '5'
    } else if d == 6 {
        '6'
    } else if d == 7 {
        '7'
    } else if d == 8 {
        '8'
    } else {
        '9'
    }
}

/// The decimal digits of `n`, most significant first, without leading zeros.
pub open spec fn digits(n: nat) -> Seq<char>
    decreases n,
{
    if n < 10 {
        seq![digit_char(n as int)]
    } else {
        digits(n / 10) + seq![digit_char((n % 10) as int)]
    }
}

/// `n` written in decimal, with a leading `-` when negative (as `Display`
/// writes integers).
pub open spec fn decimal(n: int) -> Seq<char> {
    if n < 0 {
        seq!['-'] + digits((-n) as nat)
    } else {
        digits(n as nat)
    }
}

fn digit(d: u64) -> (c: char)
    requires
        d < 10,
    ensures
        c == digit_char(d as int),
{
    if d == 0 {
        '0'
    } else if d == 1 {
        '1'
    } else if d == 2 {
        '2'
    } else if d == 3 {
        '3'
    } else if d == 4 {
        '4'
    } else if d == 5 {
        '5'
    } else if d == 6 {
        '6'
    } else if d == 7 {
        '7'
    } else if d == 8 {
        '8'
    } else {
        '9'
    }
}

/// The decimal digits of `n`.
fn digits_exec(n: u64) -> (r: Vec<char>)
    ensures
        r@ == digits(n as nat),
{
    let mut rev: Vec<char> = Vec::new();
    let mut m: u64 = n;
    while m >= 10
        invariant
            digits(n as nat) == digits(m as nat) + rev@.reverse(),
        decreases m,
    {
        let d: u64 = m % 10;
        let ghost before = rev@;
        rev.push(digit(d));
        proof {
            assert(digits(m as nat) == digits((m / 10) as nat) + seq![digit_char((m % 10) as int)]);
            assert(rev@.reverse() =~= seq![digit_char((m % 10) as int)] + before.reverse());
        }
        m = m / 10;
    }
    let ghost before = rev@;
    rev.push(digit(m));
    proof {
        assert(rev@.reverse() =~= seq![digit_char(m as int)] + before.reverse());
    }
    let mut out: Vec<char> = Vec::new();
    let mut k: usize = rev.len();
    while k > 0
        invariant
            k <= rev.len(),
            out@ =~= rev@.reverse().subrange(0, rev.len() - k),
        decreases k,
    {
        k = k - 1;
        out.push(rev[k]);
    }
    out
}

/// `n` written in decimal.
pub fn decimal_text(n: i64) -> (r: String)
    ensures
        r@ == decimal(n as int),
{
    if n < 0 {
        let mag: u64 = if n == i64::MIN {
            9223372036854775808u64
        } else {
            (-n) as u64
        };
        let mut out: Vec<char> = vec!['-'];
        push_all(&mut out, digits_exec(mag).as_slice());
        string_of(out.as_slice())
    } else {
        string_of(digits_exec(n as u64).as_slice())
    }
}

/// How `search` writes one character of a command or directory so that an
/// entry stays on one line: backslash, newline and tab become `\\`, `\n` and
/// `\t`.
pub open spec fn line_escape_char(c: char) -> Seq<char> {
    if c == '\\' {
        seq!['\\', '\\']
    } else if c == '\n' {
        seq!['\\', 'n']
    } else if c == '\t' {
        seq!['\\', 't']
    } else {
        seq![c]
    }
}

/// `s` with backslashes, newlines and tabs escaped.
pub open spec fn line_escaped(s: Seq<char>) -> Seq<char> {
    flat_map_chars(s, |c: char| line_escape_char(c))
}

/// Reads an escaped text back: `\n` and `\t` are a newline and a tab, and a
/// backslash followed by any other character stands for that character.
pub open spec fn line_unescaped(t: Seq<char>) -> Seq<char>
    decreases t.len(),
{
    if t.len() == 0 {
        seq![]
    } else if t.len() >= 2 && t[0] == '\\' {
        seq![
            if t[1] == 'n' {
                '\n'
            } else if t[1] == 't' {
                '\t'
            } else {
                t[1]
            },
        ] + line_unescaped(t.subrange(2, t.len() as int))
    } else {
        seq![t[0]] + line_unescaped(t.drop_first())
    }
}

/// Whether `s` holds no newline and no tab.
pub open spec fn one_field(s: Seq<char>) -> bool {
    forall|i: int| 0 <= i < s.len() ==> #[trigger] s[i] != '\n' && s[i] != '\t'
}

/// Escaping loses nothing: the escaped text reads back as the original, so
/// distinct commands print distinctly.
pub proof fn line_escape_reads_back(s: Seq<char>)
    ensures
        line_unescaped(line_escaped(s)) == s,
    decreases s.len(),
{
    if s.len() > 0 {
        let f = |c: char| line_escape_char(c);
        lemma_flat_map_front(s, f);
        line_escape_reads_back(s.drop_first());
        let t = line_escaped(s);
        let rest = line_escaped(s.drop_first());
        let c = s[0];
        if c == '\\' || c == '\n' || c == '\t' {
            assert(t.subrange(2, t.len() as int) =~= rest);
        } else {
            assert(t.drop_first() =~= rest);
        }
        assert(seq![c] + s.drop_first() =~= s);
    } else {
        assert(line_escaped(s) =~= Seq::<char>::empty());
    }
}

/// An escaped text holds no newline and no tab: it is one field of one line.
pub proof fn line_escape_is_one_field(s: Seq<char>)
    ensures
        one_field(line_escaped(s)),
    decreases s.len(),
{
    if s.len() > 0 {
        line_escape_is_one_field(s.drop_last());
        let f = |c: char| line_escape_char(c);
        let a = flat_map_chars(s.drop_last(), f);
        let b = line_escape_char(s.last());
        assert(line_escaped(s) == a + b);
        assert forall|i: int| 0 <= i < (a + b).len() implies #[trigger] (a + b)[i] != '\n' && (a
            + b)[i] != '\t' by {
            if i < a.len() {
                assert((a + b)[i] == a[i]);
            } else {
                assert((a + b)[i] == b[i - a.len()]);
            }
        }
    } else {
        assert(line_escaped(s) =~= Seq::<char>::empty());
    }
}

/// `s` with backslashes, newlines and tabs escaped, so that a multi-line
/// command prints on one line.
pub fn escape_cmd(s: &str) -> (r: String)
    ensures
        r@ == line_escaped(s@),
{
    let cs = chars_of(s);
    let ghost f = |c: char| line_escape_char(c);
    let mut out: Vec<char> = Vec::new();
    let mut i: usize = 0;
    while i < cs.len()
        invariant
            i <= cs.len(),
            cs@ == s@,
            f == (|c: char| line_escape_char(c)),
            out@ == flat_map_chars(cs@.subrange(0, i as int), f),
        decreases cs.len() - i,
    {
        let c = cs[i];
        proof {
            assert(cs@.subrange(0, i + 1).drop_last() =~= cs@.subrange(0, i as int));
        }
        let ghost before = out@;
        if c == '\\' {
            out.push('\\');
            out.push('\\');
        } else if c == '\n' {
            out.push('\\');
            out.push('n');
        } else if c == '\t' {
            out.push('\\');
            out.push('t');
        } else {
            out.push(c);
        }
        proof {
            assert(out@ =~= before + line_escape_char(c));
        }
        i = i + 1;
    }
    proof {
        assert(cs@.subrange(0, cs.len() as int) =~= cs@);
    }
    string_of(out.as_slice())
}

/// The exit-code column: the code in decimal, or nothing while unknown.
pub open spec fn code_field(code: Option<i64>) -> Seq<char> {
    match code {
        Some(c) => decimal(c as int),
        None => seq![],
    }
}

/// The fields `search` prints for an entry: `id, cmd`, or with `tsv`
/// `id, cwd, cmd, exit_code, started_at, shell`; only the command is
/// escaped, the directory and the shell are printed as they are.
pub open spec fn entry_fields(e: HistoryEntry, tsv: bool) -> Seq<Seq<char>> {
    if tsv {
        seq![
            decimal(e.id as int),
            e.cwd@,
            line_escaped(e.cmd@),
            code_field(e.exit_code),
            decimal(e.started_at as int),
            e.shell@,
        ]
    } else {
        seq![decimal(e.id as int), line_escaped(e.cmd@)]
    }
}

/// The line that `search` prints for an entry (without the line break).
pub fn entry_line(e: &HistoryEntry, tsv: bool) -> (r: String)
    ensures
        r@ == joined(entry_fields(*e, tsv), '\t'),
{
    join_texts(&entry_field_texts(e, tsv), '\t')
}

/// The fields of an entry as texts.
fn entry_field_texts(e: &HistoryEntry, tsv: bool) -> (r: Vec<String>)
    ensures
        string_views(r@) == entry_fields(*e, tsv),
{
    let mut r: Vec<String> = Vec::new();
    r.push(decimal_text(e.id));
    if tsv {
        r.push(string_of(chars_of(e.cwd.as_str()).as_slice()));
        r.push(escape_cmd(e.cmd.as_str()));
        let code = match e.exit_code {
            Some(c) => decimal_text(c),
            None => string_of(Vec::<char>::new().as_slice()),
        };
        r.push(code);
        r.push(decimal_text(e.started_at));
        r.push(string_of(chars_of(e.shell.as_str()).as_slice()));
    } else {
        r.push(escape_cmd(e.cmd.as_str()));
    }
    proof {
        assert(string_views(r@) =~= entry_fields(*e, tsv));
    }
    r
}

proof fn lemma_one_field_no_tab(s: Seq<char>)
    requires
        one_field(s),
    ensures
        !s.contains('\t'),
{
    if s.contains('\t') {
        let k: int = choose|k: int| 0 <= k < s.len() && s[k] == '\t';
        assert(s[k] != '\t');
    }
}

proof fn lemma_joined_one_line(fs: Seq<Seq<char>>)
    requires
        forall|i: int| 0 <= i < fs.len() ==> one_field(#[trigger] fs[i]),
    ensures
        !joined(fs, '\t').contains('\n'),
    decreases fs.len(),
{
    if fs.len() == 1 {
        assert(one_field(fs[0]));
    } else if fs.len() > 1 {
        lemma_joined_one_line(fs.drop_last());
        let a = joined(fs.drop_last(), '\t');
        let b = fs.last();
        assert(one_field(fs[fs.len() - 1]));
        let t = a + seq!['\t'] + b;
        assert forall|k: int| 0 <= k < t.len() implies t[k] != '\n' by {
            if k < a.len() {
                assert(t[k] == a[k]);
            } else if k > a.len() {
                assert(t[k] == b[k - a.len() - 1]);
            }
        }
    }
}

proof fn lemma_digits_one_field(n: nat)
    ensures
        one_field(digits(n)),
    decreases n,
{
    if n >= 10 {
        lemma_digits_one_field(n / 10);
        let a = digits(n / 10);
        let b = seq![digit_char((n % 10) as int)];
        assert forall|i: int| 0 <= i < (a + b).len() implies #[trigger] (a + b)[i] != '\n' && (a
            + b)[i] != '\t' by {
            if i < a.len() {
                assert((a + b)[i] == a[i]);
            }
        }
    }
}

proof fn lemma_decimal_one_field(n: int)
    ensures
        one_field(decimal(n)),
{
    if n < 0 {
        lemma_digits_one_field((-n) as nat);
        let a = digits((-n) as nat);
        assert forall|i: int| 0 <= i < (seq!['-'] + a).len() implies #[trigger] (seq!['-'] + a)[i]
            != '\n' && (seq!['-'] + a)[i] != '\t' by {
            if i > 0 {
                assert((seq!['-'] + a)[i] == a[i - 1]);
            }
        }
    } else {
        lemma_digits_one_field(n as nat);
    }
}

/// Every entry that `search` prints stays on one line and splits at its tabs
/// back into exactly its fields (`id, cmd`, or with `tsv` the six columns),
/// whatever newlines or tabs the command holds. (With `tsv` the directory
/// and the shell name are printed as they are, so they must hold neither.)
pub proof fn entry_line_is_one_record(e: HistoryEntry, tsv: bool)
    requires
        tsv ==> one_field(e.cwd@) && one_field(e.shell@),
    ensures
        !joined(entry_fields(e, tsv), '\t').contains('\n'),
        split_on(joined(entry_fields(e, tsv), '\t'), '\t') == entry_fields(e, tsv),
{
    let fs = entry_fields(e, tsv);
    lemma_decimal_one_field(e.id as int);
    lemma_decimal_one_field(e.started_at as int);
    line_escape_is_one_field(e.cmd@);
    if let Some(c) = e.exit_code {
        lemma_decimal_one_field(c as int);
    }
    assert forall|i: int| 0 <= i < fs.len() implies one_field(#[trigger] fs[i]) by {
        if tsv && i == 3 && e.exit_code is None {
            assert(fs[i] =~= Seq::<char>::empty());
        }
    }
    assert forall|i: int| 0 <= i < fs.len() implies !(#[trigger] fs[i]).contains('\t') by {
        lemma_one_field_no_tab(fs[i]);
    }
    crate::paths::joined_pieces_split_back(fs, '\t');
    lemma_joined_one_line(fs);
}

} // verus!
