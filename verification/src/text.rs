//! Character-level helpers shared by the other modules.

use vstd::prelude::*;

verus! {

/// Unicode `White_Space` characters, the set that `char::is_whitespace` tests.
pub open spec fn is_space_char(c: char) -> bool {
    ||| (c as u32) >= 0x9 && (c as u32) <= 0xd
    ||| c == ' '
    ||| (c as u32) == 0x85
    ||| (c as u32) == 0xa0
    ||| (c as u32) == 0x1680
    ||| (c as u32) >= 0x2000 && (c as u32) <= 0x200a
    ||| (c as u32) == 0x2028
    ||| (c as u32) == 0x2029
    ||| (c as u32) == 0x202f
    ||| (c as u32) == 0x205f
    ||| (c as u32) == 0x3000
}

/// Whether `c` is a whitespace character (space, tab, newline, and the
/// other Unicode `White_Space` characters).
pub fn is_space(c: char) -> (r: bool)
    ensures
        r == is_space_char(c),
{
    let u: u32 = c as u32;
    (0x9 <= u && u <= 0xd) || u == 0x20 || u == 0x85 || u == 0xa0 || u == 0x1680 || (0x2000 <= u
        && u <= 0x200a) || u == 0x2028 || u == 0x2029 || u == 0x202f || u == 0x205f || u == 0x3000
}

/// The characters of `s`, in order.
pub(crate) fn chars_of(s: &str) -> (v: Vec<char>)
    ensures
        v@ == s@,
{
    broadcast use vstd::string::axiom_spec_iter;

    let mut v: Vec<char> = Vec::new();
    for c in it: s.chars()
        invariant
            it.seq() == s@,
            v@ == it.seq().take(it.index() as int),
    {
        v.push(c);
    }
    v
}

/// The string made of the characters of `v`, in order
/// (`String::from_iter`): the documentation of `FromIterator<&char> for
/// String` says the characters are appended in order.
#[verifier::external_body]
pub(crate) fn string_of(v: &[char]) -> (s: String)
    ensures
        s@ == v@,
{
    String::from_iter(v)
}

/// Whether every character of `s` is whitespace (true for the empty text).
pub open spec fn is_blank(s: Seq<char>) -> bool {
    forall|i: int| 0 <= i < s.len() ==> is_space_char(#[trigger] s[i])
}

/// `s` with all trailing `/` characters removed.
pub open spec fn trim_end_slashes(s: Seq<char>) -> Seq<char>
    decreases s.len(),
{
    if s.len() > 0 && s.last() == '/' {
        trim_end_slashes(s.drop_last())
    } else {
        s
    }
}

/// A directory with its trailing slashes removed; the root stays `/`.
pub open spec fn normalized_dir(s: Seq<char>) -> Seq<char> {
    let t = trim_end_slashes(s);
    if t.len() == 0 {
        seq!['/']
    } else {
        t
    }
}


/// Whether `line` holds nothing but whitespace (`str::trim` would leave it empty).
pub fn is_blank_text(line: &str) -> (r: bool)
    ensures
        r == is_blank(line@),
{
    let cs = chars_of(line);
    let mut i: usize = 0;
    while i < cs.len()
        invariant
            cs@ == line@,
            i <= cs.len(),
            forall|j: int| 0 <= j < i ==> is_space_char(#[trigger] cs@[j]),
        decreases cs.len() - i,
    {
        if !is_space(cs[i]) {
            return false;
        }
        i = i + 1;
    }
    true
}

/// Whether two texts hold the same characters.
pub fn same_text(a: &str, b: &str) -> (r: bool)
    ensures
        r == (a@ == b@),
{
    let x = chars_of(a);
    let y = chars_of(b);
    if x.len() != y.len() {
        return false;
    }
    let mut i: usize = 0;
    while i < x.len()
        invariant
            x@ == a@,
            y@ == b@,
            x.len() == y.len(),
            i <= x.len(),
            forall|j: int| 0 <= j < i ==> x@[j] == y@[j],
        decreases x.len() - i,
    {
        if x[i] != y[i] {
            return false;
        }
        i = i + 1;
    }
    assert(x@ =~= y@);
    true
}

proof fn lemma_trim_end_prefix(s: Seq<char>, n: int)
    requires
        0 <= n <= s.len(),
        forall|j: int| n <= j < s.len() ==> s[j] == '/',
    ensures
        trim_end_slashes(s) == trim_end_slashes(s.subrange(0, n)),
    decreases s.len() - n,
{
    if n < s.len() {
        assert(s.drop_last() =~= s.subrange(0, s.len() - 1));
        lemma_trim_end_prefix(s.drop_last(), n);
        assert(s.drop_last().subrange(0, n) =~= s.subrange(0, n));
    } else {
        assert(s.subrange(0, n) =~= s);
    }
}

/// `dir` with its trailing slashes removed; a directory made only of
/// slashes (or the empty text) becomes the root `/`.
pub fn normalize_dir(dir: &str) -> (r: String)
    ensures
        r@ == normalized_dir(dir@),
{
    let cs = chars_of(dir);
    let mut n: usize = cs.len();
    while n > 0 && cs[n - 1] == '/'
        invariant
            cs@ == dir@,
            n <= cs.len(),
            forall|j: int| n <= j < cs.len() ==> cs@[j] == '/',
        decreases n,
    {
        n = n - 1;
    }
    proof {
        lemma_trim_end_prefix(cs@, n as int);
        let t = cs@.subrange(0, n as int);
        if n > 0 {
            assert(t.last() != '/');
        }
        assert(trim_end_slashes(t) == t);
    }
    if n == 0 {
        let root = vec!['/'];
        proof {
            assert(root@ =~= seq!['/']);
        }
        string_of(root.as_slice())
    } else {
        let mut kept = cs;
        kept.truncate(n);
        proof {
            assert(kept@ =~= dir@.subrange(0, n as int));
        }
        string_of(kept.as_slice())
    }
}

/// The text made by replacing each character `c` of `s` with `f(c)`, in order.
pub open spec fn flat_map_chars(s: Seq<char>, f: spec_fn(char) -> Seq<char>) -> Seq<char>
    decreases s.len(),
{
    if s.len() == 0 {
        seq![]
    } else {
        flat_map_chars(s.drop_last(), f) + f(s.last())
    }
}

/// Replacing character by character distributes over concatenation.
pub proof fn lemma_flat_map_concat(a: Seq<char>, b: Seq<char>, f: spec_fn(char) -> Seq<char>)
    ensures
        flat_map_chars(a + b, f) == flat_map_chars(a, f) + flat_map_chars(b, f),
    decreases b.len(),
{
    if b.len() == 0 {
        assert(a + b =~= a);
        assert(flat_map_chars(a, f) + seq![] =~= flat_map_chars(a, f));
    } else {
        assert((a + b).drop_last() =~= a + b.drop_last());
        lemma_flat_map_concat(a, b.drop_last(), f);
        assert(flat_map_chars(a, f) + flat_map_chars(b.drop_last(), f) + f(b.last()) =~= flat_map_chars(
            a,
            f,
        ) + (flat_map_chars(b.drop_last(), f) + f(b.last())));
    }
}

/// Replacing the characters of a one-character text.
pub proof fn lemma_flat_map_single(c: char, f: spec_fn(char) -> Seq<char>)
    ensures
        flat_map_chars(seq![c], f) == f(c),
{
    let one = seq![c];
    assert(one.drop_last() =~= Seq::<char>::empty());
    assert(one.last() == c);
    assert(flat_map_chars(one.drop_last(), f) =~= Seq::<char>::empty());
    assert(Seq::<char>::empty() + f(c) =~= f(c));
}

/// Replacing the characters of `s` from the front: `f(s[0])` first.
pub proof fn lemma_flat_map_front(s: Seq<char>, f: spec_fn(char) -> Seq<char>)
    requires
        s.len() > 0,
    ensures
        flat_map_chars(s, f) == f(s[0]) + flat_map_chars(s.drop_first(), f),
{
    assert(s =~= seq![s[0]] + s.drop_first());
    lemma_flat_map_concat(seq![s[0]], s.drop_first(), f);
    lemma_flat_map_single(s[0], f);
}

/// Appends the characters of `piece` to `out`.
pub fn push_all(out: &mut Vec<char>, piece: &[char])
    ensures
        final(out)@ == old(out)@ + piece@,
{
    let mut i: usize = 0;
    while i < piece.len()
        invariant
            i <= piece.len(),
            out@ == old(out)@ + piece@.subrange(0, i as int),
        decreases piece.len() - i,
    {
        out.push(piece[i]);
        proof {
            assert(old(out)@ + piece@.subrange(0, i + 1) =~= old(out)@ + piece@.subrange(
                0,
                i as int,
            ) + seq![piece@[i as int]]);
        }
        i = i + 1;
    }
    proof {
        assert(piece@.subrange(0, piece.len() as int) =~= piece@);
    }
}

/// The views of a sequence of character vectors.
pub open spec fn char_views(v: Seq<Vec<char>>) -> Seq<Seq<char>> {
    v.map_values(|w: Vec<char>| w@)
}

/// The views of a sequence of strings.
pub open spec fn string_views(v: Seq<String>) -> Seq<Seq<char>> {
    v.map_values(|w: String| w@)
}


/// The pieces joined with `sep` between neighbours.
pub open spec fn joined(pieces: Seq<Seq<char>>, sep: char) -> Seq<char>
    decreases pieces.len(),
{
    if pieces.len() == 0 {
        seq![]
    } else if pieces.len() == 1 {
        pieces[0]
    } else {
        joined(pieces.drop_last(), sep) + seq![sep] + pieces.last()
    }
}

/// The texts of `parts` joined with `sep` between neighbours.
pub fn join_texts(parts: &Vec<String>, sep: char) -> (r: String)
    ensures
        r@ == joined(string_views(parts@), sep),
{
    let mut out: Vec<char> = Vec::new();
    let mut k: usize = 0;
    while k < parts.len()
        invariant
            k <= parts.len(),
            out@ == joined(string_views(parts@).subrange(0, k as int), sep),
        decreases parts.len() - k,
    {
        let ghost before = out@;
        if k > 0 {
            out.push(sep);
        }
        push_all(&mut out, chars_of(parts[k].as_str()).as_slice());
        proof {
            let fv = string_views(parts@);
            let next = fv.subrange(0, k + 1);
            assert(next.drop_last() =~= fv.subrange(0, k as int));
            if k == 0 {
                assert(out@ =~= next[0]);
            } else {
                assert(out@ =~= joined(next.drop_last(), sep) + seq![sep] + next.last());
            }
        }
        k = k + 1;
    }
    proof {
        let fv = string_views(parts@);
        assert(fv.subrange(0, parts.len() as int) =~= fv);
    }
    string_of(out.as_slice())
}

proof fn lemma_trim_end_no_slash(s: Seq<char>)
    ensures
        trim_end_slashes(s).len() == 0 || trim_end_slashes(s).last() != '/',
    decreases s.len(),
{
    if s.len() > 0 && s.last() == '/' {
        lemma_trim_end_no_slash(s.drop_last());
    }
}

/// Normalizing a directory twice changes nothing more, so a directory that
/// was normalized when recorded matches the same directory normalized again
/// by `search` or `suggest`.
pub proof fn normalize_dir_is_stable(s: Seq<char>)
    ensures
        normalized_dir(normalized_dir(s)) == normalized_dir(s),
{
    lemma_trim_end_no_slash(s);
    let t = trim_end_slashes(s);
    if t.len() == 0 {
        let root = seq!['/'];
        assert(root.drop_last() =~= Seq::<char>::empty());
        assert(trim_end_slashes(root) == trim_end_slashes(root.drop_last()));
    }
}

} // verus!
