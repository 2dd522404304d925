//! The decisions the command-line front end makes around the store.

use vstd::prelude::*;
use crate::text::{chars_of, is_space, is_space_char, normalize_dir, normalized_dir};

verus! {

/// The history limit when `SEASALT_HISTORY_MAX` is unset or unparsable.
pub const DEFAULT_HISTORY_MAX: usize = 100_000;

/// Whether a command is recorded: one that starts with whitespace (space,
/// tab, newline, ...) never is, so a secret typed after a leading space stays
/// out of the history.
pub fn should_record(cmd: &str) -> (r: bool)
    ensures
        r == !(cmd@.len() > 0 && is_space_char(cmd@[0])),
{
    let cs = chars_of(cmd);
    !(cs.len() > 0 && is_space(cs[0]))
}

/// The value of a decimal digit character.
pub open spec fn digit_value(c: char) -> int {
    (c as u32) - ('0' as u32)
}

/// Whether `c` is one of `0`..`9`.
pub open spec fn is_digit(c: char) -> bool {
    '0' <= c && c <= '9'
}

/// The number that a sequence of decimal digits spells.
pub open spec fn digits_value(d: Seq<char>) -> nat
    decreases d.len(),
{
    if d.len() == 0 {
        0
    } else {
        (digits_value(d.drop_last()) * 10 + digit_value(d.last())) as nat
    }
}

/// The digits of an unsigned number's text: a leading `+` is dropped when
/// something follows it.
pub open spec fn unsigned_digits(s: Seq<char>) -> Seq<char> {
    if s.len() > 1 && s[0] == '+' {
        s.drop_first()
    } else {
        s
    }
}

/// The `usize` that `s` spells as `str::parse::<usize>` reads it: an
/// optional `+`, then one or more decimal digits, with a value that fits.
pub open spec fn parsed_usize(s: Seq<char>) -> Option<nat> {
    let d = unsigned_digits(s);
    if d.len() > 0 && (forall|i: int| 0 <= i < d.len() ==> is_digit(#[trigger] d[i]))
        && digits_value(d) <= usize::MAX {
        Some(digits_value(d))
    } else {
        None
    }
}

proof fn lemma_digits_value_grows(d: Seq<char>, k: int)
    requires
        0 <= k <= d.len(),
        forall|i: int| 0 <= i < d.len() ==> is_digit(#[trigger] d[i]),
    ensures
        digits_value(d.subrange(0, k)) <= digits_value(d),
    decreases d.len() - k,
{
    if k < d.len() {
        lemma_digits_value_grows(d, k + 1);
        assert(d.subrange(0, k + 1).drop_last() =~= d.subrange(0, k));
        assert(is_digit(d[k]));
    } else {
        assert(d.subrange(0, k) =~= d);
    }
}

/// Reads an unsigned decimal number as `str::parse::<usize>` does; `None`
/// for anything else, including a number too large for `usize`.
pub fn parse_usize(s: &str) -> (r: Option<usize>)
    ensures
        match r {
            Some(n) => parsed_usize(s@) == Some(n as nat),
            None => parsed_usize(s@) is None,
        },
{
    let cs = chars_of(s);
    let start: usize = if cs.len() > 1 && cs[0] == '+' {
        1
    } else {
        0
    };
    let ghost d = unsigned_digits(s@);
    proof {
        assert(d =~= cs@.subrange(start as int, cs.len() as int));
    }
    if start >= cs.len() {
        return None;
    }
    let mut acc: usize = 0;
    let mut i: usize = start;
    while i < cs.len()
        invariant
            start <= i <= cs.len(),
            cs@ == s@,
            d == unsigned_digits(s@),
            d == cs@.subrange(start as int, cs.len() as int),
            forall|j: int| 0 <= j < i - start ==> is_digit(#[trigger] d[j]),
            acc as nat == digits_value(d.subrange(0, i - start)),
        decreases cs.len() - i,
    {
        let c = cs[i];
        if !('0' <= c && c <= '9') {
            proof {
                assert(!is_digit(d[i - start]));
                assert(!(forall|j: int| 0 <= j < d.len() ==> is_digit(#[trigger] d[j])));
            }
            return None;
        }
        let v: usize = ((c as u32) - ('0' as u32)) as usize;
        proof {
            assert(d.subrange(0, i + 1 - start).drop_last() =~= d.subrange(0, i - start));
            assert(d.subrange(0, i + 1 - start).last() == c);
        }
        let next = match acc.checked_mul(10) {
            Some(m) => m.checked_add(v),
            None => None,
        };
        match next {
            Some(n) => {
                acc = n;
            },
            None => {
                proof {
                    assert(digits_value(d.subrange(0, i + 1 - start)) > usize::MAX) by (
                    nonlinear_arith)
                        requires
                            digits_value(d.subrange(0, i + 1 - start)) == acc * 10 + v,
                            acc * 10 + v > usize::MAX || acc * 10 > usize::MAX,
                            v >= 0,
                    ;
                    if forall|j: int| 0 <= j < d.len() ==> is_digit(#[trigger] d[j]) {
                        lemma_digits_value_grows(d, i + 1 - start);
                    }
                }
                return None;
            },
        }
        i = i + 1;
    }
    proof {
        assert(d.subrange(0, cs.len() - start) =~= d);
    }
    Some(acc)
}

/// The history limit set by `SEASALT_HISTORY_MAX` (`None` when it is unset
/// or unreadable): a value that reads as 0 (`0`, `00`, `+0`) means no limit;
/// an unset or unparsable value falls back to the default. A limit of 0 is
/// never given, so trimming never gets one.
pub open spec fn history_limit_spec(var: Option<Seq<char>>) -> Option<nat> {
    match var {
        None => Some(DEFAULT_HISTORY_MAX as nat),
        Some(v) => match parsed_usize(v) {
            Some(n) => if n == 0 {
                None
            } else {
                Some(n)
            },
            None => Some(DEFAULT_HISTORY_MAX as nat),
        },
    }
}

/// How many rows the history keeps, from the value of `SEASALT_HISTORY_MAX`
/// (`None` when unset): `None` means unlimited.
pub fn history_limit(var: Option<String>) -> (r: Option<usize>)
    ensures
        match r {
            Some(n) => history_limit_spec(
                match var {
                    Some(v) => Some(v@),
                    None => None,
                },
            ) == Some(n as nat),
            None => history_limit_spec(
                match var {
                    Some(v) => Some(v@),
                    None => None,
                },
            ) is None,
        },
        r matches Some(n) ==> n >= 1,
{
    match var {
        None => Some(DEFAULT_HISTORY_MAX),
        Some(v) => match parse_usize(v.as_str()) {
            Some(n) => if n == 0 {
                None
            } else {
                Some(n)
            },
            None => Some(DEFAULT_HISTORY_MAX),
        },
    }
}

/// A value that reads as a positive number sets the limit to exactly that
/// number, however large: it is never cut to the default, and only a value
/// that reads as 0 lifts the limit.
pub proof fn history_limit_is_the_given_number(v: Seq<char>)
    ensures
        forall|n: nat| parsed_usize(v) == Some(n) && n > 0 ==> history_limit_spec(Some(v)) == Some(n),
        parsed_usize(v) == Some(0nat) ==> history_limit_spec(Some(v)) is None,
        parsed_usize(v) is None ==> history_limit_spec(Some(v)) == Some(
            DEFAULT_HISTORY_MAX as nat,
        ),
        forall|n: nat| history_limit_spec(Some(v)) == Some(n) ==> n > 0,
{
}

proof fn lemma_digits_read_back(n: nat)
    ensures
        crate::report::digits(n).len() > 0,
        forall|i: int|
            0 <= i < crate::report::digits(n).len() ==> is_digit(
                #[trigger] crate::report::digits(n)[i],
            ),
        digits_value(crate::report::digits(n)) == n,
        crate::report::digits(n)[0] != '+',
    decreases n,
{
    let d = crate::report::digits(n);
    if n < 10 {
        assert(d.drop_last() =~= Seq::<char>::empty());
        assert(digits_value(d.drop_last()) == 0);
    } else {
        lemma_digits_read_back(n / 10);
        let h = crate::report::digits(n / 10);
        let t = crate::report::digit_char((n % 10) as int);
        assert(d == h + seq![t]);
        assert(d.drop_last() =~= h);
        assert(d.last() == t);
        assert forall|i: int| 0 <= i < d.len() implies is_digit(#[trigger] d[i]) by {
            if i < h.len() {
                assert(d[i] == h[i]);
            }
        }
        assert(d[0] == h[0]);
        assert((n / 10) * 10 + n % 10 == n);
    }
}

/// Setting `SEASALT_HISTORY_MAX` to any positive number written in decimal
/// keeps exactly that many rows.
pub proof fn history_limit_of_written_number(n: nat)
    requires
        1 <= n <= usize::MAX,
    ensures
        history_limit_spec(Some(crate::report::digits(n))) == Some(n),
{
    lemma_digits_read_back(n);
    assert(unsigned_digits(crate::report::digits(n)) == crate::report::digits(n));
}

/// The directory `search` is scoped to: none with `--all`; else the given
/// `--cwd` as it was given, else `fallback` (the current directory).
pub fn search_dir(all: bool, cwd: Option<String>, fallback: Option<String>) -> (r: Option<String>)
    ensures
        all ==> r is None,
        !all && cwd is Some ==> r == cwd,
        !all && cwd is None ==> r == fallback,
{
    if all {
        None
    } else {
        match cwd {
            Some(d) => Some(d),
            None => fallback,
        }
    }
}

/// The data directory given by `SEASALT_DATA_DIR` (`None` when unset): an
/// empty value counts as unset.
pub fn data_dir_override(var: Option<String>) -> (r: Option<String>)
    ensures
        match var {
            Some(v) => if v@.len() > 0 {
                r == Some(v)
            } else {
                r is None
            },
            None => r is None,
        },
{
    match var {
        Some(v) => {
            if chars_of(v.as_str()).len() > 0 {
                Some(v)
            } else {
                None
            }
        },
        None => None,
    }
}

/// A point in wall-clock time (`std::time::SystemTime`).
#[verifier::external_type_specification]
#[verifier::external_body]
pub struct ExSystemTime(std::time::SystemTime);

/// The current wall-clock time (`SystemTime::now`). It depends on the clock,
/// so nothing is promised about it.
#[verifier::external_body]
fn system_now() -> (r: std::time::SystemTime) {
    std::time::SystemTime::now()
}

/// How long after the Unix epoch `t` lies (`SystemTime::duration_since`
/// with `UNIX_EPOCH`), `None` when `t` is before the epoch. The values are
/// opaque here, so nothing is promised about the answer.
#[verifier::external_body]
fn since_epoch(t: std::time::SystemTime) -> (r: Option<std::time::Duration>) {
    t.duration_since(std::time::UNIX_EPOCH).ok()
}

/// The whole milliseconds of `d` (`Duration::as_millis`). The duration is
/// opaque here, so nothing is promised about the answer.
#[verifier::external_body]
fn whole_millis(d: std::time::Duration) -> (r: u128) {
    d.as_millis()
}

/// The reading of the system clock in milliseconds since the Unix epoch
/// (`None` before the epoch) was `reading`: the clock was read, its time
/// measured from the epoch, and that span taken in whole milliseconds.
pub closed spec fn clock_reading(reading: Option<u128>) -> bool {
    exists|t: std::time::SystemTime, since: Option<std::time::Duration>|
        #![trigger call_ensures(system_now, (), t), call_ensures(since_epoch, (t,), since)]
        call_ensures(system_now, (), t) && call_ensures(since_epoch, (t,), since) && match since {
            None => reading is None,
            Some(d) => exists|ms: u128|
                #[trigger] call_ensures(whole_millis, (d,), ms) && reading == Some(ms),
        }
}

/// The start time recorded for a clock reading: the milliseconds as an
/// `i64` (as Rust's `as` converts them), 0 before the epoch.
pub open spec fn millis_value(reading: Option<u128>) -> i64 {
    match reading {
        Some(ms) => ms as i64,
        None => 0,
    }
}

/// The start time recorded for the clock reading `reading`.
pub fn millis_or_zero(reading: Option<u128>) -> (r: i64)
    ensures
        r == millis_value(reading),
{
    match reading {
        Some(ms) => ms as i64,
        None => 0,
    }
}

/// The start time recorded for a command: milliseconds since the Unix epoch
/// by the system clock, 0 when the clock is before the epoch.
pub fn now_ms() -> (r: i64)
    ensures
        exists|reading: Option<u128>| #[trigger] clock_reading(reading) && r == millis_value(reading),
{
    let now = system_now;
    let t = now();
    let since = since_epoch;
    let span = since(t);
    let reading: Option<u128> = match span {
        Some(d) => {
            let millis = whole_millis;
            let ms = millis(d);
            Some(ms)
        },
        None => None,
    };
    proof {
        assert(clock_reading(reading));
    }
    millis_or_zero(reading)
}

} // verus!
