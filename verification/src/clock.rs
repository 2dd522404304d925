//! Monotonic deadlines (`std::time::Instant`).

use vstd::prelude::*;

verus! {

/// A point in monotonic time (`std::time::Instant`).
#[verifier::external_type_specification]
#[verifier::external_body]
pub struct ExInstant(std::time::Instant);

/// The current monotonic time (`Instant::now`). It depends on when it is
/// called, so nothing is promised about it.
#[verifier::external_body]
fn now() -> (r: std::time::Instant) {
    std::time::Instant::now()
}

/// Whether `a` is at or after `b` (`Instant >= Instant`). The values are
/// opaque here, so nothing is promised about the answer.
#[verifier::external_body]
fn at_or_after(a: &std::time::Instant, b: &std::time::Instant) -> (r: bool) {
    *a >= *b
}

/// `start` moved forward by `span`, or `None` when that is not representable
/// (`Instant::checked_add`).
#[verifier::external_body]
fn checked_later(start: &std::time::Instant, span: std::time::Duration) -> (r: Option<
    std::time::Instant,
>) {
    start.checked_add(span)
}

/// The clock was read, giving some time `t`, and asked whether `t` is at or
/// after `d`; it answered `passed`. Which answer that is depends on when the
/// clock was read; the predicate records the question.
pub closed spec fn clock_passed(d: std::time::Instant, passed: bool) -> bool {
    exists|t: std::time::Instant|
        #![trigger call_ensures(now, (), t), call_ensures(at_or_after, (&t, &d), passed)]
        call_ensures(now, (), t) && call_ensures(at_or_after, (&t, &d), passed)
}

/// What a look at the clock answered for `deadline`: never passed without a
/// deadline, else the clock's answer for it.
pub open spec fn clock_answered(deadline: Option<std::time::Instant>, passed: bool) -> bool {
    match deadline {
        None => !passed,
        Some(d) => clock_passed(d, passed),
    }
}

/// The clock was read and moved forward by `b`, giving `dl` (`None` when
/// that is not representable).
pub closed spec fn deadline_read(b: std::time::Duration, dl: Option<std::time::Instant>) -> bool {
    exists|t: std::time::Instant|
        #![trigger call_ensures(now, (), t), call_ensures(checked_later, (&t, b), dl)]
        call_ensures(now, (), t) && call_ensures(checked_later, (&t, b), dl)
}

/// The deadline set for `budget` was `dl`: none without a budget, else the
/// one `deadline_read` gives.
pub open spec fn deadline_set(
    budget: Option<std::time::Duration>,
    dl: Option<std::time::Instant>,
) -> bool {
    match budget {
        None => dl is None,
        Some(b) => deadline_read(b, dl),
    }
}

/// The deadline that lies `budget` from now; `None` when no budget is given
/// (or the deadline is too far away to represent), which never expires.
pub fn deadline_after(budget: Option<std::time::Duration>) -> (r: Option<std::time::Instant>)
    ensures
        deadline_set(budget, r),
        budget is None ==> r is None,
{
    match budget {
        None => None,
        Some(b) => {
            let read = now;
            let start = read();
            let later = checked_later;
            let r = later(&start, b);
            proof {
                assert(deadline_read(b, r));
            }
            r
        },
    }
}

/// Whether the deadline has passed, by one look at the clock; no deadline
/// never passes.
pub fn expired(deadline: Option<std::time::Instant>) -> (r: bool)
    ensures
        clock_answered(deadline, r),
        deadline is None ==> !r,
{
    match deadline {
        None => false,
        Some(d) => {
            let read = now;
            let t = read();
            let cmp = at_or_after;
            let r = cmp(&t, &d);
            proof {
                assert(clock_passed(d, r));
            }
            r
        },
    }
}

} // verus!
