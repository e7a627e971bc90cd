//! The simulated duration of one work unit and its split into equal steps.

use vstd::prelude::*;
use rand::Rng;

verus! {

/// The share of each of `steps` steps in a duration, the remainder dropped.
pub open spec fn split_evenly(duration_ms: u64, steps: u64) -> int {
    duration_ms as int / steps as int
}

/// Relies on rand::Rng::gen_range over an inclusive range (on the thread-local
/// generator): a value between `lo` and `hi`, both included. It panics on an
/// empty range, which `requires` leaves out.
#[verifier::external_body]
fn draw_between(lo: u64, hi: u64) -> (r: u64)
    requires
        lo <= hi,
    ensures
        lo <= r <= hi,
{
    rand::thread_rng().gen_range(lo..=hi)
}

/// The delay of one step when a unit's whole duration is divided evenly across
/// its steps (the remainder is dropped).
pub fn per_step_delay(duration_ms: u64, steps: u64) -> (r: u64)
    requires
        steps >= 1,
    ensures
        r == split_evenly(duration_ms, steps),
        r * steps <= duration_ms,
{
    let r = duration_ms / steps;
    proof {
        lemma_quotient_times_divisor(duration_ms, steps);
    }
    r
}

/// Draws a unit's duration uniformly from `[steps, upper_ms]` milliseconds and
/// returns the delay of each of its `steps` steps.
pub fn draw_step_delay(steps: u64, upper_ms: u64) -> (r: u64)
    requires
        1 <= steps <= upper_ms,
    ensures
        exists|d: u64| steps <= d <= upper_ms && r == #[trigger] split_evenly(d, steps),
        1 <= r,
        r * steps <= upper_ms,
{
    let d = draw_between(steps, upper_ms);
    let r = per_step_delay(d, steps);
    proof {
        lemma_at_least_one(d, steps);
    }
    r
}

/// Dividing by a nonzero divisor and multiplying back never overshoots.
proof fn lemma_quotient_times_divisor(n: u64, d: u64)
    requires
        d >= 1,
    ensures
        (n / d) * d <= n,
{
    assert((n / d) * d <= n) by (nonlinear_arith)
        requires d >= 1;
}

/// A numerator at least the divisor gives a quotient of at least one.
proof fn lemma_at_least_one(n: u64, d: u64)
    requires
        1 <= d <= n,
    ensures
        n / d >= 1,
{
    assert(n / d >= 1) by (nonlinear_arith)
        requires 1 <= d <= n;
}

} // verus!
