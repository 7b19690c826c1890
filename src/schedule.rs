//! Timing of refresh cycles: the jittered next retrieval, the sleep after a
//! cycle, the failure counter of the supervisor, and the busy-retry policy
//! of store transactions.

use vstd::prelude::*;

verus! {

/// Added to every sleep between cycles, in milliseconds.
pub const SLEEP_MARGIN_MS: u64 = 1000;

/// Sleep after a failed cycle, in milliseconds.
pub const FAILED_CYCLE_SLEEP_MS: u64 = 60_000;

/// Penalty a failed cycle adds to the failure counter.
pub const FAILURE_PENALTY: u32 = 3;

/// What a successful cycle takes off the failure counter.
pub const SUCCESS_CREDIT: u32 = 1;

/// Failure count at which the supervisor gives up.
pub const FAILURE_LIMIT: u32 = 9;

/// Pause between two attempts of a busy transaction, in milliseconds.
pub const BUSY_RETRY_PAUSE_MS: u64 = 20;

/// How long a busy transaction is retried, in milliseconds.
pub const BUSY_TIMEOUT_MS: u64 = 10_000;

/// Half the slack, in milliseconds, for an interval and a slack given in
/// thousandths of the interval.
pub open spec fn half_slack(interval_ms: u64, slack_permille: u64) -> int {
    (interval_ms as int * slack_permille as int) / 1000 / 2
}

/// The lowest offset of the next retrieval.
pub open spec fn jitter_low(interval_ms: u64, slack_permille: u64) -> int {
    let h = half_slack(interval_ms, slack_permille);
    if h <= interval_ms {
        interval_ms - h
    } else {
        0
    }
}

/// The bound of the offsets of the next retrieval.
pub open spec fn jitter_high(interval_ms: u64, slack_permille: u64) -> int {
    let h = half_slack(interval_ms, slack_permille);
    if interval_ms + h <= u64::MAX {
        interval_ms + h
    } else {
        u64::MAX as int
    }
}

/// The range the offset of the next retrieval is drawn from: the interval
/// less and plus half the slack, within the range of `u64`.
pub fn jitter_bounds(interval_ms: u64, slack_permille: u64) -> (r: (u64, u64))
    ensures
        r.0 == jitter_low(interval_ms, slack_permille),
        r.1 == jitter_high(interval_ms, slack_permille),
        r.0 <= r.1,
{
    let a = interval_ms as u128;
    let b = slack_permille as u128;
    assert(a * b <= u64::MAX as u128 * u64::MAX as u128) by (nonlinear_arith)
        requires
            a <= u64::MAX,
            b <= u64::MAX,
    ;
    let slack: u128 = a * b / 1000;
    let half: u128 = slack / 2;
    let low: u64 = if half <= interval_ms as u128 {
        interval_ms - half as u64
    } else {
        0
    };
    let high: u64 = if interval_ms as u128 + half <= u64::MAX as u128 {
        (interval_ms as u128 + half) as u64
    } else {
        u64::MAX
    };
    (low, high)
}

/// Relies on rand's `thread_rng` and `Rng::gen_range` over a half-open
/// range: a value in `[lo, hi)`. It panics on an empty range, hence the
/// requirement.
#[verifier::external_body]
fn random_below(lo: u64, hi: u64) -> (r: u64)
    requires
        lo < hi,
    ensures
        lo <= r < hi,
{
    rand::Rng::gen_range(&mut rand::thread_rng(), lo..hi)
}

/// A random offset, in milliseconds, for the next retrieval: drawn from the
/// range of `jitter_bounds`, or its lower end when the range is empty.
pub fn rand_interval(interval_ms: u64, slack_permille: u64) -> (r: u64)
    ensures
        jitter_low(interval_ms, slack_permille) <= r,
        r < jitter_high(interval_ms, slack_permille) || r == jitter_low(interval_ms, slack_permille),
{
    let (low, high) = jitter_bounds(interval_ms, slack_permille);
    if low < high {
        random_below(low, high)
    } else {
        low
    }
}

/// The offsets of the next retrieval lie within `I*(1-s/2)` and
/// `I*(1+s/2)` for interval `I` and slack fraction `s`, written here in
/// thousandths, wherever the slack is at most twice the interval and the
/// upper end fits a `u64`.
pub proof fn jitter_within_slack(interval_ms: u64, slack_permille: u64, offset: int)
    requires
        slack_permille <= 2000,
        interval_ms as int + half_slack(interval_ms, slack_permille) <= u64::MAX,
        jitter_low(interval_ms, slack_permille) <= offset <= jitter_high(interval_ms, slack_permille),
    ensures
        2000 * offset >= interval_ms * (2000 - slack_permille),
        2000 * offset <= interval_ms * (2000 + slack_permille),
{
    let i = interval_ms as int;
    let p = slack_permille as int;
    let h = half_slack(interval_ms, slack_permille);
    assert(0 <= h && 2000 * h <= i * p) by (nonlinear_arith)
        requires
            h == (i * p) / 1000 / 2,
            i >= 0,
            p >= 0,
    ;
    assert(h <= i) by (nonlinear_arith)
        requires
            2000 * h <= i * p,
            p <= 2000,
            i >= 0,
    ;
    assert(i * (2000 - p) == 2000 * i - i * p) by (nonlinear_arith);
    assert(i * (2000 + p) == 2000 * i + i * p) by (nonlinear_arith);
}

/// The next retrieval time, in seconds, for a cycle starting at `now` with
/// a drawn offset in milliseconds, kept within the range of `i64`.
pub open spec fn next_retrieval_at(now: i64, offset_ms: u64) -> int {
    let t = now as int + offset_ms as int / 1000;
    if t > i64::MAX {
        i64::MAX as int
    } else {
        t
    }
}

/// Computes the next retrieval time of a cycle.
pub fn next_retrieval(now: i64, offset_ms: u64) -> (r: i64)
    ensures
        r == next_retrieval_at(now, offset_ms),
{
    let t: i128 = now as i128 + (offset_ms / 1000) as i128;
    if t > i64::MAX as i128 {
        i64::MAX
    } else {
        t as i64
    }
}

/// The sleep after a successful cycle, in milliseconds: the time until the
/// earliest next retrieval, not below zero, plus a margin; with no feed due
/// ever, the refresh interval plus the margin. Kept within `u64`.
pub open spec fn sleep_after(next_due: Option<i64>, now: i64, interval_ms: u64) -> int {
    let base: int = match next_due {
        Some(t) => if t > now {
            (t - now) * 1000
        } else {
            0
        },
        None => interval_ms as int,
    };
    if base + SLEEP_MARGIN_MS > u64::MAX {
        u64::MAX as int
    } else {
        base + SLEEP_MARGIN_MS
    }
}

/// Computes how long to sleep after a successful cycle.
pub fn sleep_duration(next_due: Option<i64>, now: i64, interval_ms: u64) -> (r: u64)
    ensures
        r == sleep_after(next_due, now, interval_ms),
{
    let base: u128 = match next_due {
        Some(t) => if t > now {
            ((t as i128 - now as i128) as u128) * 1000
        } else {
            0
        },
        None => interval_ms as u128,
    };
    if base + (SLEEP_MARGIN_MS as u128) > u64::MAX as u128 {
        u64::MAX
    } else {
        (base + SLEEP_MARGIN_MS as u128) as u64
    }
}

/// The failure counter after a cycle, and whether the supervisor must give
/// up.
pub fn next_failure_count(count: u32, ok: bool) -> (r: (u32, bool))
    ensures
        ok ==> r.0 == if count >= SUCCESS_CREDIT {
            count - SUCCESS_CREDIT
        } else {
            0
        } && !r.1,
        !ok ==> r.0 == if count + FAILURE_PENALTY <= u32::MAX {
            count + FAILURE_PENALTY
        } else {
            u32::MAX as int
        } && r.1 == (r.0 >= FAILURE_LIMIT),
{
    if ok {
        (count.saturating_sub(SUCCESS_CREDIT), false)
    } else {
        let c = count.saturating_add(FAILURE_PENALTY);
        (c, c >= FAILURE_LIMIT)
    }
}

/// What to do after an attempt of a transaction.
#[derive(Clone, Copy, PartialEq, Eq, Debug, Structural)]
pub enum RetryAction {
    /// The attempt ended; hand over its result.
    Finish,
    /// The store was busy; pause this many milliseconds and try again.
    Retry(u64),
    /// The store stayed busy past the deadline; hand over its error.
    GiveUp,
}

/// The deadline of a transaction started at `start_ms`.
pub fn busy_deadline(start_ms: u64) -> (r: u64)
    ensures
        r == if start_ms + BUSY_TIMEOUT_MS <= u64::MAX {
            start_ms + BUSY_TIMEOUT_MS
        } else {
            u64::MAX as int
        },
{
    start_ms.saturating_add(BUSY_TIMEOUT_MS)
}

/// Decides what follows an attempt: a busy store is retried after a short
/// pause until the deadline has passed; anything else ends the transaction.
pub fn after_attempt(busy: bool, now_ms: u64, deadline_ms: u64) -> (r: RetryAction)
    ensures
        !busy ==> r == RetryAction::Finish,
        busy && now_ms >= deadline_ms ==> r == RetryAction::GiveUp,
        busy && now_ms < deadline_ms ==> r == RetryAction::Retry(BUSY_RETRY_PAUSE_MS),
{
    if !busy {
        RetryAction::Finish
    } else if now_ms >= deadline_ms {
        RetryAction::GiveUp
    } else {
        RetryAction::Retry(BUSY_RETRY_PAUSE_MS)
    }
}

} // verus!
