use vstd::prelude::*;

verus! {

/// What a fetch loop should do after one failed attempt.
#[derive(Clone, Copy, PartialEq, Eq, Structural, Debug)]
pub enum RetryDecision {
    Retry { delay_ms: u64 },
    GiveUp,
}

/// Double, saturating at the largest value.
pub open spec fn sat_dbl(x: u64) -> u64 {
    if x > u64::MAX / 2 {
        u64::MAX
    } else {
        (2 * x) as u64
    }
}

/// Exponential backoff: the base delay doubled once per attempt already
/// made, capped after sixteen doublings and saturating.
pub open spec fn spec_backoff(base: u64, attempt: u32) -> u64
    decreases attempt,
{
    if attempt == 0 {
        base
    } else if attempt > 16 {
        spec_backoff(base, 16)
    } else {
        sat_dbl(spec_backoff(base, (attempt - 1) as u32))
    }
}

/// Decide whether a transient fetch failure is retried, and after how
/// long, or whether the attempts are exhausted and the failure surfaces.
pub fn retry_decision(attempt: u32, max_retries: u32, base_delay_ms: u64) -> (r: RetryDecision)
    ensures
        attempt >= max_retries ==> r == RetryDecision::GiveUp,
        attempt < max_retries ==> r == (RetryDecision::Retry {
            delay_ms: spec_backoff(base_delay_ms, attempt),
        }),
{
    if attempt >= max_retries {
        return RetryDecision::GiveUp;
    }
    let capped: u32 = if attempt > 16 {
        16
    } else {
        attempt
    };
    let mut d: u64 = base_delay_ms;
    let mut i: u32 = 0;
    while i < capped
        invariant
            0 <= i <= capped,
            capped <= 16,
            d == spec_backoff(base_delay_ms, i),
        decreases capped - i,
    {
        if d > u64::MAX / 2 {
            d = u64::MAX;
        } else {
            d = 2 * d;
        }
        i = i + 1;
    }
    proof {
        if attempt > 16 {
            assert(spec_backoff(base_delay_ms, attempt) == spec_backoff(base_delay_ms, 16));
        }
    }
    RetryDecision::Retry { delay_ms: d }
}

} // verus!
