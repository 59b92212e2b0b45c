//! Trying a failed turn again.

use vstd::prelude::*;

verus! {

/// The delays between tries: they grow, and stay at the largest one.
pub struct RetrySchedule;

/// The delay before the given try, in seconds; the tries are counted from one.
pub open spec fn delay_of(attempt: int) -> u64 {
    if attempt <= 1 {
        3
    } else if attempt == 2 {
        5
    } else if attempt == 3 {
        10
    } else if attempt == 4 {
        20
    } else if attempt == 5 {
        30
    } else {
        60
    }
}

impl RetrySchedule {
    /// The delay before the given try, in seconds.
    pub fn delay_secs(attempt: usize) -> (r: u64)
        ensures
            r == delay_of(attempt as int),
    {
        if attempt <= 1 {
            3
        } else if attempt == 2 {
            5
        } else if attempt == 3 {
            10
        } else if attempt == 4 {
            20
        } else if attempt == 5 {
            30
        } else {
            60
        }
    }
}

/// The delays never shrink, and are never longer than a minute.
pub proof fn lemma_delays_escalate(a: int, b: int)
    requires
        a <= b,
    ensures
        3 <= delay_of(a) <= delay_of(b) <= 60,
{
}

/// The next try and its delay; none once the limit is reached.
pub fn next_connection_retry(attempts_so_far: usize, max_retries: usize) -> (r: Option<
    (usize, u64),
>)
    ensures
        if attempts_so_far < max_retries {
            r == Some(((attempts_so_far + 1) as usize, delay_of(attempts_so_far + 1)))
        } else {
            r is None
        },
{
    match attempts_so_far.checked_add(1) {
        Some(attempt) => if attempt > max_retries {
            None
        } else {
            Some((attempt, RetrySchedule::delay_secs(attempt)))
        },
        None => None,
    }
}

}
