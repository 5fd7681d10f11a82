//! The retry policy: from a failed call and the attempts still allowed,
//! decide whether to sleep and re-issue or to give up.
//!
//! The driver that owns the loop (it must sleep and call again, both of
//! which suspend) asks this function after every failure and performs the
//! action it names.

use vstd::prelude::*;

use crate::errors::Error;

verus! {

/// What to do after a failed attempt.
#[derive(Debug, PartialEq, Eq, Structural, Clone, Copy)]
pub enum RetryDecision {
    /// Sleep this many milliseconds, then re-issue the call.
    RetryAfterMillis(u64),
    /// The error cannot heal with time; surface it at once.
    FailNotRetryable,
    /// The error was retryable but the allowed attempts are used up;
    /// surface it chained with a retry-count-exceeded cause.
    FailExhausted,
}

/// Decides the next step after a failure: a retryable error (one that
/// carries a retry time) is retried after that time as long as attempts
/// remain; a non-retryable error fails at once; a retryable error with no
/// attempts left fails as exhausted.
pub fn retry_decision(err: &Error, attempts_left: usize) -> (r: RetryDecision)
    ensures
        r == (match err.spec_retry_time() {
            Some(t) => if attempts_left > 0 {
                RetryDecision::RetryAfterMillis(t)
            } else {
                RetryDecision::FailExhausted
            },
            None => RetryDecision::FailNotRetryable,
        }),
{
    match err.retry_time() {
        Some(t) => {
            if attempts_left > 0 {
                RetryDecision::RetryAfterMillis(t)
            } else {
                RetryDecision::FailExhausted
            }
        },
        None => RetryDecision::FailNotRetryable,
    }
}

} // verus!
