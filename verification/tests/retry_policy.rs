//! The retry policy against simulated call outcomes.

use lol_match_crawler::endpoint::{CooldownState, Status};
use lol_match_crawler::errors::Error;
use lol_match_crawler::retry::{retry_decision, RetryDecision};

fn not_ready(remaining_millis: u64) -> Error {
    Error::EndpointNotReady {
        status: Status::Cooldown(CooldownState { start_millis: 0, duration_millis: 1_000 }),
        remaining_millis,
    }
}

#[test]
fn retry_honours_the_hint() {
    // the call fails three times with half a second remaining, then succeeds
    let outcomes: [Result<(), Error>; 4] =
        [Err(not_ready(500)), Err(not_ready(500)), Err(not_ready(500)), Ok(())];
    let mut attempts_left: usize = 3;
    let mut invocations: usize = 0;
    let mut slept_millis: u64 = 0;
    let mut result: Result<(), Error> = Err(not_ready(500));
    for outcome in outcomes {
        invocations += 1;
        match outcome {
            Ok(()) => {
                result = Ok(());
                break;
            },
            Err(e) => {
                match retry_decision(&e, attempts_left) {
                    RetryDecision::RetryAfterMillis(t) => {
                        assert_eq!(t, 500);
                        slept_millis += t;
                        attempts_left -= 1;
                    },
                    _ => {
                        result = Err(e);
                        break;
                    },
                }
            },
        }
    }
    assert!(result.is_ok());
    assert_eq!(invocations, 4);
    assert!(slept_millis >= 1_500);
}

#[test]
fn exhausted_attempts_fail_as_exceeded() {
    assert_eq!(retry_decision(&not_ready(500), 0), RetryDecision::FailExhausted);
}

#[test]
fn non_retryable_errors_fail_at_once() {
    assert_eq!(
        retry_decision(&Error::HttpStatus(500), 3),
        RetryDecision::FailNotRetryable
    );
    assert_eq!(
        retry_decision(&Error::HeaderParse, 3),
        RetryDecision::FailNotRetryable
    );
    assert_eq!(retry_decision(&Error::Transport, 3), RetryDecision::FailNotRetryable);
    assert_eq!(retry_decision(&Error::BodyDecode, 1), RetryDecision::FailNotRetryable);
    assert_eq!(retry_decision(&Error::Join, 1), RetryDecision::FailNotRetryable);
    // a refusal whose cooldown has fully run out carries no retry time
    assert_eq!(retry_decision(&not_ready(0), 3), RetryDecision::FailNotRetryable);
}

#[test]
fn too_many_requests_is_retryable() {
    let err = Error::TooManyRequests { retry_after_millis: 15_000 };
    assert!(err.can_retry());
    assert_eq!(err.retry_time(), Some(15_000));
    assert_eq!(
        retry_decision(&err, 2),
        RetryDecision::RetryAfterMillis(15_000)
    );
}

#[test]
fn refusal_retry_time_matches_remaining_cooldown() {
    let err = not_ready(750);
    assert!(err.can_retry());
    assert_eq!(err.retry_time(), Some(750));
}
