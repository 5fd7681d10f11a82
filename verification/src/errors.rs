//! The error taxonomy of the client core, and the retry hints it carries.

use vstd::prelude::*;

use crate::endpoint::Status;

verus! {

/// What went wrong with one call.  Errors bubble upward unmodified; the
/// retry driver inspects [`Error::can_retry`] and [`Error::retry_time`]
/// to decide whether to sleep and re-issue.
#[derive(Debug, PartialEq, Eq, Structural, Clone, Copy)]
pub enum Error {
    /// Admission refused the request because a cooldown is active.
    /// Carries a snapshot of the endpoint's status and the cooldown time
    /// that remained at the moment of refusal.
    EndpointNotReady { status: Status, remaining_millis: u64 },
    /// The server answered 429.  Carries a retry hint: the longest
    /// cooldown remaining across the affected endpoints after the 429 was
    /// folded in.
    TooManyRequests { retry_after_millis: u64 },
    /// A non-2xx response other than 429.
    HttpStatus(u16),
    /// A malformed rate-limit or date header.  Fatal for that call.
    HeaderParse,
    /// The response body did not decode into the expected payload.
    BodyDecode,
    /// A connection, TLS or timeout failure in the HTTP layer.
    Transport,
    /// A subordinate task failed.
    Join,
}

impl Error {
    /// The sleep the retry driver should honour: the remaining cooldown
    /// of a refused admission (when non-zero), or the hint carried by a
    /// 429.  `None` for everything else.
    pub open spec fn spec_retry_time(self) -> Option<u64> {
        match self {
            Error::EndpointNotReady { status, remaining_millis } => {
                if status is Cooldown && remaining_millis > 0 {
                    Some(remaining_millis)
                } else {
                    None
                }
            },
            Error::TooManyRequests { retry_after_millis } => Some(retry_after_millis),
            _ => None,
        }
    }

    /// The milliseconds to wait before a retry is worth attempting, when
    /// the error is retryable.
    pub fn retry_time(&self) -> (r: Option<u64>)
        ensures
            r == self.spec_retry_time(),
    {
        match self {
            Error::EndpointNotReady { status, remaining_millis } => {
                match status {
                    Status::Cooldown(_) => {
                        if *remaining_millis > 0 {
                            Some(*remaining_millis)
                        } else {
                            None
                        }
                    },
                    _ => None,
                }
            },
            Error::TooManyRequests { retry_after_millis } => Some(*retry_after_millis),
            _ => None,
        }
    }

    /// Whether a retry can succeed later: true exactly when the error
    /// carries a retry time — an admission refusal with cooldown time
    /// still remaining, or a 429.
    pub fn can_retry(&self) -> (r: bool)
        ensures
            r == (self.spec_retry_time() is Some),
    {
        self.retry_time().is_some()
    }
}

} // verus!
