use vstd::prelude::*;

use crate::error::AppError;

verus! {

// Fetching is outside work, so the retry policy is a decision function: the
// caller issues the GET, hands the outcome in, and acts on the decision —
// deliver the body, sleep and retry the same address, or fail. One budget
// covers rate limiting and transport failures alike; the backoff delay
// starts at one second and doubles on every retry.

/// The retry budget and backoff state of one fetch.
#[derive(Clone, Copy, Debug, PartialEq, Eq)]
pub struct RetryState {
    /// Retries spent so far.
    pub retries: u64,
    /// Seconds to sleep before the next retry.
    pub delay_secs: u64,
    /// The budget: how many retries may be spent in all.
    pub max_retries: u64,
}

/// The outcome of one GET attempt, as the caller observed it.
pub enum FetchEvent {
    /// A response arrived; 2xx status carries the body text.
    Response { status: u16, body: String },
    /// The transport failed before any response (name lookup, reset,
    /// timeout).
    Transport,
}

/// What to do with an attempt's outcome.
#[derive(Debug, PartialEq, Eq)]
pub enum RetryDecision {
    /// Success: return this body.
    Deliver(String),
    /// Sleep this many seconds, then try the same address again.
    Backoff(u64),
    /// Give up with this error.
    Fail(AppError),
}

/// The doubled backoff delay, saturating instead of overflowing.
pub open spec fn next_delay(d: u64) -> u64 {
    if d <= u64::MAX / 2 {
        (2 * d) as u64
    } else {
        d
    }
}

impl RetryState {
    /// A fresh attempt: no retries spent, first backoff one second.
    pub fn new(max_retries: u64) -> (st: RetryState)
        ensures
            st == (RetryState { retries: 0, delay_secs: 1, max_retries }),
    {
        RetryState { retries: 0, delay_secs: 1, max_retries }
    }

    /// Decide on one attempt's outcome.
    ///
    /// A 2xx response delivers its body. A 429 response retries after the
    /// current delay — doubling it and spending one retry — unless the
    /// budget is spent, which fails with `RateLimited` and the retries used.
    /// Any other status fails at once with `HttpStatus`. A transport failure
    /// retries exactly as 429 does, from the same shared budget, and fails
    /// with `Network` once the budget is spent.
    pub fn on_event(&self, ev: FetchEvent) -> (r: (RetryState, RetryDecision))
        ensures
            match ev {
                FetchEvent::Response { status, body } => {
                    if 200 <= status < 300 {
                        r.0 == *self && r.1 == RetryDecision::Deliver(body)
                    } else if status == 429 {
                        if self.retries >= self.max_retries {
                            r.0 == *self && r.1 == RetryDecision::Fail(
                                AppError::RateLimited(self.retries),
                            )
                        } else {
                            r.0 == (RetryState {
                                retries: (self.retries + 1) as u64,
                                delay_secs: next_delay(self.delay_secs),
                                max_retries: self.max_retries,
                            }) && r.1 == RetryDecision::Backoff(self.delay_secs)
                        }
                    } else {
                        r.0 == *self && r.1 == RetryDecision::Fail(AppError::HttpStatus(status))
                    }
                },
                FetchEvent::Transport => {
                    if self.retries >= self.max_retries {
                        r.0 == *self && r.1 == RetryDecision::Fail(AppError::Network)
                    } else {
                        r.0 == (RetryState {
                            retries: (self.retries + 1) as u64,
                            delay_secs: next_delay(self.delay_secs),
                            max_retries: self.max_retries,
                        }) && r.1 == RetryDecision::Backoff(self.delay_secs)
                    }
                },
            },
    {
        match ev {
            FetchEvent::Response { status, body } => {
                if 200 <= status && status < 300 {
                    (*self, RetryDecision::Deliver(body))
                } else if status == 429 {
                    self.backoff_or(AppError::RateLimited(self.retries))
                } else {
                    (*self, RetryDecision::Fail(AppError::HttpStatus(status)))
                }
            },
            FetchEvent::Transport => self.backoff_or(AppError::Network),
        }
    }

    /// Spend one retry if the budget allows, else fail with `err`.
    fn backoff_or(&self, err: AppError) -> (r: (RetryState, RetryDecision))
        ensures
            self.retries >= self.max_retries ==> r.0 == *self && r.1 == RetryDecision::Fail(err),
            self.retries < self.max_retries ==> r.0 == (RetryState {
                retries: (self.retries + 1) as u64,
                delay_secs: next_delay(self.delay_secs),
                max_retries: self.max_retries,
            }) && r.1 == RetryDecision::Backoff(self.delay_secs),
    {
        if self.retries >= self.max_retries {
            (*self, RetryDecision::Fail(err))
        } else {
            let doubled: u64 = if self.delay_secs <= u64::MAX / 2 {
                2 * self.delay_secs
            } else {
                self.delay_secs
            };
            (
                RetryState {
                    retries: (self.retries + 1) as u64,
                    delay_secs: doubled,
                    max_retries: self.max_retries,
                },
                RetryDecision::Backoff(self.delay_secs),
            )
        }
    }

}

} // verus!
