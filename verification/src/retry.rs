//! Retry state machine with exponential backoff.
//!
//! One lookup against a remote source is driven by this machine: every
//! attempt's outcome is classified, rate-limit and transient failures are
//! retried with a doubling (saturating, never overflowing) backoff, and
//! after the configured number of attempts the lookup resolves to "no
//! result" instead of an error.  The I/O driver performs the attempt and
//! the wait; every decision is taken here.

use vstd::prelude::*;

verus! {

/// The classified outcome of one lookup attempt.
#[derive(Debug, Clone, Copy, PartialEq, Eq, Structural)]
pub enum LookupOutcome {
    /// The attempt succeeded and produced a value held by the caller.
    Found,
    /// The source answered definitively that there is no record.
    NotFound,
    /// The source asked the caller to back off, hinting this many seconds.
    RateLimited(u64),
    /// A transient failure worth retrying.
    Transient,
    /// A permanent failure; retrying cannot help.
    Permanent,
}

/// What the driver must do next with a lookup.
#[derive(Debug, Clone, Copy, PartialEq, Eq, Structural)]
pub enum RetryDecision {
    /// The lookup is resolved; the caller keeps the value of the last
    /// attempt, if any.
    Resolved,
    /// The lookup is abandoned with no result.
    GiveUp,
    /// Wait this many milliseconds, then attempt again.
    Backoff(u64),
}

/// Progress of one retrying lookup.
#[derive(Debug, Clone, Copy, PartialEq, Eq, Structural)]
pub struct RetryState {
    /// Attempts completed so far.
    pub attempts_used: u32,
    /// The current backoff wait in milliseconds.
    pub backoff_ms: u64,
    /// The total number of attempts allowed.
    pub max_retries: u32,
}

/// The backoff wait every lookup starts from, in milliseconds.
pub const INITIAL_BACKOFF_MS: u64 = 500;

/// The default number of attempts allowed.
pub const DEFAULT_MAX_RETRIES: u32 = 3;

/// Doubling that saturates instead of overflowing.
pub open spec fn sat_double(v: u64) -> u64 {
    if v > 0x7fff_ffff_ffff_ffff {
        0xffff_ffff_ffff_ffff
    } else {
        (2 * v) as u64
    }
}

/// Seconds to milliseconds, saturating instead of overflowing.
pub open spec fn sat_secs_to_ms(s: u64) -> u64 {
    if s > 18_446_744_073_709_551 {
        0xffff_ffff_ffff_ffff
    } else {
        (1000 * s) as u64
    }
}

/// The larger of two values.
pub open spec fn max_u64(a: u64, b: u64) -> u64 {
    if a >= b {
        a
    } else {
        b
    }
}

/// The server's backoff hint carried by an outcome, in milliseconds.
pub open spec fn hint_ms(o: LookupOutcome) -> u64 {
    match o {
        LookupOutcome::RateLimited(secs) => sat_secs_to_ms(secs),
        _ => 0,
    }
}

/// Whether an outcome is worth another attempt.
pub open spec fn is_retryable(o: LookupOutcome) -> bool {
    o is RateLimited || o is Transient
}

/// One transition of the retry machine: how the state advances and what
/// the driver must do, given the outcome of the attempt just made.
///
/// A successful or definitively-empty attempt resolves the lookup; a
/// permanent failure abandons it; a rate-limit or transient failure backs
/// off and doubles the wait while attempts remain, and abandons the
/// lookup once `max_retries` attempts are spent.  A rate-limited wait is
/// never shorter than the server's hint.
pub open spec fn step_spec(st: RetryState, o: LookupOutcome) -> (RetryState, RetryDecision) {
    let used = (st.attempts_used + 1) as u32;
    match o {
        LookupOutcome::Found => (RetryState { attempts_used: used, ..st }, RetryDecision::Resolved),
        LookupOutcome::NotFound => (
            RetryState { attempts_used: used, ..st },
            RetryDecision::Resolved,
        ),
        LookupOutcome::Permanent => (
            RetryState { attempts_used: used, ..st },
            RetryDecision::GiveUp,
        ),
        _ => {
            if used < st.max_retries {
                let wait = max_u64(hint_ms(o), st.backoff_ms);
                (
                    RetryState {
                        attempts_used: used,
                        backoff_ms: sat_double(st.backoff_ms),
                        ..st
                    },
                    RetryDecision::Backoff(wait),
                )
            } else {
                (RetryState { attempts_used: used, ..st }, RetryDecision::GiveUp)
            }
        },
    }
}

impl RetryState {
    /// A fresh lookup allowed `max_retries` attempts.
    pub fn new(max_retries: u32) -> (st: RetryState)
        ensures
            st == initial_state(max_retries),
    {
        RetryState { attempts_used: 0, backoff_ms: INITIAL_BACKOFF_MS, max_retries }
    }

    /// Advances the machine over the outcome of the attempt just made and
    /// says what the driver must do next.
    pub fn step(&mut self, outcome: LookupOutcome) -> (d: RetryDecision)
        requires
            old(self).attempts_used < old(self).max_retries,
        ensures
            (*final(self), d) == step_spec(*old(self), outcome),
    {
        self.attempts_used = self.attempts_used + 1;
        match outcome {
            LookupOutcome::Found => RetryDecision::Resolved,
            LookupOutcome::NotFound => RetryDecision::Resolved,
            LookupOutcome::Permanent => RetryDecision::GiveUp,
            LookupOutcome::RateLimited(secs) => {
                if self.attempts_used < self.max_retries {
                    let hint: u64 = if secs > 18_446_744_073_709_551u64 {
                        0xffff_ffff_ffff_ffff
                    } else {
                        1000 * secs
                    };
                    let wait = if hint >= self.backoff_ms {
                        hint
                    } else {
                        self.backoff_ms
                    };
                    self.backoff_ms = if self.backoff_ms > 0x7fff_ffff_ffff_ffff {
                        0xffff_ffff_ffff_ffff
                    } else {
                        2 * self.backoff_ms
                    };
                    RetryDecision::Backoff(wait)
                } else {
                    RetryDecision::GiveUp
                }
            },
            LookupOutcome::Transient => {
                if self.attempts_used < self.max_retries {
                    let wait = self.backoff_ms;
                    self.backoff_ms = if self.backoff_ms > 0x7fff_ffff_ffff_ffff {
                        0xffff_ffff_ffff_ffff
                    } else {
                        2 * self.backoff_ms
                    };
                    RetryDecision::Backoff(wait)
                } else {
                    RetryDecision::GiveUp
                }
            },
        }
    }
}

/// The state a fresh lookup starts from.
pub open spec fn initial_state(max_retries: u32) -> RetryState {
    RetryState { attempts_used: 0, backoff_ms: INITIAL_BACKOFF_MS as u64, max_retries }
}

/// The state after the machine has consumed each outcome in turn.
pub open spec fn state_after(st: RetryState, os: Seq<LookupOutcome>) -> RetryState
    decreases os.len(),
{
    if os.len() == 0 {
        st
    } else {
        state_after(step_spec(st, os[0]).0, os.skip(1))
    }
}

proof fn lemma_state_after_counts(st: RetryState, os: Seq<LookupOutcome>)
    ensures
        state_after(st, os).attempts_used <= st.attempts_used + os.len(),
        state_after(st, os).max_retries == st.max_retries,
        st.attempts_used + os.len() <= u32::MAX ==> state_after(st, os).attempts_used
            == st.attempts_used + os.len(),
        state_after(st, os).backoff_ms >= st.backoff_ms,
    decreases os.len(),
{
    if os.len() > 0 {
        lemma_state_after_counts(step_spec(st, os[0]).0, os.skip(1));
    }
}

/// Backoff monotonicity: when one failing lookup backs off twice in a
/// row, and the server's hint has not shrunk, the second wait is at
/// least as long as the first.  (A hint that shrinks between attempts
/// can shorten the wait: a first answer hinting a long pause followed by
/// a hint-free transient failure waits only the doubled backoff.)
pub proof fn lemma_backoff_monotone(st: RetryState, o1: LookupOutcome, o2: LookupOutcome)
    requires
        is_retryable(o1),
        is_retryable(o2),
        hint_ms(o2) >= hint_ms(o1),
        step_spec(st, o1).1 is Backoff,
        step_spec(step_spec(st, o1).0, o2).1 is Backoff,
    ensures
        step_spec(step_spec(st, o1).0, o2).1->Backoff_0 >= step_spec(st, o1).1->Backoff_0,
{
}

/// Exact exhaustion: a lookup whose every attempt fails retryably backs
/// off after each of the first `max_retries - 1` attempts and resolves
/// to "no result" exactly at attempt `max_retries` — not before, not
/// after.
pub proof fn lemma_resolves_after_exactly_max_retries(max_retries: u32, os: Seq<LookupOutcome>)
    requires
        max_retries >= 1,
        os.len() == max_retries,
        forall|i: int| 0 <= i < os.len() ==> is_retryable(#[trigger] os[i]),
    ensures
        forall|j: int|
            0 <= j < max_retries - 1 ==> (#[trigger] step_spec(
                state_after(initial_state(max_retries), os.take(j)),
                os[j],
            )).1 is Backoff,
        step_spec(
            state_after(initial_state(max_retries), os.take(max_retries - 1)),
            os[max_retries - 1],
        ).1 is GiveUp,
{
    let st0 = initial_state(max_retries);
    assert forall|j: int| 0 <= j < max_retries implies state_after(st0, os.take(j)).attempts_used
        == j && state_after(st0, os.take(j)).max_retries == max_retries by {
        lemma_state_after_counts(st0, os.take(j));
    }
}

/// HTTP-level classification of a response that carried no payload
/// decision yet.
#[derive(Debug, Clone, Copy, PartialEq, Eq, Structural)]
pub enum HttpClass {
    /// A 2xx status: the payload decides found or not found.
    Success,
    /// Too many requests: back off at least the hinted seconds.
    RateLimited(u64),
    /// Any other status: the attempt failed.
    Failure,
}

/// Classifies an HTTP status code, attaching `hint_secs` to the
/// rate-limited case, the way the adapters treat their sources: 429 is a
/// rate limit, the 2xx range is success, anything else is a failure.
pub fn classify_http_status(status: u16, hint_secs: u64) -> (c: HttpClass)
    ensures
        c == (if status == 429 {
            HttpClass::RateLimited(hint_secs)
        } else if 200 <= status < 300 {
            HttpClass::Success
        } else {
            HttpClass::Failure
        }),
{
    if status == 429 {
        HttpClass::RateLimited(hint_secs)
    } else if 200 <= status && status < 300 {
        HttpClass::Success
    } else {
        HttpClass::Failure
    }
}

} // verus!
