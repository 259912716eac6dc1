//! The retry policy for outbound connections: a peer's listener may not yet
//! be bound when all participants start concurrently, so connecting is
//! retried at a fixed interval — but never beyond a fixed attempt budget.

use vstd::prelude::*;
use crate::errors::ProtocolError;

verus! {

/// How many connection attempts a collector may spend on one peer before the
/// run fails with a connection error.
pub const DEFAULT_MAX_ATTEMPTS: usize = 30;

/// A bounded, fixed-interval retry budget.
pub struct RetryPolicy {
    /// Attempts allowed in all; exceeding it is fatal for the run.
    pub max_attempts: usize,
}

impl RetryPolicy {
    /// A policy allowing `max_attempts` tries.
    pub fn new(max_attempts: usize) -> (r: RetryPolicy)
        ensures
            r.max_attempts == max_attempts,
    {
        RetryPolicy { max_attempts }
    }

    /// Whether one more attempt, numbered from zero, is within the budget.
    pub fn allows(&self, attempt: usize) -> (r: bool)
        ensures
            r <==> attempt < self.max_attempts,
    {
        attempt < self.max_attempts
    }
}

/// Whether attempt `t` against a peer whose readiness over time is given by
/// `listening` would succeed; past the recorded horizon the peer never
/// listens.
pub open spec fn attempt_succeeds(listening: Seq<bool>, t: int) -> bool {
    0 <= t < listening.len() && listening[t]
}

/// Decide the outcome of connecting under a retry budget, given when (if
/// ever) the peer starts listening: the first successful attempt within the
/// budget, or a connection error once the budget is spent. Terminates within
/// the budget by construction — a peer that never listens cannot hang the
/// caller.
pub fn connect_outcome(listening: &Vec<bool>, policy: &RetryPolicy) -> (r: Result<
    usize,
    ProtocolError,
>)
    ensures
        r matches Ok(t) ==> t < policy.max_attempts && attempt_succeeds(listening@, t as int)
            && forall|u: int| 0 <= u < t ==> !attempt_succeeds(listening@, u),
        r is Err <==> forall|u: int|
            0 <= u < policy.max_attempts ==> !attempt_succeeds(listening@, u),
        r matches Err(e) ==> e == ProtocolError::ConnectionError,
{
    let mut t: usize = 0;
    while t < policy.max_attempts
        invariant
            t <= policy.max_attempts,
            forall|u: int| 0 <= u < t ==> !attempt_succeeds(listening@, u),
        decreases policy.max_attempts - t,
    {
        if t < listening.len() && listening[t] {
            proof {
                assert(attempt_succeeds(listening@, t as int));
            }
            return Ok(t);
        }
        t = t + 1;
    }
    Err(ProtocolError::ConnectionError)
}

} // verus!
