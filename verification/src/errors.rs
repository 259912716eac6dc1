//! The protocol's error taxonomy.

use vstd::prelude::*;

verus! {

/// Every way a participant's run can fail.
#[derive(Clone, Copy, Debug, PartialEq, Eq, Structural)]
pub enum ProtocolError {
    /// Shares failed the self-check that they sum to the secret: an internal
    /// defect, never produced by this library's own splitter.
    SplitInvariantViolation,
    /// A peer's endpoint never became reachable within the retry budget, or a
    /// phase ended with messages still owed.
    ConnectionError,
    /// A malformed or out-of-range message arrived on an established
    /// connection.
    ProtocolViolation,
    /// A reported average differs from the independently computed expected
    /// value; raised only by the verification self-check, never by a run.
    AggregationMismatch,
}

impl ProtocolError {
    /// Short human-readable description.
    pub fn describe(&self) -> (r: &'static str) {
        match self {
            ProtocolError::SplitInvariantViolation => "shares do not sum to the secret",
            ProtocolError::ConnectionError => "peer unreachable within the retry budget",
            ProtocolError::ProtocolViolation => "malformed or out-of-range message",
            ProtocolError::AggregationMismatch => "reported average disagrees with expectation",
        }
    }
}

} // verus!
