//! Additive secret sharing for secure averaging.
//!
//! N mutually distrusting participants each hold one private integer. The
//! library splits each value into randomized shares that sum back to it,
//! correlates a two-phase peer-to-peer exchange by explicit identity
//! handshakes, and lets every participant compute the common average without
//! learning another participant's raw value. All protocol logic is verified;
//! network transport lives outside the library.

use vstd::prelude::*;

pub mod address;
pub mod arith;
pub mod codec;
pub mod split;
pub mod errors;
pub mod exchange;
pub mod orchestrator;
pub mod retry;
pub mod session;

verus! {

/// Largest participant count the protocol supports; keeps every port
/// `base + id` a valid port and every accumulator within machine range.
pub const MAX_PARTIES: usize = 1024;

/// Largest magnitude a private value may have; keeps every share and every
/// column sum representable in the wire's 64-bit signed payload.
pub const SECRET_BOUND: i64 = 0x8_0000_0000_0000;

} // verus!
