//! The wire codec: every message is one fixed-width 64-bit integer, so each
//! frame is exactly eight bytes. A connection carries one identity token
//! (client to server) and one signed payload (server to client).

use vstd::prelude::*;
use crate::errors::ProtocolError;

verus! {

/// Number of bytes in every wire frame.
pub const FRAME_LEN: usize = 8;

/// The byte encoding of a signed payload value on the wire.
pub uninterp spec fn wire_i64(v: i64) -> Seq<u8>;

/// The byte encoding of an identity token on the wire.
pub uninterp spec fn wire_u64(v: u64) -> Seq<u8>;

/// Relies on `bincode::serialize`, whose default configuration writes an
/// `i64` as exactly eight fixed-width bytes, a function of the value alone.
#[verifier::external_body]
fn bincode_encode_i64(v: i64) -> (r: Vec<u8>)
    ensures
        r@ == wire_i64(v),
        r@.len() == 8,
{
    bincode::serialize(&v).unwrap()
}

/// Relies on `bincode::deserialize`, whose default configuration reads an
/// `i64` from the first eight bytes exactly as `serialize` wrote it, fails on
/// fewer, and ignores trailing bytes.
#[verifier::external_body]
fn bincode_decode_i64(buf: &Vec<u8>) -> (r: Option<i64>)
    ensures
        r is Some <==> buf@.len() >= 8,
        forall|w: i64| buf@ == #[trigger] wire_i64(w) ==> r == Some(w),
        r matches Some(v) ==> wire_i64(v) == buf@.subrange(0, 8),
{
    match bincode::deserialize::<i64>(buf) {
        Ok(v) => Some(v),
        Err(_) => None,
    }
}

/// Relies on `bincode::serialize`, whose default configuration writes a
/// `u64` as exactly eight fixed-width bytes, a function of the value alone.
#[verifier::external_body]
fn bincode_encode_u64(v: u64) -> (r: Vec<u8>)
    ensures
        r@ == wire_u64(v),
        r@.len() == 8,
{
    bincode::serialize(&v).unwrap()
}

/// Relies on `bincode::deserialize`, whose default configuration reads a
/// `u64` from the first eight bytes exactly as `serialize` wrote it, fails on
/// fewer, and ignores trailing bytes.
#[verifier::external_body]
fn bincode_decode_u64(buf: &Vec<u8>) -> (r: Option<u64>)
    ensures
        r is Some <==> buf@.len() >= 8,
        forall|w: u64| buf@ == #[trigger] wire_u64(w) ==> r == Some(w),
        r matches Some(v) ==> wire_u64(v) == buf@.subrange(0, 8),
{
    match bincode::deserialize::<u64>(buf) {
        Ok(v) => Some(v),
        Err(_) => None,
    }
}

/// Frame a payload value for the wire.
pub(crate) fn encode_payload(v: i64) -> (r: Vec<u8>)
    ensures
        r@ == wire_i64(v),
        r@.len() == FRAME_LEN,
{
    bincode_encode_i64(v)
}

/// The identity token a collector announces itself with.
pub fn identity_token(id: usize) -> (r: Vec<u8>)
    ensures
        r@ == wire_u64(id as u64),
        r@.len() == FRAME_LEN,
{
    bincode_encode_u64(id as u64)
}

/// Parse and validate an inbound identity token: it must be exactly one
/// frame long and name a participant below `count`.
pub fn parse_identity(buf: &Vec<u8>, count: usize) -> (r: Result<usize, ProtocolError>)
    ensures
        r matches Ok(id) ==> id < count && buf@.len() == FRAME_LEN && buf@ == wire_u64(
            id as u64,
        ),
        forall|w: u64|
            buf@.len() == FRAME_LEN && buf@ == #[trigger] wire_u64(w) ==> if w < count as u64 {
                r == Ok::<usize, ProtocolError>(w as usize)
            } else {
                r == Err::<usize, ProtocolError>(ProtocolError::ProtocolViolation)
            },
        r matches Err(e) ==> e == ProtocolError::ProtocolViolation,
{
    if buf.len() != FRAME_LEN {
        return Err(ProtocolError::ProtocolViolation);
    }
    match bincode_decode_u64(buf) {
        Some(w) => {
            proof {
                assert(buf@.subrange(0, 8) =~= buf@);
            }
            if w < count as u64 {
                Ok(w as usize)
            } else {
                Err(ProtocolError::ProtocolViolation)
            }
        },
        None => Err(ProtocolError::ProtocolViolation),
    }
}

/// Parse and validate an inbound payload frame: exactly one frame long.
pub fn read_reply(buf: &Vec<u8>) -> (r: Result<i64, ProtocolError>)
    ensures
        r is Ok <==> buf@.len() == FRAME_LEN,
        r matches Ok(v) ==> buf@ == wire_i64(v),
        forall|w: i64|
            buf@.len() == FRAME_LEN && buf@ == #[trigger] wire_i64(w) ==> r == Ok::<
                i64,
                ProtocolError,
            >(w),
        r matches Err(e) ==> e == ProtocolError::ProtocolViolation,
{
    if buf.len() != FRAME_LEN {
        return Err(ProtocolError::ProtocolViolation);
    }
    match bincode_decode_i64(buf) {
        Some(v) => {
            proof {
                assert(buf@.subrange(0, 8) =~= buf@);
            }
            Ok(v)
        },
        None => Err(ProtocolError::ProtocolViolation),
    }
}

} // verus!
