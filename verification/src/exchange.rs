//! The two-role exchange primitive. Within one phase a participant serves the
//! values it owes (Distributor) and gathers the values owed to it
//! (Collector). Every inbound connection first declares the caller's identity,
//! so correctness never depends on arrival order.

use vstd::prelude::*;
use crate::codec::{
    encode_payload, identity_token, parse_identity, read_reply, wire_i64, wire_u64, FRAME_LEN,
};
use crate::errors::ProtocolError;
use crate::split::SHARE_BOUND;
use crate::MAX_PARTIES;

verus! {

/// Largest magnitude a phase payload can have: a full column of shares summed.
pub const PAYLOAD_BOUND: i64 = 1024 * SHARE_BOUND;

/// The serving role for one phase: owns the payload vector and answers each
/// identified caller with the entry destined for it, at most once per caller.
pub struct Distributor {
    /// This participant's own identifier.
    pub self_id: usize,
    /// Number of participants in the run.
    pub count: usize,
    /// What this participant owes each participant, indexed by identity.
    pub payload: Vec<i64>,
    /// Which callers have already been answered.
    pub served: Vec<bool>,
}

impl Distributor {
    /// Structural invariant.
    pub open spec fn wf(self) -> bool {
        &&& self.self_id < self.count <= MAX_PARTIES
        &&& self.payload@.len() == self.count
        &&& self.served@.len() == self.count
        &&& !self.served@[self.self_id as int]
    }

    /// Start serving a phase: nobody has been answered yet.
    pub fn new(self_id: usize, count: usize, payload: Vec<i64>) -> (r: Distributor)
        requires
            self_id < count <= MAX_PARTIES,
            payload@.len() == count,
        ensures
            r.wf(),
            r.self_id == self_id,
            r.count == count,
            r.payload == payload,
            forall|j: int| 0 <= j < count ==> !r.served@[j],
    {
        let mut served: Vec<bool> = Vec::new();
        let mut i: usize = 0;
        while i < count
            invariant
                i <= count,
                served@.len() == i,
                forall|j: int| 0 <= j < i ==> !served@[j],
            decreases count - i,
        {
            served.push(false);
            i = i + 1;
        }
        Distributor { self_id, count, payload, served }
    }

    /// Serve one inbound connection: read the caller's identity token, and
    /// reply with the payload entry indexed by that identity. A malformed
    /// token, a token naming this participant itself, or a repeated caller is
    /// a protocol violation; the state is then unchanged and the phase may
    /// continue with the remaining peers.
    pub fn handle_request(&mut self, token: &Vec<u8>) -> (r: Result<Vec<u8>, ProtocolError>)
        requires
            old(self).wf(),
        ensures
            final(self).wf(),
            final(self).self_id == old(self).self_id,
            final(self).count == old(self).count,
            final(self).payload == old(self).payload,
            r is Err ==> final(self).served@ == old(self).served@,
            r matches Err(e) ==> e == ProtocolError::ProtocolViolation,
            token@.len() != FRAME_LEN ==> r is Err,
            r matches Ok(reply) ==> reply@.len() == FRAME_LEN,
            r matches Ok(reply) ==> exists|id: int|
                0 <= id < old(self).count && id != old(self).self_id && !old(self).served@[id]
                    && final(self).served@ == old(self).served@.update(id, true) && reply@
                    == wire_i64(old(self).payload@[id]),
            forall|w: u64|
                token@.len() == FRAME_LEN && token@ == #[trigger] wire_u64(w) ==> {
                    if w < old(self).count as u64 && w != old(self).self_id as u64 && !old(
                        self,
                    ).served@[w as int] {
                        &&& r is Ok
                        &&& final(self).served@ == old(self).served@.update(w as int, true)
                        &&& (r matches Ok(reply) ==> reply@ == wire_i64(
                            old(self).payload@[w as int],
                        ))
                    } else {
                        r is Err
                    }
                },
    {
        let id = match parse_identity(token, self.count) {
            Ok(id) => id,
            Err(e) => {
                return Err(e);
            },
        };
        if id == self.self_id {
            return Err(ProtocolError::ProtocolViolation);
        }
        if self.served[id] {
            return Err(ProtocolError::ProtocolViolation);
        }
        self.served.set(id, true);
        Ok(encode_payload(self.payload[id]))
    }

    /// Whether every other participant has been served.
    pub fn done(&self) -> (r: bool)
        requires
            self.wf(),
        ensures
            r <==> forall|j: int| 0 <= j < self.count && j != self.self_id ==> self.served@[j],
    {
        let mut i: usize = 0;
        while i < self.count
            invariant
                self.wf(),
                i <= self.count,
                forall|j: int| 0 <= j < i && j != self.self_id ==> self.served@[j],
            decreases self.count - i,
        {
            if i != self.self_id && !self.served[i] {
                return false;
            }
            i = i + 1;
        }
        true
    }
}

/// How far a total can drift after folding in `k` bounded values.
pub open spec fn fold_bound(k: int) -> int {
    k * (PAYLOAD_BOUND as int)
}

proof fn lemma_fold_bound(k: int)
    by (nonlinear_arith)
    requires
        0 <= k <= 1024,
    ensures
        fold_bound(k + 1) == fold_bound(k) + (PAYLOAD_BOUND as int),
        0 <= fold_bound(k) <= 1024 * (PAYLOAD_BOUND as int),
{
}

/// The gathering role for one phase: announces this participant's identity to
/// each peer and combines the replies by an order-independent summation.
pub struct Collector {
    /// This participant's own identifier.
    pub self_id: usize,
    /// Number of participants in the run.
    pub count: usize,
    /// Replies still owed by peers.
    pub pending: usize,
    /// Order-independent reduction of the values gathered so far, seeded with
    /// the value this participant owes itself.
    pub total: i128,
}

impl Collector {
    /// Structural invariant: the running total stays within one payload bound
    /// per value folded in.
    pub open spec fn wf(self) -> bool {
        &&& self.self_id < self.count <= MAX_PARTIES
        &&& self.pending < self.count
        &&& -fold_bound((self.count - self.pending) as int) <= self.total <= fold_bound(
            (self.count - self.pending) as int,
        )
    }

    /// Start gathering a phase, seeded with the self-retained value.
    pub fn new(self_id: usize, count: usize, own_value: i64) -> (r: Collector)
        requires
            self_id < count <= MAX_PARTIES,
            -PAYLOAD_BOUND <= own_value <= PAYLOAD_BOUND,
        ensures
            r.wf(),
            r.self_id == self_id,
            r.count == count,
            r.pending == count - 1,
            r.total == own_value as int,
    {
        proof {
            lemma_fold_bound(0);
            lemma_fold_bound(1);
        }
        Collector { self_id, count, pending: count - 1, total: own_value as i128 }
    }

    /// The token this collector opens every outbound connection with.
    pub fn token(&self) -> (r: Vec<u8>)
        ensures
            r@ == wire_u64(self.self_id as u64),
            r@.len() == FRAME_LEN,
    {
        identity_token(self.self_id)
    }

    /// Fold in one peer's reply. A malformed frame, an out-of-range value, or
    /// a reply beyond the expected count is a protocol violation; the state is
    /// then unchanged.
    pub fn record(&mut self, reply: &Vec<u8>) -> (r: Result<(), ProtocolError>)
        requires
            old(self).wf(),
        ensures
            final(self).wf(),
            final(self).self_id == old(self).self_id,
            final(self).count == old(self).count,
            r is Err ==> *final(self) == *old(self),
            r matches Err(e) ==> e == ProtocolError::ProtocolViolation,
            reply@.len() != FRAME_LEN ==> r is Err,
            r is Ok ==> old(self).pending > 0 && final(self).pending == old(self).pending - 1
                && exists|w: i64|
                -PAYLOAD_BOUND <= w <= PAYLOAD_BOUND && reply@ == #[trigger] wire_i64(w)
                    && final(self).total == old(self).total + w,
            forall|w: i64|
                reply@.len() == FRAME_LEN && reply@ == #[trigger] wire_i64(w) ==> {
                    if -PAYLOAD_BOUND <= w <= PAYLOAD_BOUND && old(self).pending > 0 {
                        r is Ok && final(self).total == old(self).total + w
                    } else {
                        r is Err
                    }
                },
    {
        if self.pending == 0 {
            return Err(ProtocolError::ProtocolViolation);
        }
        let v = match read_reply(reply) {
            Ok(v) => v,
            Err(e) => {
                return Err(e);
            },
        };
        if v < -PAYLOAD_BOUND || v > PAYLOAD_BOUND {
            return Err(ProtocolError::ProtocolViolation);
        }
        proof {
            lemma_fold_bound((self.count - self.pending) as int);
        }
        self.pending = self.pending - 1;
        self.total = self.total + v as i128;
        Ok(())
    }

    /// Whether every owed reply has arrived.
    pub fn complete(&self) -> (r: bool)
        ensures
            r <==> self.pending == 0,
    {
        self.pending == 0
    }

    /// The gathered total, if it fits the wire's payload range; the next
    /// phase sends it on as this participant's single owed value.
    pub fn as_payload(&self) -> (r: Option<i64>)
        ensures
            r is Some <==> -PAYLOAD_BOUND <= self.total <= PAYLOAD_BOUND,
            r matches Some(v) ==> v as int == self.total as int,
    {
        if self.total >= -PAYLOAD_BOUND as i128 && self.total <= PAYLOAD_BOUND as i128 {
            Some(self.total as i64)
        } else {
            None
        }
    }
}

} // verus!
