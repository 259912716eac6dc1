//! Driving one participant through the protocol: split, exchange shares, sum
//! the column, exchange sums, average, report. Transitions are strictly
//! sequential and local; the exchange roles do all cross-participant work.

use vstd::prelude::*;
use crate::errors::ProtocolError;
use crate::exchange::{Collector, Distributor, PAYLOAD_BOUND};
use crate::split::{split, SHARE_BOUND};
use crate::arith::{ints_of, sum_int};
use crate::{MAX_PARTIES, SECRET_BOUND};

verus! {

/// The average every participant reports: the global sum divided by the
/// participant count, truncated toward zero — the one division policy all
/// participants share.
pub open spec fn spec_average(total: int, count: int) -> int
    recommends
        count >= 1,
{
    if total >= 0 {
        total / count
    } else {
        -((-total) / count)
    }
}

/// Truncating division of the global sum by the participant count.
pub fn average_of(total: i64, count: usize) -> (r: i64)
    requires
        1 <= count <= MAX_PARTIES,
        total > i64::MIN,
    ensures
        r as int == spec_average(total as int, count as int),
{
    total / (count as i64)
}

/// How one participant's own value stands against the common average.
#[derive(Clone, Copy, Debug, PartialEq, Eq, Structural)]
pub enum Standing {
    /// The participant's value exceeds the average.
    Above,
    /// The participant's value equals the average.
    Equal,
    /// The participant's value falls short of the average.
    Below,
}

/// Compare a participant's own value against the average it computed.
pub fn classify(secret: i64, average: i64) -> (r: Standing)
    ensures
        r == Standing::Above <==> secret > average,
        r == Standing::Equal <==> secret == average,
        r == Standing::Below <==> secret < average,
{
    if secret > average {
        Standing::Above
    } else if secret == average {
        Standing::Equal
    } else {
        Standing::Below
    }
}

/// The strictly sequential states one participant passes through.
#[derive(Clone, Copy, Debug, PartialEq, Eq, Structural)]
pub enum Phase {
    /// Nothing has happened yet.
    Idle,
    /// The secret has been split into shares.
    Splitting,
    /// Phase one: shares are being exchanged.
    ExchangingShares,
    /// The local column sum is fixed.
    SummingColumn,
    /// Phase two: column sums are being exchanged.
    ExchangingSums,
    /// The global sum is fixed.
    ComputingAverage,
    /// The average is fixed and may be reported.
    Reporting,
    /// Absorbing final state.
    Terminated,
}

/// Position of a phase in the strict sequence.
pub open spec fn phase_index(p: Phase) -> int {
    match p {
        Phase::Idle => 0,
        Phase::Splitting => 1,
        Phase::ExchangingShares => 2,
        Phase::SummingColumn => 3,
        Phase::ExchangingSums => 4,
        Phase::ComputingAverage => 5,
        Phase::Reporting => 6,
        Phase::Terminated => 7,
    }
}

/// One participant's run of the protocol.
pub struct Party {
    /// This participant's identifier.
    pub id: usize,
    /// Number of participants.
    pub count: usize,
    /// The private value; never placed on the wire in raw form.
    pub secret: i64,
    /// Where in the sequence this participant stands.
    pub phase: Phase,
    /// The share vector, valid from `Splitting` on.
    pub shares: Vec<i64>,
    /// The local column sum, valid from `SummingColumn` on.
    pub local_sum: i64,
    /// The global sum, valid from `ComputingAverage` on.
    pub global_sum: i64,
    /// The average, valid from `Reporting` on.
    pub average: i64,
}

impl Party {
    /// What holds of a participant in every reachable state.
    pub open spec fn inv(self) -> bool {
        &&& self.id < self.count <= MAX_PARTIES
        &&& -SECRET_BOUND <= self.secret <= SECRET_BOUND
        &&& phase_index(self.phase) >= 1 ==> {
            &&& self.shares@.len() == self.count
            &&& sum_int(ints_of(self.shares@)) == self.secret as int
            &&& forall|i: int|
                0 <= i < self.count ==> -SHARE_BOUND <= #[trigger] self.shares@[i] <= SHARE_BOUND
        }
        &&& phase_index(self.phase) >= 3 ==> -PAYLOAD_BOUND <= self.local_sum <= PAYLOAD_BOUND
        &&& phase_index(self.phase) >= 5 ==> -PAYLOAD_BOUND <= self.global_sum <= PAYLOAD_BOUND
        &&& phase_index(self.phase) >= 6 ==> self.average as int == spec_average(
            self.global_sum as int,
            self.count as int,
        )
    }

    /// A fresh participant, before anything has happened.
    pub fn new(id: usize, count: usize, secret: i64) -> (r: Party)
        requires
            id < count <= MAX_PARTIES,
            -SECRET_BOUND <= secret <= SECRET_BOUND,
        ensures
            r.inv(),
            r.id == id,
            r.count == count,
            r.secret == secret,
            r.phase == Phase::Idle,
    {
        Party {
            id,
            count,
            secret,
            phase: Phase::Idle,
            shares: Vec::new(),
            local_sum: 0,
            global_sum: 0,
            average: 0,
        }
    }

    /// Split the secret into shares that sum exactly back to it.
    pub fn split_secret(&mut self)
        requires
            old(self).inv(),
            old(self).phase == Phase::Idle,
        ensures
            final(self).inv(),
            final(self).phase == Phase::Splitting,
            final(self).id == old(self).id,
            final(self).count == old(self).count,
            final(self).secret == old(self).secret,
            final(self).shares@.len() == old(self).count,
            sum_int(ints_of(final(self).shares@)) == old(self).secret as int,
    {
        self.shares = split(self.secret, self.count);
        self.phase = Phase::Splitting;
    }

    /// Enter phase one with both roles: a distributor owing each peer its
    /// share, and a collector seeded with the self-retained share.
    pub fn begin_share_exchange(&mut self) -> (roles: (Distributor, Collector))
        requires
            old(self).inv(),
            old(self).phase == Phase::Splitting,
        ensures
            final(self).inv(),
            final(self).phase == Phase::ExchangingShares,
            final(self).id == old(self).id,
            final(self).count == old(self).count,
            final(self).secret == old(self).secret,
            final(self).shares == old(self).shares,
            roles.0.wf(),
            roles.0.self_id == old(self).id,
            roles.0.count == old(self).count,
            roles.0.payload@ == old(self).shares@,
            forall|j: int| 0 <= j < old(self).count ==> !roles.0.served@[j],
            roles.1.wf(),
            roles.1.self_id == old(self).id,
            roles.1.count == old(self).count,
            roles.1.pending == old(self).count - 1,
            roles.1.total == old(self).shares@[old(self).id as int] as int,
    {
        let mut payload: Vec<i64> = Vec::new();
        let mut i: usize = 0;
        while i < self.count
            invariant
                i <= self.count,
                self.inv(),
                self.phase == Phase::Splitting,
                payload@ == self.shares@.take(i as int),
            decreases self.count - i,
        {
            payload.push(self.shares[i]);
            proof {
                assert(self.shares@.take(i as int + 1) =~= self.shares@.take(i as int).push(
                    self.shares@[i as int],
                ));
            }
            i = i + 1;
        }
        proof {
            assert(self.shares@.take(self.count as int) =~= self.shares@);
        }
        let dist = Distributor::new(self.id, self.count, payload);
        let coll = Collector::new(self.id, self.count, self.shares[self.id]);
        self.phase = Phase::ExchangingShares;
        (dist, coll)
    }

    /// Fix the local column sum from the completed phase-one collector. A
    /// total outside the wire's payload range cannot be sent on and is a
    /// protocol violation.
    pub fn finish_share_exchange(&mut self, coll: &Collector) -> (r: Result<(), ProtocolError>)
        requires
            old(self).inv(),
            old(self).phase == Phase::ExchangingShares,
            coll.self_id == old(self).id,
            coll.count == old(self).count,
            coll.pending == 0,
        ensures
            final(self).inv(),
            final(self).id == old(self).id,
            final(self).count == old(self).count,
            final(self).secret == old(self).secret,
            final(self).shares == old(self).shares,
            r is Ok <==> -PAYLOAD_BOUND <= coll.total <= PAYLOAD_BOUND,
            r is Ok ==> final(self).phase == Phase::SummingColumn && final(self).local_sum as int
                == coll.total as int,
            r is Err ==> *final(self) == *old(self),
            r matches Err(e) ==> e == ProtocolError::ProtocolViolation,
    {
        match coll.as_payload() {
            Some(total) => {
                self.local_sum = total;
                self.phase = Phase::SummingColumn;
                Ok(())
            },
            None => Err(ProtocolError::ProtocolViolation),
        }
    }

    /// Enter phase two with both roles: a distributor owing every peer the
    /// same local column sum, and a collector seeded with it.
    pub fn begin_sum_exchange(&mut self) -> (roles: (Distributor, Collector))
        requires
            old(self).inv(),
            old(self).phase == Phase::SummingColumn,
        ensures
            final(self).inv(),
            final(self).phase == Phase::ExchangingSums,
            final(self).id == old(self).id,
            final(self).count == old(self).count,
            final(self).secret == old(self).secret,
            final(self).local_sum == old(self).local_sum,
            roles.0.wf(),
            roles.0.self_id == old(self).id,
            roles.0.count == old(self).count,
            roles.0.payload@.len() == old(self).count,
            forall|j: int|
                0 <= j < old(self).count ==> #[trigger] roles.0.payload@[j]
                    == old(self).local_sum,
            forall|j: int| 0 <= j < old(self).count ==> !roles.0.served@[j],
            roles.1.wf(),
            roles.1.self_id == old(self).id,
            roles.1.count == old(self).count,
            roles.1.pending == old(self).count - 1,
            roles.1.total == old(self).local_sum as int,
    {
        let mut payload: Vec<i64> = Vec::new();
        let mut i: usize = 0;
        while i < self.count
            invariant
                i <= self.count,
                payload@.len() == i,
                forall|j: int| 0 <= j < i ==> #[trigger] payload@[j] == self.local_sum,
            decreases self.count - i,
        {
            payload.push(self.local_sum);
            i = i + 1;
        }
        let dist = Distributor::new(self.id, self.count, payload);
        let coll = Collector::new(self.id, self.count, self.local_sum);
        self.phase = Phase::ExchangingSums;
        (dist, coll)
    }

    /// Fix the global sum from the completed phase-two collector.
    pub fn finish_sum_exchange(&mut self, coll: &Collector) -> (r: Result<(), ProtocolError>)
        requires
            old(self).inv(),
            old(self).phase == Phase::ExchangingSums,
            coll.self_id == old(self).id,
            coll.count == old(self).count,
            coll.pending == 0,
        ensures
            final(self).inv(),
            final(self).id == old(self).id,
            final(self).count == old(self).count,
            final(self).secret == old(self).secret,
            r is Ok <==> -PAYLOAD_BOUND <= coll.total <= PAYLOAD_BOUND,
            r is Ok ==> final(self).phase == Phase::ComputingAverage
                && final(self).global_sum as int == coll.total as int,
            r is Err ==> *final(self) == *old(self),
            r matches Err(e) ==> e == ProtocolError::ProtocolViolation,
    {
        match coll.as_payload() {
            Some(total) => {
                self.global_sum = total;
                self.phase = Phase::ComputingAverage;
                Ok(())
            },
            None => Err(ProtocolError::ProtocolViolation),
        }
    }

    /// Divide the global sum by the participant count.
    pub fn compute_average(&mut self)
        requires
            old(self).inv(),
            old(self).phase == Phase::ComputingAverage,
        ensures
            final(self).inv(),
            final(self).phase == Phase::Reporting,
            final(self).id == old(self).id,
            final(self).count == old(self).count,
            final(self).secret == old(self).secret,
            final(self).global_sum == old(self).global_sum,
            final(self).average as int == spec_average(
                old(self).global_sum as int,
                old(self).count as int,
            ),
    {
        self.average = average_of(self.global_sum, self.count);
        self.phase = Phase::Reporting;
    }

    /// Report where this participant's own value stands against the average.
    /// A pure comparison; nothing touches the network.
    pub fn report(&self) -> (r: Standing)
        requires
            self.inv(),
            self.phase == Phase::Reporting,
        ensures
            r == Standing::Above <==> self.secret > self.average,
            r == Standing::Equal <==> self.secret == self.average,
            r == Standing::Below <==> self.secret < self.average,
    {
        classify(self.secret, self.average)
    }

    /// Enter the absorbing final state.
    pub fn terminate(&mut self)
        requires
            old(self).inv(),
            old(self).phase == Phase::Reporting,
        ensures
            final(self).inv(),
            final(self).phase == Phase::Terminated,
            final(self).average == old(self).average,
    {
        self.phase = Phase::Terminated;
    }
}

/// The independent end-to-end self-check: a reported average must equal the
/// one recomputed from the secrets themselves.
pub fn check_aggregation(reported: i64, secrets: &Vec<i64>) -> (r: Result<(), ProtocolError>)
    requires
        1 <= secrets@.len() <= MAX_PARTIES,
        forall|i: int|
            0 <= i < secrets@.len() ==> -SECRET_BOUND <= #[trigger] secrets@[i] <= SECRET_BOUND,
    ensures
        r is Ok <==> reported as int == spec_average(
            sum_int(ints_of(secrets@)),
            secrets@.len() as int,
        ),
        r matches Err(e) ==> e == ProtocolError::AggregationMismatch,
{
    let n = secrets.len();
    let mut acc: i64 = 0;
    let mut i: usize = 0;
    while i < n
        invariant
            i <= n,
            n == secrets@.len() <= MAX_PARTIES,
            forall|t: int| 0 <= t < n ==> -SECRET_BOUND <= #[trigger] secrets@[t] <= SECRET_BOUND,
            acc == sum_int(ints_of(secrets@.take(i as int))),
            -(i as int) * SECRET_BOUND <= acc <= (i as int) * SECRET_BOUND,
        decreases n - i,
    {
        proof {
            crate::arith::lemma_sum_push(
                ints_of(secrets@.take(i as int)),
                secrets@[i as int] as int,
            );
            assert(ints_of(secrets@.take(i as int + 1)) =~= ints_of(secrets@.take(i as int)).push(
                secrets@[i as int] as int,
            ));
        }
        acc = acc + secrets[i];
        i = i + 1;
    }
    proof {
        assert(secrets@.take(n as int) =~= secrets@);
    }
    let expected = average_of(acc, n);
    if reported == expected {
        Ok(())
    } else {
        Err(ProtocolError::AggregationMismatch)
    }
}

} // verus!
