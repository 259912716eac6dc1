//! Splitting one private value into randomized shares that sum back to it.

use vstd::prelude::*;
use crate::arith::{ints_of, lemma_sum_push, sum_int};
use crate::errors::ProtocolError;
use crate::{MAX_PARTIES, SECRET_BOUND};

verus! {

/// Relies on `rand::random`: draws one value of the requested type from the
/// thread-local generator. Nothing is promised of the draw.
pub assume_specification<T>[ rand::random::<T> ]() -> (r: T)
    where
        rand::distributions::Standard: rand::distributions::Distribution<T>,
;

/// Largest magnitude any single share can have: a secret of magnitude at most
/// `SECRET_BOUND` minus at most `MAX_PARTIES - 1` random 32-bit draws.
pub const SHARE_BOUND: i64 = SECRET_BOUND + 1024 * 0x8000_0000;

/// Split `secret` into `count` shares that sum exactly to it.
///
/// The first `count - 1` shares are independent random 32-bit draws; the last
/// is whatever remainder makes the total exact, for any draw.
pub fn split(secret: i64, count: usize) -> (shares: Vec<i64>)
    requires
        1 <= count <= MAX_PARTIES,
        -SECRET_BOUND <= secret <= SECRET_BOUND,
    ensures
        shares@.len() == count,
        sum_int(ints_of(shares@)) == secret as int,
        forall|i: int| 0 <= i < count ==> -SHARE_BOUND <= #[trigger] shares@[i] <= SHARE_BOUND,
{
    let mut shares: Vec<i64> = Vec::new();
    let mut acc: i64 = 0;
    let mut i: usize = 0;
    while i < count - 1
        invariant
            i <= count - 1,
            count <= MAX_PARTIES,
            shares@.len() == i,
            acc == sum_int(ints_of(shares@)),
            -(i as int) * 0x8000_0000 <= acc <= i as int * 0x8000_0000,
            forall|j: int| 0 <= j < i ==> -SHARE_BOUND <= #[trigger] shares@[j] <= SHARE_BOUND,
        decreases count - 1 - i,
    {
        let draw: i32 = rand::random::<i32>();
        let wide: i64 = draw as i64;
        proof {
            lemma_sum_push(ints_of(shares@), wide as int);
            assert(ints_of(shares@.push(wide)) =~= ints_of(shares@).push(wide as int));
        }
        shares.push(wide);
        acc = acc + wide;
        i = i + 1;
    }
    let last: i64 = secret - acc;
    proof {
        lemma_sum_push(ints_of(shares@), last as int);
        assert(ints_of(shares@.push(last)) =~= ints_of(shares@).push(last as int));
    }
    shares.push(last);
    shares
}

/// Self-check of the splitter's invariant: the shares must sum exactly to the
/// secret. Never fails on this library's own output; exists to fail fast on a
/// logic defect, as the invariant demands.
pub fn check_split_invariant(secret: i64, shares: &Vec<i64>) -> (r: Result<(), ProtocolError>)
    ensures
        r is Ok <==> sum_int(ints_of(shares@)) == secret as int,
        r matches Err(e) ==> e == ProtocolError::SplitInvariantViolation,
{
    let mut acc: i128 = 0;
    let mut i: usize = 0;
    let n = shares.len();
    while i < n
        invariant
            i <= n,
            n == shares@.len(),
            acc == sum_int(ints_of(shares@.take(i as int))),
            -(i as int) * 0x8000_0000_0000_0000 <= acc <= i as int * 0x8000_0000_0000_0000,
        decreases n - i,
    {
        proof {
            lemma_sum_push(ints_of(shares@.take(i as int)), shares@[i as int] as int);
            assert(ints_of(shares@.take(i as int + 1)) =~= ints_of(shares@.take(i as int)).push(
                shares@[i as int] as int,
            ));
        }
        acc = acc + shares[i] as i128;
        i = i + 1;
    }
    proof {
        assert(shares@.take(n as int) =~= shares@);
    }
    if acc == secret as i128 {
        Ok(())
    } else {
        Err(ProtocolError::SplitInvariantViolation)
    }
}

} // verus!
