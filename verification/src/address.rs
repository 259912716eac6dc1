//! The address book: a pure, collision-free mapping from participant
//! identifier to network port. The host is the same for every participant;
//! only the port varies.

use vstd::prelude::*;
use crate::MAX_PARTIES;

verus! {

/// The port participant zero listens on unless configured otherwise.
pub const DEFAULT_BASE_PORT: u16 = 12121;

/// Deterministic endpoint lookup for one run's participants.
#[derive(Clone, Copy, Debug)]
pub struct AddressBook {
    /// The port of participant zero; participant `id` gets `base_port + id`.
    pub base_port: u16,
    /// Number of participants.
    pub count: usize,
}

impl AddressBook {
    /// Every participant's port fits a 16-bit port number.
    pub open spec fn wf(self) -> bool {
        &&& self.count <= MAX_PARTIES
        &&& self.base_port as int + self.count as int <= 65536
    }

    /// An address book for `count` participants starting at `base_port`.
    pub fn new(base_port: u16, count: usize) -> (r: Option<AddressBook>)
        ensures
            r is Some <==> count <= MAX_PARTIES && base_port as int + count as int <= 65536,
            r matches Some(book) ==> book.wf() && book.base_port == base_port && book.count
                == count,
    {
        if count <= MAX_PARTIES && (base_port as usize) + count <= 65536 {
            Some(AddressBook { base_port, count })
        } else {
            None
        }
    }

    /// The port participant `id` listens on: total-ordered and collision-free
    /// by construction.
    pub fn endpoint_for(&self, id: usize) -> (port: u16)
        requires
            self.wf(),
            id < self.count,
        ensures
            port as int == self.base_port as int + id as int,
    {
        self.base_port + (id as u16)
    }
}

/// Distinct participants always get distinct ports.
pub proof fn lemma_endpoints_collision_free(book: AddressBook, a: usize, b: usize)
    requires
        book.wf(),
        a < book.count,
        b < book.count,
        a != b,
    ensures
        book.base_port as int + a as int != book.base_port as int + b as int,
{
}

} // verus!
