//! The core-local interruptor: the machine's timer and each hart's timer
//! compare register, by address.
use vstd::prelude::*;
use crate::mem::types::PhysAddr;

verus! {

/// The core-local interruptor with its registers at `address`.
pub struct Clint {
    pub address: PhysAddr,
}

impl Clint {
    /// The interruptor at `address`.
    pub fn new(address: PhysAddr) -> (r: Self)
        ensures
            r.address == address,
    {
        Clint { address }
    }

    /// The register that holds the time: the read of it gives the time.
    pub fn get_time(&self) -> (r: PhysAddr)
        requires
            self.address.0 + 0xBFF8 <= usize::MAX,
        ensures
            r.0 == self.address.0 + 0xBFF8,
    {
        PhysAddr(self.address.0 + 0xBFF8)
    }

    /// Sets the timer compare register of `hart` to `nxt_int`: the register
    /// to write and the value.
    pub fn set_mtimecmp(&self, hart: usize, nxt_int: usize) -> (r: (PhysAddr, usize))
        requires
            self.address.0 + 0x4000 + 8 * hart <= usize::MAX,
        ensures
            r.0.0 == self.address.0 + 0x4000 + 8 * hart,
            r.1 == nxt_int,
    {
        (PhysAddr(self.address.0 + 0x4000 + 8 * hart), nxt_int)
    }
}

} // verus!
