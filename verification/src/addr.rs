//! Account addresses: 160-bit identifiers held as two plain integers.

use vstd::prelude::*;

verus! {

/// A 160-bit account address: the 32 high bits and the 128 low bits.
#[derive(Clone, Copy, PartialEq, Eq, Structural, Debug)]
pub struct Addr {
    pub hi: u32,
    pub lo: u128,
}

impl Addr {
    /// The zero address, which stands for "unset" and receives locked shares.
    pub fn zero() -> (r: Addr)
        ensures
            r == (Addr { hi: 0, lo: 0 }),
    {
        Addr { hi: 0, lo: 0 }
    }

    /// Whether this is the zero address.
    pub open spec fn spec_is_zero(self) -> bool {
        self.hi == 0 && self.lo == 0
    }

    pub fn is_zero(&self) -> (r: bool)
        ensures
            r == self.spec_is_zero(),
    {
        self.hi == 0 && self.lo == 0
    }
}

} // verus!
