//! Account and token addresses.
use vstd::prelude::*;

verus! {

/// A 20-byte address as two integers, in big-endian order: the first four
/// bytes and the other sixteen.
#[derive(Clone, Copy, Debug, PartialEq, Eq, Structural)]
pub struct Address {
    pub high: u32,
    pub low: u128,
}

impl Address {
    /// The pair of integers by which users are filed.
    pub open spec fn spec_key(self) -> (u32, u128) {
        (self.high, self.low)
    }

    /// The pair of integers by which users are filed.
    pub fn key(&self) -> (r: (u32, u128))
        ensures
            r == self.spec_key(),
    {
        (self.high, self.low)
    }

    /// The address that is filed under a pair of integers.
    pub fn of_key(key: (u32, u128)) -> (r: Address)
        ensures
            r.spec_key() == key,
    {
        Address { high: key.0, low: key.1 }
    }

    /// The address of all zeros.
    pub fn zero() -> (r: Address)
        ensures
            r.high == 0,
            r.low == 0,
    {
        Address { high: 0, low: 0 }
    }
}

} // verus!
