//! Account addresses.

use vstd::prelude::*;

verus! {

/// A 160-bit account address: the top 32 bits and the low 128 bits.
///
/// Two addresses are the same account exactly when both parts agree.
#[derive(Clone, Copy, Debug, PartialEq, Eq, Hash, Structural)]
pub struct Address {
    pub hi: u32,
    pub lo: u128,
}

impl Address {
    /// The all-zero address, which a fresh configuration slot holds.
    pub fn zero() -> (r: Address)
        ensures
            r == (Address { hi: 0, lo: 0 }),
    {
        Address { hi: 0, lo: 0 }
    }
}

} // verus!
