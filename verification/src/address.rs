//! Account and contract addresses.
use vstd::prelude::*;

verus! {

/// A Stellar address: an account or a contract, identified by its 32-byte key
/// held as four 64-bit words.
#[derive(Clone, Copy, Debug, PartialEq, Eq, Structural)]
pub struct Address {
    pub is_contract: bool,
    pub k0: u64,
    pub k1: u64,
    pub k2: u64,
    pub k3: u64,
}

impl Address {
    /// An account address whose key is `k0 .. k3`.
    pub fn account(k0: u64, k1: u64, k2: u64, k3: u64) -> (r: Address)
        ensures
            r == (Address { is_contract: false, k0, k1, k2, k3 }),
    {
        Address { is_contract: false, k0, k1, k2, k3 }
    }

    /// A contract address whose key is `k0 .. k3`.
    pub fn contract(k0: u64, k1: u64, k2: u64, k3: u64) -> (r: Address)
        ensures
            r == (Address { is_contract: true, k0, k1, k2, k3 }),
    {
        Address { is_contract: true, k0, k1, k2, k3 }
    }
}

} // verus!
