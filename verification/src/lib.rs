//! Verified models of the RemitWise bill-payment and remittance-split
//! contracts: every state transition is a function from the current
//! contract state and the call's inputs to the next state and the reply.

pub mod address;
pub mod common;
pub mod maps;
pub mod ids;
pub mod sums;
pub mod bill_payments;
pub mod remittance_split;

use vstd::prelude::*;

verus! {

} // verus!
