//! The remittance-split contract: how incoming amounts are divided between
//! spending, savings, bills and insurance, the signed distributions that
//! carry a split out, and the schedules that trigger them.

pub mod types;
pub mod state;
pub mod ledger;
pub mod split;
pub mod distribution;
pub mod schedules;
pub mod snapshots;
pub mod laws;
