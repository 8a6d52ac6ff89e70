//! The bill-payment contract: bills, recurring bill schedules, archival,
//! and the pause and upgrade controls around them.

pub mod types;
pub mod text;
pub mod state;
pub mod admin;
pub mod bills;
pub mod batch;
pub mod schedules;
pub mod execution;
pub mod archive;
pub mod queries;
pub mod laws;
