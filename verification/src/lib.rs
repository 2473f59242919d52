//! A verified transaction-processing core: fixed-point money, per-account
//! balance state machines, and a ledger that correlates disputes, resolutions
//! and chargebacks back to the deposits they reference.

pub mod account;
pub mod amount;
pub mod bank;
pub mod digits;
pub mod error;
pub mod transaction;
