//! A verified ledger engine.
//!
//! The crate replays an ordered stream of transaction instructions
//! (deposit, withdrawal, dispute, resolve, chargeback) against a set of
//! client accounts.  Every balance change, every rejection and every
//! amendment of a recorded transaction is stated in the contracts of
//! [`bank::Bank`] and proved.

pub mod account;
pub mod amount;
pub mod bank;
pub mod instruction;
pub mod laws;
pub mod transaction;
