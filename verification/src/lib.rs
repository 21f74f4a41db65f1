//! A fungible token with a fixed supply, and proofs that its accounting is
//! right.
//!
//! The token is created once, with its whole supply in the hands of the
//! creator, and from then on units only move between accounts. The crate
//! holds
//!
//! - [`account`]: identifiers of accounts;
//! - [`ledger`]: the ledger as a mathematical value, with the operations as
//!   functions on it and the simple facts about one transfer;
//! - [`conservation`]: the proof that units are neither created nor lost,
//!   over any sequence of transfers;
//! - [`rules`]: the decisions of a transfer on bare balances, for hosts that
//!   keep the balances themselves;
//! - [`token`]: the executable ledger, whose every operation is proved to do
//!   what the mathematical ledger says.

pub mod account;
pub mod conservation;
pub mod ledger;
pub mod rules;
pub mod token;
