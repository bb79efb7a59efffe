//! A custodial settlement ledger that brokers swaps between two stablecoin
//! assets and two fiat currencies on behalf of registered users, under a
//! single administrative authority.
//!
//! The ledger itself is the verified state machine: user registration, the
//! first-swap and subsequent-swap creation paths, swap initiation with its
//! custody transfer decision, and settlement. The host environment performs
//! the actual token transfers and persists the records; it hands this
//! library plain values and commits an operation's effect only when the
//! operation succeeds.

pub mod addressing;
pub mod admin;
pub mod laws;
pub mod ledger;
pub mod types;
pub mod vault;
