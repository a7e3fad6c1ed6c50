//! A two-party, time-bounded token escrow, verified end to end.
//!
//! A buyer deposits a fixed quantity of a fungible asset into a custodial
//! vault; before a deadline the buyer may authorize release of the locked
//! amount to a seller; after the deadline, if not yet released, the buyer may
//! reclaim the funds. The heart of the library is the authorization/timing
//! state machine governing custody transfer: who may move funds, when, and at
//! most once.
//!
//! The persistent-account substrate is modeled as deterministic,
//! content-addressed records ([`addr`]), the fungible-asset ledger as a table
//! of balances keyed by holder and asset kind ([`ledger`]), and the clock as a
//! timestamp supplied to each call. [`world::World`] ties the pieces together
//! and offers the five operations: `init_vault`, `lock_tokens`, `init_escrow`,
//! `release_to_seller` and `refund_buyer`.

pub mod addr;
pub mod laws;
pub mod ledger;
pub mod state;
pub mod world;
