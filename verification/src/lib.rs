//! A peer-to-peer escrow swap engine.
//!
//! A maker locks a quantity of one asset in a custody vault and names the
//! quantity of a second asset wanted in return. Any taker may settle the
//! swap atomically, or the maker may cancel and reclaim the deposit. Every
//! operation either commits in full or leaves the state untouched.

pub mod authority;
pub mod codec;
pub mod engine;
pub mod error;
pub mod keys;
pub mod ledger;
pub mod offer;
