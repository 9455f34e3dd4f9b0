//! Governance core of a DAO: policy engine, proposal state machine with
//! competing versions, weighted vote tallies, instruction executor and the
//! bounty lifecycle.
//!
//! The hosting runtime is not called from here: every operation takes the
//! readings it needs (caller, attached deposit, block time, caller weight) as a
//! [`types::Context`] and queues the value transfers, remote calls and upgrades
//! it decides on as [`contract::Effect`] descriptors for the host to perform.
pub mod bounties;
pub mod contract;
pub mod laws;
pub mod policy;
pub mod proposals;
pub mod types;
