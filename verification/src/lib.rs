//! Core of an optimistic-rollup ("Godwoken") layered on a cell-based chain.
//!
//! The chain stores only a compact commitment to the rollup state: an
//! account root (a sparse-merkle-tree over accounts and token balances),
//! a block root (a merkle-mountain-range over block hashes) and the two
//! counts.  This crate holds the verified logic behind that commitment:
//! hashing and key derivation, the MMR and SMT proof arithmetic, the
//! deterministic transfer executor, and the verifiers for the four state
//! transition actions (Register, Deposit, SubmitBlock, RevertBlock) and
//! for the challenge cells of the fraud-proof protocol.
//!
//! Loading cells, witnesses and capacities from the chain is left to the
//! embedding program; every function here works on plain values.

pub mod actions;
pub mod bytes;
pub mod challenge;
pub mod codec;
pub mod executor;
pub mod hash;
pub mod kv;
pub mod laws;
pub mod mmr;
pub mod sig;
pub mod smt;
pub mod types;

use vstd::prelude::*;

verus! {

/// Shannons a deposit must reach to create a new account.
pub const NEW_ACCOUNT_REQUIRED_BALANCE: u64 = 1000;

/// Native balance an aggregator must hold to submit blocks.
pub const AGGREGATOR_REQUIRED_BALANCE: u64 = 2000;

/// Numerator of the challenge reward rate.
pub const CHALLENGE_REWARD_NUMERATOR: u64 = 8;

/// Denominator of the challenge reward rate.
pub const CHALLENGE_REWARD_DENOMINATOR: u64 = 10;

/// Relative block count a challenge cell must wait before a revert.
pub const CHALLENGE_CELL_WAIT_BLOCKS: u64 = 100;

/// Relative epoch count before a challenge bond can be withdrawn.
pub const WITHDRAW_WAIT_EPOCHS: u64 = 6;

} // verus!
