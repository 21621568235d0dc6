//! A per-chain, tamper-evident liquidity state ledger.
//!
//! Each update to a chain's liquidity value yields a compact proof object:
//! a commitment segment binding the liquidity values, followed by a 32-byte
//! trailer binding the proof to its exact predecessor, so that the history
//! of a chain can be checked without replaying it.

pub mod circuit;
pub mod field;
pub mod liquidity_backend;
pub mod liquidity_proof;
pub mod shared_liquidity;
