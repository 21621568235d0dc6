//! Witness values for the shared-liquidity transition relation.

use vstd::prelude::*;

verus! {

/// The witness of one liquidity state transition: the new state root must
/// be the algebraic hash of (previous state root, liquidity state).
/// Compiling the relation into constraints is the outside constraint-system
/// library's work; this type only carries the values handed to it.
pub struct SharedLiquidityCircuit<T> {
    pub chain_id: u32,
    pub liquidity_state: T,
    pub previous_state_root: T,
    pub new_state_root: T,
}

} // verus!
