//! Witness values for a simple arithmetic relation over the field.

use vstd::prelude::*;

verus! {

/// The witness of one arithmetic assertion: `x` and `y` combine, by
/// addition or by multiplication, into `result`. Compiling the assertion
/// into constraints is the outside constraint-system library's work; this
/// type only carries the values handed to it.
pub struct SimpleCircuit<T> {
    pub x: T,
    pub y: T,
    pub result: T,
    pub is_addition: bool,
}

} // verus!
