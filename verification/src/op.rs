//! The instruction set.

use vstd::prelude::*;

verus! {

/// One instruction of the tape machine.
///
/// The four counted variants carry a run length; the two loop variants carry
/// the index of their partner once it has been resolved.
#[derive(Clone, Copy, Debug, PartialEq, Eq, Structural)]
pub enum Op {
    /// Move the data pointer right by the count.
    IncDp(usize),
    /// Move the data pointer left by the count.
    DecDp(usize),
    /// Add the count to the cell under the data pointer, modulo 256.
    IncDerefDp(usize),
    /// Subtract the count from the cell under the data pointer, modulo 256.
    DecDerefDp(usize),
    /// Emit the cell under the data pointer.
    OutDerefDp,
    /// Read a byte; the machine has no input, so this does nothing.
    InDerefDp,
    /// Enter the loop if the cell is not zero, else jump past its end.
    LoopBegin(Option<usize>),
    /// Leave the loop if the cell is zero, else jump back past its begin.
    LoopEnd(Option<usize>),
    /// Set the cell under the data pointer to zero.
    Zero,
}

impl Op {
    /// The instruction is one of the four single steps that a run is made of.
    pub open spec fn is_unit(self) -> bool {
        self == Op::IncDp(1) || self == Op::DecDp(1) || self == Op::IncDerefDp(1) || self
            == Op::DecDerefDp(1)
    }
}

} // verus!
