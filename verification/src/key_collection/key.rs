//! Keys: what one word is referenced as, and by which constraints.

use std::ops::Range;

use vstd::prelude::*;

verus! {

/// The operation of a constraint.
#[derive(Clone, Copy, Debug, PartialEq, Eq, Hash, Structural)]
pub enum Operation {
    Zero,
    BitwiseAnd,
    IntegerMul,
    BinMul,
}

impl Operation {
    /// The operation's place in the order in which constraints are walked.
    pub open spec fn code_model(self) -> int {
        match self {
            Operation::Zero => 0,
            Operation::BitwiseAnd => 1,
            Operation::IntegerMul => 2,
            Operation::BinMul => 3,
        }
    }
}

/// One use of a word: which operand of which constraint.
#[derive(Clone, Copy, Debug, PartialEq, Eq, Hash, Structural)]
pub struct ConstraintIndex {
    pub operand_index: u8,
    pub constraint_index: u32,
}

/// All uses of one word under one operation and one shift sequence.
#[derive(Debug, PartialEq, Eq)]
pub struct Key {
    pub operation: Operation,
    /// The place of the shift sequence in the segment's encoding.
    pub dense_shift_idx: u32,
    /// The uses, as a range of the segment's constraint indices.
    pub range: Range<u32>,
}

impl Clone for Key {
    fn clone(&self) -> (key: Self)
        ensures
            key == *self,
    {
        Key {
            operation: self.operation,
            dense_shift_idx: self.dense_shift_idx,
            range: self.range.start..self.range.end,
        }
    }
}

/// What a [`Key`] holds.
pub ghost struct KeyModel {
    pub operation: Operation,
    pub dense_shift_idx: u32,
    pub start: u32,
    pub end: u32,
}

impl DeepView for Key {
    type V = KeyModel;

    open spec fn deep_view(&self) -> KeyModel {
        KeyModel {
            operation: self.operation,
            dense_shift_idx: self.dense_shift_idx,
            start: self.range.start,
            end: self.range.end,
        }
    }
}

} // verus!
