//! Gate graphs: the wires of a circuit and the gates on them.

use cranelift_entity::EntityRef;
use vstd::prelude::*;

verus! {

/// A handle of a wire: its place among the wires of a graph.
#[derive(Clone, Copy, Debug, PartialEq, Eq, PartialOrd, Ord, Hash, Structural)]
pub struct Wire {
    pub index: usize,
}

impl EntityRef for Wire {
    fn new(index: usize) -> (wire: Self)
        ensures
            wire == (Wire { index }),
    {
        Wire { index }
    }

    fn index(self) -> (index: usize)
        ensures
            index == self.index,
    {
        self.index
    }
}

/// Where the value of a wire comes from.
#[derive(Clone, Copy, Debug, PartialEq, Eq, Structural)]
pub enum WireKind {
    /// It is fixed.
    Constant(u64),
    /// It is part of the public interface.
    Inout,
    /// It is given by the prover.
    Witness,
    /// A gate computes it.
    Internal,
    /// A gate computes it, for other gates alone.
    Scratch,
}

/// What a gate does. A truth value is the highest bit of a word; the other bits of a word that a
/// comparison yields are left open.
#[derive(Clone, Copy, Debug, PartialEq, Eq, Structural)]
pub enum Opcode {
    /// `out = x & y`.
    Band,
    /// `out = x ^ y`.
    Bxor,
    /// `out = !x`.
    Bnot,
    /// `out = t` where the condition is true, `out = f` where it is not.
    Select,
    /// `out = x << n`.
    Shl,
    /// `out = x >> n`.
    Shr,
    /// `out` is `x`, rotated to the left by `n`.
    Rotl,
    /// `out` is true where `x < y`.
    Ult,
    /// `out` is true where `x == y`.
    Ueq,
    /// The halves of `out` are the sums of the halves of `x` and `y`, each without its carry.
    Iadd32,
    /// `x` is false.
    AssertFalse,
    /// `x == y`.
    AssertEq,
    /// `x == y` where the condition is true.
    AssertEqCond,
}

/// What stands behind a gate.
#[derive(Clone, Copy, Debug, PartialEq, Eq, Structural)]
pub enum GateBody {
    /// An operation of the circuit.
    Op(Opcode),
    /// A computation of the prover alone, by the number of its name.
    Hint(u32),
}

/// A gate: what it does, and on which wires.
#[derive(Clone, Debug, PartialEq, Eq)]
pub struct GateData {
    pub body: GateBody,
    /// The inputs, then the outputs.
    pub wires: Vec<Wire>,
    pub immediates: Vec<u32>,
    pub dimensions: Vec<usize>,
}

/// A gate and the paths under which it is reported.
#[derive(Clone, Debug, PartialEq, Eq)]
pub struct Gate {
    /// The number of the path of its subcircuit.
    pub origin: usize,
    /// The number of the path of the assertion that it makes.
    pub assertion_name: usize,
    pub data: GateData,
}

/// The wires and gates of a circuit, in the order in which they were made.
#[derive(Clone, Debug, PartialEq, Eq)]
pub struct GateGraph {
    pub wires: Vec<WireKind>,
    pub gates: Vec<Gate>,
}

impl Opcode {
    /// The number of an operation.
    pub open spec fn code_model(self) -> int {
        match self {
            Opcode::Band => 0,
            Opcode::Bxor => 1,
            Opcode::Bnot => 2,
            Opcode::Select => 3,
            Opcode::Shl => 4,
            Opcode::Shr => 5,
            Opcode::Rotl => 6,
            Opcode::Ult => 7,
            Opcode::Ueq => 8,
            Opcode::Iadd32 => 9,
            Opcode::AssertFalse => 10,
            Opcode::AssertEq => 11,
            Opcode::AssertEqCond => 12,
        }
    }

    pub fn code(self) -> (code: u8)
        ensures
            code == self.code_model(),
    {
        match self {
            Opcode::Band => 0,
            Opcode::Bxor => 1,
            Opcode::Bnot => 2,
            Opcode::Select => 3,
            Opcode::Shl => 4,
            Opcode::Shr => 5,
            Opcode::Rotl => 6,
            Opcode::Ult => 7,
            Opcode::Ueq => 8,
            Opcode::Iadd32 => 9,
            Opcode::AssertFalse => 10,
            Opcode::AssertEq => 11,
            Opcode::AssertEqCond => 12,
        }
    }
}

} // verus!
