//! What it is for an assignment of words to wires to follow the gates of a graph.

use vstd::prelude::*;

use crate::ir::{Gate, GateBody, GateData, GateGraph, Opcode, Wire, WireKind};

verus! {

/// The word that stands for truth and nothing else: its highest bit alone is set.
pub const MSB_ONE: u64 = 0x8000_0000_0000_0000;

/// The value of a wire under an assignment.
pub open spec fn val(w: Seq<u64>, wire: Wire) -> u64 {
    w[wire.index as int]
}

/// The values of wires under an assignment.
pub open spec fn vals(w: Seq<u64>, wires: Seq<Wire>) -> Seq<u64> {
    wires.map_values(|wire: Wire| val(w, wire))
}

/// The truth value of a word: its highest bit.
pub open spec fn truth(x: u64) -> bool {
    x >= MSB_ONE
}

/// A word, rotated to the left.
pub open spec fn rotl(x: u64, n: u32) -> u64 {
    if n == 0 {
        x
    } else {
        (x << n) | (x >> ((64 - n) as u32))
    }
}

/// The sums of the halves of two words, each without its carry.
pub open spec fn iadd_32(x: u64, y: u64) -> u64 {
    let low = ((x % 0x1_0000_0000) + (y % 0x1_0000_0000)) % 0x1_0000_0000;
    let high = ((x / 0x1_0000_0000) + (y / 0x1_0000_0000)) % 0x1_0000_0000;
    (high * 0x1_0000_0000 + low) as u64
}

/// Whether words on the wires of a gate are what it computes: its outputs from its inputs.
/// Assertions have no outputs, and those of a hint are free.
pub open spec fn body_computed(body: GateBody, v: Seq<u64>, immediates: Seq<u32>) -> bool {
    match body {
        GateBody::Hint(_) => true,
        GateBody::Op(opcode) => match opcode {
            Opcode::Band => v[2] == v[0] & v[1],
            Opcode::Bxor => v[2] == v[0] ^ v[1],
            Opcode::Bnot => v[1] == !v[0],
            Opcode::Select => v[3] == if truth(v[0]) {
                v[1]
            } else {
                v[2]
            },
            Opcode::Shl => v[1] == v[0] << immediates[0],
            Opcode::Shr => v[1] == v[0] >> immediates[0],
            Opcode::Rotl => v[1] == rotl(v[0], immediates[0]),
            Opcode::Ult => truth(v[2]) == (v[0] < v[1]),
            Opcode::Ueq => truth(v[2]) == (v[0] == v[1]),
            Opcode::Iadd32 => v[2] == iadd_32(v[0], v[1]),
            Opcode::AssertFalse | Opcode::AssertEq | Opcode::AssertEqCond => true,
        },
    }
}

/// Whether what a gate asserts of the words on its wires holds. Gates that are no assertions assert
/// nothing.
pub open spec fn body_asserted(body: GateBody, v: Seq<u64>) -> bool {
    match body {
        GateBody::Hint(_) => true,
        GateBody::Op(opcode) => match opcode {
            Opcode::AssertFalse => !truth(v[0]),
            Opcode::AssertEq => v[0] == v[1],
            Opcode::AssertEqCond => truth(v[2]) ==> v[0] == v[1],
            _ => true,
        },
    }
}

/// Whether a gate is an assertion.
pub open spec fn asserts(body: GateBody) -> bool {
    match body {
        GateBody::Hint(_) => false,
        GateBody::Op(opcode) => match opcode {
            Opcode::AssertFalse | Opcode::AssertEq | Opcode::AssertEqCond => true,
            _ => false,
        },
    }
}

/// Whether an assignment gives the outputs of a gate what it computes.
pub open spec fn gate_computed(gate: GateData, w: Seq<u64>) -> bool {
    body_computed(gate.body, vals(w, gate.wires@), gate.immediates@)
}

/// Whether what a gate asserts holds under an assignment.
pub open spec fn gate_asserted(gate: GateData, w: Seq<u64>) -> bool {
    body_asserted(gate.body, vals(w, gate.wires@))
}

/// Whether an assignment gives every constant its value.
pub open spec fn constants_hold(kinds: Seq<WireKind>, w: Seq<u64>) -> bool {
    forall|i: int|
        0 <= i < kinds.len() ==> (#[trigger] kinds[i] matches WireKind::Constant(word) ==> w[i]
            == word)
}

/// Whether an assignment has a value for every wire, gives every constant its own, and the outputs
/// of every gate what it computes.
#[verifier::opaque]
pub open spec fn graph_computed(graph: GateGraph, w: Seq<u64>) -> bool {
    &&& graph.wires@.len() <= w.len()
    &&& constants_hold(graph.wires@, w)
    &&& forall|g: int|
        0 <= g < graph.gates@.len() ==> gate_computed((#[trigger] graph.gates@[g]).data, w)
}

/// Whether everything that a graph asserts holds under an assignment.
#[verifier::opaque]
pub open spec fn graph_asserted(graph: GateGraph, w: Seq<u64>) -> bool {
    forall|g: int|
        0 <= g < graph.gates@.len() ==> gate_asserted((#[trigger] graph.gates@[g]).data, w)
}

/// The place of a gate's output among its wires, where it has one.
pub open spec fn output_place(body: GateBody) -> Option<int> {
    match body {
        GateBody::Hint(_) => None,
        GateBody::Op(opcode) => match opcode {
            Opcode::Bnot | Opcode::Shl | Opcode::Shr | Opcode::Rotl => Some(1),
            Opcode::Band
            | Opcode::Bxor
            | Opcode::Ult
            | Opcode::Ueq
            | Opcode::Iadd32 => Some(2),
            Opcode::Select => Some(3),
            Opcode::AssertFalse | Opcode::AssertEq | Opcode::AssertEqCond => None,
        },
    }
}

/// Whether a gate has as many wires and immediates as its body takes.
pub open spec fn arity_ok(body: GateBody, n_wires: nat, immediates: Seq<u32>) -> bool {
    match body {
        GateBody::Hint(_) => true,
        GateBody::Op(opcode) => match opcode {
            Opcode::AssertFalse => n_wires == 1,
            Opcode::AssertEq => n_wires == 2,
            Opcode::AssertEqCond => n_wires == 3,
            Opcode::Bnot => n_wires == 2,
            Opcode::Shl | Opcode::Shr | Opcode::Rotl => n_wires == 2 && immediates.len() == 1
                && immediates[0] < 64,
            Opcode::Band
            | Opcode::Bxor
            | Opcode::Ult
            | Opcode::Ueq
            | Opcode::Iadd32 => n_wires == 3,
            Opcode::Select => n_wires == 4,
        },
    }
}

/// Whether a gate has the wires and immediates that its body takes, all wires of the graph, and an
/// internal output that comes after its inputs.
pub open spec fn gate_wf(gate: GateData, kinds: Seq<WireKind>) -> bool {
    let wires = gate.wires@;
    &&& arity_ok(gate.body, wires.len(), gate.immediates@)
    &&& forall|i: int| 0 <= i < wires.len() ==> (#[trigger] wires[i]).index < kinds.len()
    &&& output_place(gate.body) matches Some(place) ==> kinds[wires[place].index as int] is Internal
        && forall|i: int| 0 <= i < place ==> (#[trigger] wires[i]).index < wires[place].index
}

/// Whether every gate has the wires it takes, and its output comes after the outputs of the gates
/// before it.
pub open spec fn graph_wf(graph: GateGraph) -> bool {
    &&& forall|g: int|
        0 <= g < graph.gates@.len() ==> gate_wf((#[trigger] graph.gates@[g]).data, graph.wires@)
    &&& outputs_ascend(graph.gates@)
}

/// Whether the outputs of gates come in the order of the gates.
pub open spec fn outputs_ascend(gates: Seq<Gate>) -> bool {
    forall|g: int, h: int|
        0 <= g < h < gates.len() ==> match (
            output_place((#[trigger] gates[g]).data.body),
            output_place((#[trigger] gates[h]).data.body),
        ) {
            (Some(p), Some(q)) => gates[g].data.wires@[p].index < gates[h].data.wires@[q].index,
            _ => true,
        }
}

} // verus!
