//! What the gates of a circuit compute and assert, in words and bits; and what it is to add to a
//! circuit.

use vstd::prelude::*;

use crate::circuit::builder::CircuitBuilder;
use crate::circuit::semantics::{
    arity_ok, gate_asserted, gate_computed, gate_wf, graph_asserted, graph_computed, graph_wf,
    iadd_32, output_place, rotl, truth, val, vals,
};
use crate::circuit::witness::{lemma_with_words, with_words};
use crate::ir::{GateBody, GateGraph, Opcode, Wire, WireKind};

verus! {

/// The sum of the halves of two words is, in either half, the sum of 32-bit numbers without its
/// carry. So the words commute, and where no half overflows they are added as they are.
pub proof fn law_iadd_32(x: u64, y: u64)
    ensures
        iadd_32(x, y) as u32 == (x as u32).wrapping_add(y as u32),
        (iadd_32(x, y) >> 32u64) as u32 == ((x >> 32u64) as u32).wrapping_add(
            (y >> 32u64) as u32,
        ),
        iadd_32(x, y) == iadd_32(y, x),
        (x as u32) + (y as u32) <= u32::MAX && ((x >> 32u64) as u32) + ((y >> 32u64) as u32)
            <= u32::MAX ==> iadd_32(x, y) == x + y,
{
    let z = iadd_32(x, y);
    assert(x as u32 == x % 0x1_0000_0000) by (bit_vector);
    assert(y as u32 == y % 0x1_0000_0000) by (bit_vector);
    assert((x >> 32u64) as u32 == x / 0x1_0000_0000) by (bit_vector);
    assert((y >> 32u64) as u32 == y / 0x1_0000_0000) by (bit_vector);
    assert(z as u32 == z % 0x1_0000_0000) by (bit_vector);
    assert((z >> 32u64) as u32 == z / 0x1_0000_0000) by (bit_vector);
}

/// A rotation moves every bit up by its amount, and those above the top to the bottom.
pub proof fn law_rotl(x: u64, n: u32, i: u32)
    requires
        n < 64,
        i < 64,
    ensures
        (rotl(x, n) >> (((i + n) % 64) as u32)) & 1 == (x >> i) & 1,
{
    let to: u32 = ((i + n) % 64) as u32;
    let r = rotl(x, n);
    if n == 0 {
    } else {
        let m: u32 = (64 - n) as u32;
        assert((((x << n) | (x >> m)) >> to) & 1 == (x >> i) & 1) by (bit_vector)
            requires
                0 < n < 64,
                i < 64,
                m == 64 - n,
                to == (i + n) % 64,
        ;
    }
}

/// A word is true where its highest bit is one.
pub proof fn law_truth(x: u64)
    ensures
        truth(x) <==> (x >> 63u64) & 1 == 1,
{
    assert((x >= 0x8000_0000_0000_0000) <==> (x >> 63u64) & 1 == 1) by (bit_vector);
}

/// The value of a wire is the word at its index.
pub proof fn law_values(w: Seq<u64>, wires: Seq<Wire>, i: int)
    requires
        0 <= i < wires.len(),
    ensures
        vals(w, wires).len() == wires.len(),
        vals(w, wires)[i] == w[wires[i].index as int],
        val(w, wires[i]) == w[wires[i].index as int],
{
}

/// An assignment follows a circuit if and only if it has a value for every wire, the constants have
/// theirs, and every gate's output is, in words and bits, what its operation makes of its inputs.
pub proof fn law_computed_in_words(graph: GateGraph, w: Seq<u64>)
    requires
        graph_wf(graph),
    ensures
        graph_computed(graph, w) <==> {
            &&& graph.wires@.len() <= w.len()
            &&& forall|i: int|
                0 <= i < graph.wires@.len() ==> (#[trigger] graph.wires@[i] matches
                    WireKind::Constant(word) ==> w[i] == word)
            &&& forall|g: int|
                0 <= g < graph.gates@.len() ==> {
                    let gate = (#[trigger] graph.gates@[g]).data;
                    let x = w[gate.wires@[0].index as int];
                    let y = w[gate.wires@[1].index as int];
                    let z = w[gate.wires@[2].index as int];
                    let out = w[gate.wires@[3].index as int];
                    match gate.body {
                        GateBody::Op(Opcode::Band) => z == x & y,
                        GateBody::Op(Opcode::Bxor) => z == x ^ y,
                        GateBody::Op(Opcode::Bnot) => y == !x,
                        GateBody::Op(Opcode::Select) => if x >= 0x8000_0000_0000_0000 {
                            out == y
                        } else {
                            out == z
                        },
                        GateBody::Op(Opcode::Shl) => y == x << gate.immediates@[0],
                        GateBody::Op(Opcode::Shr) => y == x >> gate.immediates@[0],
                        GateBody::Op(Opcode::Rotl) => forall|i: u32|
                            #![trigger x >> i]
                            i < 64 ==> (y >> (((i + gate.immediates@[0]) % 64) as u32)) & 1 == (x
                                >> i) & 1,
                        GateBody::Op(Opcode::Ult) => (z >= 0x8000_0000_0000_0000) == (x < y),
                        GateBody::Op(Opcode::Ueq) => (z >= 0x8000_0000_0000_0000) == (x == y),
                        GateBody::Op(Opcode::Iadd32) => z as u32 == (x as u32).wrapping_add(
                            y as u32,
                        ) && (z >> 32u64) as u32 == ((x >> 32u64) as u32).wrapping_add(
                            (y >> 32u64) as u32,
                        ),
                        _ => true,
                    }
                }
        },
{
    reveal(graph_computed);
    assert forall|g: int| 0 <= g < graph.gates@.len() implies ({
        let gate = (#[trigger] graph.gates@[g]).data;
        let x = w[gate.wires@[0].index as int];
        let y = w[gate.wires@[1].index as int];
        let z = w[gate.wires@[2].index as int];
        let out = w[gate.wires@[3].index as int];
        gate_computed(gate, w) <==> match gate.body {
            GateBody::Op(Opcode::Band) => z == x & y,
            GateBody::Op(Opcode::Bxor) => z == x ^ y,
            GateBody::Op(Opcode::Bnot) => y == !x,
            GateBody::Op(Opcode::Select) => if x >= 0x8000_0000_0000_0000 {
                out == y
            } else {
                out == z
            },
            GateBody::Op(Opcode::Shl) => y == x << gate.immediates@[0],
            GateBody::Op(Opcode::Shr) => y == x >> gate.immediates@[0],
            GateBody::Op(Opcode::Rotl) => forall|i: u32|
                #![trigger x >> i]
                i < 64 ==> (y >> (((i + gate.immediates@[0]) % 64) as u32)) & 1 == (x >> i) & 1,
            GateBody::Op(Opcode::Ult) => (z >= 0x8000_0000_0000_0000) == (x < y),
            GateBody::Op(Opcode::Ueq) => (z >= 0x8000_0000_0000_0000) == (x == y),
            GateBody::Op(Opcode::Iadd32) => z as u32 == (x as u32).wrapping_add(y as u32) && (z
                >> 32u64) as u32 == ((x >> 32u64) as u32).wrapping_add((y >> 32u64) as u32),
            _ => true,
        }
    }) by {
        let gate = graph.gates@[g].data;
        assert(gate_wf(gate, graph.wires@));
        let v = vals(w, gate.wires@);
        let x = w[gate.wires@[0].index as int];
        let y = w[gate.wires@[1].index as int];
        let z = w[gate.wires@[2].index as int];
        match gate.body {
            GateBody::Op(Opcode::Iadd32) => {
                assert(v[0] == x && v[1] == y && v[2] == z);
                law_iadd_32(x, y);
                lemma_halves(z, iadd_32(x, y));
            },
            GateBody::Op(Opcode::Rotl) => {
                assert(v[0] == x && v[1] == y);
                lemma_rotated(x, y, gate.immediates@[0]);
            },
            _ => {},
        }
    }
}

/// Words with the same halves are the same.
proof fn lemma_halves(a: u64, b: u64)
    ensures
        a == b <==> a as u32 == b as u32 && (a >> 32u64) as u32 == (b >> 32u64) as u32,
{
    assert(a == b <==> a as u32 == b as u32 && (a >> 32u64) as u32 == (b >> 32u64) as u32)
        by (bit_vector);
}

/// A word is the rotation of another if and only if its bits are.
proof fn lemma_rotated(x: u64, y: u64, n: u32)
    requires
        n < 64,
    ensures
        y == rotl(x, n) <==> forall|i: u32|
            #![trigger x >> i]
            i < 64 ==> (y >> (((i + n) % 64) as u32)) & 1 == (x >> i) & 1,
{
    let r = rotl(x, n);
    assert forall|i: u32| #![trigger x >> i] i < 64 implies (r >> (((i + n) % 64) as u32)) & 1 == (x
        >> i) & 1 by {
        law_rotl(x, n, i);
    }
    if forall|i: u32|
        #![trigger x >> i]
        i < 64 ==> (y >> (((i + n) % 64) as u32)) & 1 == (x >> i) & 1 {
        assert forall|j: u32| j < 64 implies #[trigger] (y >> j) & 1 == (r >> j) & 1 by {
            let i: u32 = ((j + 64 - n) % 64) as u32;
            assert((i + n) % 64 == j);
            assert((y >> (((i + n) % 64) as u32)) & 1 == (x >> i) & 1);
            assert((r >> (((i + n) % 64) as u32)) & 1 == (x >> i) & 1);
        }
        lemma_same_bits(y, r);
    }
}

/// Words with the same bits are the same.
proof fn lemma_same_bits(a: u64, b: u64)
    requires
        forall|j: u32| j < 64 ==> #[trigger] (a >> j) & 1 == (b >> j) & 1,
    ensures
        a == b,
{
    lemma_low_bits(a, b, 64);
    assert(a << 0u32 == a && b << 0u32 == b) by (bit_vector);
}

/// Words with the same bits agree in the lowest `k` of them.
proof fn lemma_low_bits(a: u64, b: u64, k: u32)
    requires
        0 < k <= 64,
        forall|j: u32| j < 64 ==> #[trigger] (a >> j) & 1 == (b >> j) & 1,
    ensures
        a << ((64 - k) as u32) == b << ((64 - k) as u32),
    decreases k,
{
    let j: u32 = (k - 1) as u32;
    let shift: u32 = (64 - k) as u32;
    assert((a >> j) & 1 == (b >> j) & 1);
    if k == 1 {
        assert(a << 63u32 == b << 63u32) by (bit_vector)
            requires
                (a >> 0u32) & 1 == (b >> 0u32) & 1,
        ;
    } else {
        lemma_low_bits(a, b, j);
        let before: u32 = (64 - j) as u32;
        assert(a << shift == b << shift) by (bit_vector)
            requires
                (a >> j) & 1 == (b >> j) & 1,
                a << before == b << before,
                1 <= j < 64,
                before == 64 - j,
                shift == 63 - j,
        ;
    }
}

/// All that a circuit asserts holds if and only if, in the words of an assignment, what each
/// assertion is about holds: a highest bit is zero, or two words are equal, always or where a third
/// has its highest bit set.
pub proof fn law_asserted_in_words(graph: GateGraph, w: Seq<u64>)
    requires
        graph_wf(graph),
    ensures
        graph_asserted(graph, w) <==> forall|g: int|
            0 <= g < graph.gates@.len() ==> {
                let gate = (#[trigger] graph.gates@[g]).data;
                let x = w[gate.wires@[0].index as int];
                let y = w[gate.wires@[1].index as int];
                let z = w[gate.wires@[2].index as int];
                match gate.body {
                    GateBody::Op(Opcode::AssertFalse) => x < 0x8000_0000_0000_0000,
                    GateBody::Op(Opcode::AssertEq) => x == y,
                    GateBody::Op(Opcode::AssertEqCond) => z < 0x8000_0000_0000_0000 || x == y,
                    _ => true,
                }
            },
{
    reveal(graph_asserted);
    assert forall|g: int| 0 <= g < graph.gates@.len() implies ({
        let gate = (#[trigger] graph.gates@[g]).data;
        let x = w[gate.wires@[0].index as int];
        let y = w[gate.wires@[1].index as int];
        let z = w[gate.wires@[2].index as int];
        gate_asserted(gate, w) <==> match gate.body {
            GateBody::Op(Opcode::AssertFalse) => x < 0x8000_0000_0000_0000,
            GateBody::Op(Opcode::AssertEq) => x == y,
            GateBody::Op(Opcode::AssertEqCond) => z < 0x8000_0000_0000_0000 || x == y,
            _ => true,
        }
    }) by {
        assert(gate_wf(graph.gates@[g].data, graph.wires@));
    }
}

/// What was added to a circuit holds if and only if every assertion among the added gates does: of
/// all of them, or of those that are reported under a path.
pub proof fn law_added_in_words(
    b: CircuitBuilder,
    before: CircuitBuilder,
    path: Seq<char>,
    w: Seq<u64>,
)
    requires
        b.wf(),
    ensures
        b.adds_under(before, path, w) <==> forall|g: int|
            before.graph.gates@.len() <= g < b.graph.gates@.len()
                && b.names@[(#[trigger] b.graph.gates@[g]).assertion_name as int]@ == path ==> {
                let gate = b.graph.gates@[g].data;
                let x = w[gate.wires@[0].index as int];
                let y = w[gate.wires@[1].index as int];
                let z = w[gate.wires@[2].index as int];
                match gate.body {
                    GateBody::Op(Opcode::AssertFalse) => x < 0x8000_0000_0000_0000,
                    GateBody::Op(Opcode::AssertEq) => x == y,
                    GateBody::Op(Opcode::AssertEqCond) => z < 0x8000_0000_0000_0000 || x == y,
                    _ => true,
                }
            },
        b.adds(before, w) <==> forall|g: int|
            before.graph.gates@.len() <= g < b.graph.gates@.len() ==> {
                let gate = (#[trigger] b.graph.gates@[g]).data;
                let x = w[gate.wires@[0].index as int];
                let y = w[gate.wires@[1].index as int];
                let z = w[gate.wires@[2].index as int];
                match gate.body {
                    GateBody::Op(Opcode::AssertFalse) => x < 0x8000_0000_0000_0000,
                    GateBody::Op(Opcode::AssertEq) => x == y,
                    GateBody::Op(Opcode::AssertEqCond) => z < 0x8000_0000_0000_0000 || x == y,
                    _ => true,
                }
            },
{
    reveal(CircuitBuilder::adds_under);
    assert forall|g: int| 0 <= g < b.graph.gates@.len() implies ({
        let gate = (#[trigger] b.graph.gates@[g]).data;
        let x = w[gate.wires@[0].index as int];
        let y = w[gate.wires@[1].index as int];
        let z = w[gate.wires@[2].index as int];
        gate_asserted(gate, w) <==> match gate.body {
            GateBody::Op(Opcode::AssertFalse) => x < 0x8000_0000_0000_0000,
            GateBody::Op(Opcode::AssertEq) => x == y,
            GateBody::Op(Opcode::AssertEqCond) => z < 0x8000_0000_0000_0000 || x == y,
            _ => true,
        }
    }) by {
        assert(gate_wf(b.graph.gates@[g].data, b.graph.wires@));
    }
    if b.adds(before, w) {
        assert forall|g: int|
            before.graph.gates@.len() <= g < b.graph.gates@.len() implies gate_asserted(
            (#[trigger] b.graph.gates@[g]).data,
            w,
        ) by {
            assert(b.adds_under(before, b.path(g), w));
        }
    }
}

/// A circuit that extends another has its wires, gates and names in their places, and the same
/// current subcircuit, under which every added gate is reported. Where it only computes, no added
/// gate asserts anything.
pub proof fn law_extended(b: CircuitBuilder, before: CircuitBuilder)
    requires
        b.extends(before),
    ensures
        before.graph.wires@.len() <= b.graph.wires@.len(),
        b.graph.wires@.take(before.graph.wires@.len() as int) == before.graph.wires@,
        before.graph.gates@.len() <= b.graph.gates@.len(),
        b.graph.gates@.take(before.graph.gates@.len() as int) == before.graph.gates@,
        before.names@.len() <= b.names@.len(),
        b.names@.take(before.names@.len() as int) == before.names@,
        b.origin == before.origin,
        forall|g: int|
            before.graph.gates@.len() <= g < b.graph.gates@.len() ==> (
            #[trigger] b.graph.gates@[g]).origin == before.origin,
        b.only_computes(before) ==> forall|g: int|
            before.graph.gates@.len() <= g < b.graph.gates@.len() ==> !((
            #[trigger] b.graph.gates@[g]).data.body == GateBody::Op(Opcode::AssertFalse)
                || b.graph.gates@[g].data.body == GateBody::Op(Opcode::AssertEq)
                || b.graph.gates@[g].data.body == GateBody::Op(Opcode::AssertEqCond)),
{
    assert(b.graph.wires@.take(before.graph.wires@.len() as int) =~= before.graph.wires@);
    assert(b.graph.gates@.take(before.graph.gates@.len() as int) =~= before.graph.gates@);
    assert(b.names@.take(before.names@.len() as int) =~= before.names@);
}

/// One more gate is one with all that was given for it.
pub proof fn law_one_more_gate(
    b: CircuitBuilder,
    before: CircuitBuilder,
    assertion_name: usize,
    body: GateBody,
    wires: Seq<Wire>,
    immediates: Seq<u32>,
    dimensions: Seq<usize>,
)
    requires
        b.adds_gate(before, assertion_name, body, wires, immediates, dimensions),
    ensures
        b.graph.gates@.len() == before.graph.gates@.len() + 1,
        b.graph.gates@.drop_last() == before.graph.gates@,
        b.graph.gates@.last().origin == before.origin,
        b.graph.gates@.last().assertion_name == assertion_name,
        b.graph.gates@.last().data.body == body,
        b.graph.gates@.last().data.wires@ == wires,
        b.graph.gates@.last().data.immediates@ == immediates,
        b.graph.gates@.last().data.dimensions@ == dimensions,
{
    assert(b.graph.gates@.drop_last() =~= before.graph.gates@);
}

/// A filled assignment follows the circuit, has a word for every wire, and keeps what the wires of
/// the public interface and of the witness were given.
pub proof fn law_filled(b: CircuitBuilder, given: Seq<u64>, w: Seq<u64>)
    requires
        b.fills(given, w),
    ensures
        w.len() == b.graph.wires@.len(),
        graph_computed(b.graph, w),
        forall|i: int|
            0 <= i < b.graph.wires@.len() && i <= usize::MAX && (
            #[trigger] b.graph.wires@[i] is Inout || b.graph.wires@[i] is Witness) ==> w[i]
                == given[i],
{
    assert forall|i: int|
        0 <= i < b.graph.wires@.len() && i <= usize::MAX && (
        #[trigger] b.graph.wires@[i] is Inout || b.graph.wires@[i] is Witness) implies w[i]
        == given[i] by {
        assert(b.is_given(Wire { index: i as usize }));
    }
}

/// Words that are put on wires of which no two are the same stand there, and nothing else changes.
pub proof fn law_words_on_wires(w: Seq<u64>, wires: Seq<Wire>, words: Seq<u64>, k: int)
    requires
        words.len() <= wires.len(),
        forall|i: int| 0 <= i < wires.len() ==> (#[trigger] wires[i]).index < w.len(),
        forall|i: int, j: int|
            0 <= i < j < wires.len() ==> (#[trigger] wires[i]).index != (#[trigger] wires[j]).index,
    ensures
        with_words(w, wires, words).len() == w.len(),
        0 <= k < words.len() ==> with_words(w, wires, words)[wires[k].index as int] == words[k],
        0 <= k < w.len() && (forall|i: int|
            0 <= i < words.len() ==> (#[trigger] wires[i]).index != k) ==> with_words(
            w,
            wires,
            words,
        )[k] == w[k],
{
    lemma_with_words(w, wires, words);
}

/// What is said of a circuit under construction is said of its graph and its names.
pub proof fn law_of_the_graph(b: CircuitBuilder, w: Seq<u64>, wires: Seq<Wire>, g: int)
    ensures
        b.computed(w) <==> graph_computed(b.graph, w),
        b.asserted(w) <==> graph_asserted(b.graph, w),
        b.n_wires() == b.graph.wires@.len(),
        b.n_gates() == b.graph.gates@.len(),
        b.has_all(wires) <==> forall|i: int|
            0 <= i < wires.len() ==> (#[trigger] wires[i]).index < b.graph.wires@.len(),
        wires.len() > 0 ==> (b.has(wires[0]) <==> wires[0].index < b.graph.wires@.len()),
        b.path(g) == b.names@[b.graph.gates@[g].assertion_name as int]@,
{
    if forall|i: int| 0 <= i < wires.len() ==> (#[trigger] wires[i]).index < b.graph.wires@.len() {
        assert forall|i: int| 0 <= i < wires.len() implies b.has(#[trigger] wires[i]) by {}
    }
    if b.has_all(wires) {
        assert forall|i: int| 0 <= i < wires.len() implies (#[trigger] wires[i]).index
            < b.graph.wires@.len() by {
            assert(b.has(wires[i]));
        }
    }
}

/// The output of an operation is its last wire; an assertion and a hint have none that is computed.
pub proof fn law_outputs(opcode: Opcode, hint_id: u32, immediates: Seq<u32>, n: nat)
    ensures
        output_place(GateBody::Hint(hint_id)) is None,
        opcode is AssertFalse || opcode is AssertEq || opcode is AssertEqCond <==> output_place(
            GateBody::Op(opcode),
        ) is None,
        arity_ok(GateBody::Op(opcode), n, immediates) ==> (output_place(
            GateBody::Op(opcode),
        ) matches Some(p) ==> p == n - 1),
        arity_ok(GateBody::Op(opcode), n, immediates) <==> match opcode {
            Opcode::AssertFalse => n == 1,
            Opcode::AssertEq | Opcode::Bnot => n == 2,
            Opcode::Shl | Opcode::Shr | Opcode::Rotl => n == 2 && immediates.len() == 1
                && immediates[0] < 64,
            Opcode::Select => n == 4,
            _ => n == 3,
        },
{
}

} // verus!
