//! What the digest is: FNV-1a over the bytes of the words of a state, and which words those are.

use vstd::prelude::*;

use crate::compile_cache::checksum::{mix, OFFSET_BASIS};
use crate::compile_cache::digest::{
    flag_word, fnv_bytes, fnv_words, gate_words, gates_words, kind_words, kinds_words,
    lemma_fnv_bytes_add, lemma_word_bytes_at, options_words, state_digest, state_words, wires_words,
    word_bytes, Options,
};
use crate::compile_cache::digest_bytes::{lemma_all_gate_words, lemma_shifted};
use crate::compile_cache::wire_set::{ascending_wires, lemma_lists_wires_unique, lists_wires};
use crate::ir::{Gate, GateBody, GateGraph, Opcode, Wire, WireKind};
use crate::serialization::little_endian::le_bytes;

verus! {

/// A byte of a word, by a shift.
proof fn lemma_byte_at(u: u64, k: int)
    requires
        0 <= k < 8,
    ensures
        le_bytes(u as nat, 8)[k] == (u >> (8 * k) as u64 & 0xff) as u8,
{
    lemma_shifted(u);
    if k == 0 {
        assert(u >> 0u64 == u) by (bit_vector);
    }
}

/// A run of FNV-1a states over bytes ends in their digest.
proof fn lemma_run(bytes: Seq<u8>, states: Seq<u64>, n: int)
    requires
        states.len() == bytes.len() + 1,
        0 <= n <= bytes.len(),
        forall|j: int|
            0 <= j < bytes.len() ==> states[j + 1] == (states[j] ^ (
            #[trigger] bytes[j] as u64)).wrapping_mul(0x100000001b3),
    ensures
        fnv_bytes(states[0], bytes.take(n)) == states[n],
    decreases n,
{
    if n > 0 {
        lemma_run(bytes, states, n - 1);
        let last = bytes[n - 1];
        assert(bytes.take(n) =~= bytes.take(n - 1) + seq![last]);
        lemma_fnv_bytes_add(states[0], bytes.take(n - 1), seq![last]);
        assert(seq![last].skip(1) =~= Seq::<u8>::empty());
        assert(fnv_bytes(states[n - 1], seq![last]) == mix(states[n - 1], last as u64)) by {
            reveal_with_fuel(fnv_bytes, 2);
        }
    } else {
        assert(bytes.take(0) =~= Seq::<u8>::empty());
    }
}

/// The words between the places of the wires are those of their kinds.
proof fn lemma_kinds_laid_out(kinds: Seq<WireKind>, words: Seq<u64>, at: Seq<int>)
    requires
        at.len() == kinds.len() + 1,
        0 <= at[0],
        at.last() <= words.len(),
        forall|w: int|
            0 <= w < kinds.len() ==> match #[trigger] kinds[w] {
                WireKind::Constant(value) => at[w + 1] == at[w] + 2 && words[at[w]] == 1
                    && words[at[w] + 1] == value,
                WireKind::Inout => at[w + 1] == at[w] + 1 && words[at[w]] == 2,
                WireKind::Witness => at[w + 1] == at[w] + 1 && words[at[w]] == 3,
                WireKind::Internal => at[w + 1] == at[w] + 1 && words[at[w]] == 4,
                WireKind::Scratch => at[w + 1] == at[w] + 1 && words[at[w]] == 5,
            },
    ensures
        at[0] <= at.last(),
        words.subrange(at[0], at.last()) == kinds_words(kinds),
    decreases kinds.len(),
{
    if kinds.len() == 0 {
        assert(words.subrange(at[0], at.last()) =~= Seq::<u64>::empty());
    } else {
        let rest = kinds.skip(1);
        let next = at.skip(1);
        assert(next.last() == at.last());
        let kind = kinds[0];
        assert(at[1] == at[0] + kind_words(kind).len());
        assert forall|w: int| 0 <= w < rest.len() implies match #[trigger] rest[w] {
            WireKind::Constant(value) => next[w + 1] == next[w] + 2 && words[next[w]] == 1
                && words[next[w] + 1] == value,
            WireKind::Inout => next[w + 1] == next[w] + 1 && words[next[w]] == 2,
            WireKind::Witness => next[w + 1] == next[w] + 1 && words[next[w]] == 3,
            WireKind::Internal => next[w + 1] == next[w] + 1 && words[next[w]] == 4,
            WireKind::Scratch => next[w + 1] == next[w] + 1 && words[next[w]] == 5,
        } by {
            assert(rest[w] == kinds[w + 1]);
        }
        lemma_kinds_laid_out(rest, words, next);
        assert(words.subrange(at[0], at[1]) =~= kind_words(kind));
        assert(words.subrange(at[0], at.last()) =~= words.subrange(at[0], at[1]) + words.subrange(
            at[1],
            at.last(),
        ));
    }
}

/// Whether a gate's words stand at a place, and end at another.
spec fn gate_laid_out(gate: Gate, words: Seq<u64>, a: int, end: int) -> bool {
    let w = gate.data.wires@.len() as int;
    let m = gate.data.immediates@.len() as int;
    let d = gate.data.dimensions@.len() as int;
    &&& words[a] == gate.origin as u64
    &&& words[a + 1] == gate.assertion_name as u64
    &&& match gate.data.body {
        GateBody::Op(opcode) => words[a + 2] == 1 && words[a + 3] == opcode.code_model(),
        GateBody::Hint(id) => words[a + 2] == 2 && words[a + 3] == id as u64,
    }
    &&& words[a + 4] == w
    &&& forall|j: int| 0 <= j < w ==> words[a + 5 + j] == (#[trigger] gate.data.wires@[j]).index
    &&& words[a + 5 + w] == m
    &&& forall|j: int| 0 <= j < m ==> words[a + 6 + w + j] == #[trigger] gate.data.immediates@[j]
    &&& words[a + 6 + w + m] == d
    &&& forall|j: int|
        0 <= j < d ==> words[a + 7 + w + m + j] == #[trigger] gate.data.dimensions@[j]
    &&& end == a + 7 + w + m + d
}

proof fn lemma_gate_laid_out(gate: Gate, words: Seq<u64>, a: int, end: int)
    requires
        0 <= a,
        end <= words.len(),
        gate_laid_out(gate, words, a, end),
    ensures
        words.subrange(a, end) == gate_words(gate),
{
    lemma_all_gate_words(gate, words.subrange(a, end));
}

/// The words between the places of the gates are theirs.
proof fn lemma_gates_laid_out(gates: Seq<Gate>, words: Seq<u64>, at: Seq<int>)
    requires
        at.len() == gates.len() + 1,
        0 <= at[0],
        at.last() <= words.len(),
        forall|g: int|
            0 <= g < gates.len() ==> gate_laid_out(#[trigger] gates[g], words, at[g], at[g + 1]),
    ensures
        at[0] <= at.last(),
        words.subrange(at[0], at.last()) == gates_words(gates),
    decreases gates.len(),
{
    if gates.len() == 0 {
        assert(words.subrange(at[0], at.last()) =~= Seq::<u64>::empty());
    } else {
        let rest = gates.skip(1);
        let next = at.skip(1);
        assert(next.last() == at.last());
        assert(gate_laid_out(gates[0], words, at[0], at[1]));
        assert forall|g: int| 0 <= g < rest.len() implies gate_laid_out(
            #[trigger] rest[g],
            words,
            next[g],
            next[g + 1],
        ) by {
            assert(rest[g] == gates[g + 1]);
        }
        lemma_gates_laid_out(rest, words, next);
        lemma_gate_laid_out(gates[0], words, at[0], at[1]);
        assert(words.subrange(at[0], at.last()) =~= words.subrange(at[0], at[1]) + words.subrange(
            at[1],
            at.last(),
        ));
    }
}

/// The digest is the last state of FNV-1a over the bytes of words, the lowest byte of each first.
/// The words are: the seven options, as one or zero; the number of the force-committed wires and
/// their indices, ascending; the number of the wires and, of each, what kind it is, with the value
/// of a constant; and the number of the gates and, of each, its two paths, its body, and its wires,
/// immediates and dimensions, each list after its length.
pub proof fn law_digest_of_a_state(
    graph: GateGraph,
    opts: Options,
    force_committed: Set<usize>,
    committed: Seq<Wire>,
    words: Seq<u64>,
    wires_at: Seq<int>,
    gates_at: Seq<int>,
    bytes: Seq<u8>,
    states: Seq<u64>,
)
    requires
        forall|i: int, j: int|
            0 <= i < j < committed.len() ==> (#[trigger] committed[i]).index < (
            #[trigger] committed[j]).index,
        forall|index: usize| #[trigger]
            force_committed.contains(index) <==> exists|i: int|
                0 <= i < committed.len() && (#[trigger] committed[i]).index == index,
        words[0] == (if opts.enable_gate_fusion { 1u64 } else { 0 }),
        words[1] == (if opts.enable_constant_propagation { 1u64 } else { 0 }),
        words[2] == (if opts.enable_common_subexpression_elimination { 1u64 } else { 0 }),
        words[3] == (if opts.enable_dead_code_elimination { 1u64 } else { 0 }),
        words[4] == (if opts.enable_algebraic_folding { 1u64 } else { 0 }),
        words[5] == (if opts.enable_scratch_pooling { 1u64 } else { 0 }),
        words[6] == (if opts.enable_zero_propagation { 1u64 } else { 0 }),
        words[7] == committed.len(),
        forall|i: int| 0 <= i < committed.len() ==> words[8 + i] == (#[trigger] committed[i]).index,
        words[8 + committed.len() as int] == graph.wires@.len(),
        wires_at.len() == graph.wires@.len() + 1,
        wires_at[0] == 9 + committed.len(),
        forall|w: int|
            0 <= w < graph.wires@.len() ==> match #[trigger] graph.wires@[w] {
                WireKind::Constant(value) => wires_at[w + 1] == wires_at[w] + 2
                    && words[wires_at[w]] == 1 && words[wires_at[w] + 1] == value,
                WireKind::Inout => wires_at[w + 1] == wires_at[w] + 1 && words[wires_at[w]] == 2,
                WireKind::Witness => wires_at[w + 1] == wires_at[w] + 1 && words[wires_at[w]] == 3,
                WireKind::Internal => wires_at[w + 1] == wires_at[w] + 1 && words[wires_at[w]] == 4,
                WireKind::Scratch => wires_at[w + 1] == wires_at[w] + 1 && words[wires_at[w]] == 5,
            },
        words[wires_at.last()] == graph.gates@.len(),
        gates_at.len() == graph.gates@.len() + 1,
        gates_at[0] == wires_at.last() + 1,
        forall|g: int|
            0 <= g < graph.gates@.len() ==> {
                let gate = #[trigger] graph.gates@[g];
                let a = gates_at[g];
                let w = gate.data.wires@.len() as int;
                let m = gate.data.immediates@.len() as int;
                let d = gate.data.dimensions@.len() as int;
                &&& words[a] == gate.origin as u64
                &&& words[a + 1] == gate.assertion_name as u64
                &&& match gate.data.body {
                    GateBody::Op(opcode) => words[a + 2] == 1 && words[a + 3] == match opcode {
                        Opcode::Band => 0u64,
                        Opcode::Bxor => 1,
                        Opcode::Bnot => 2,
                        Opcode::Select => 3,
                        Opcode::Shl => 4,
                        Opcode::Shr => 5,
                        Opcode::Rotl => 6,
                        Opcode::Ult => 7,
                        Opcode::Ueq => 8,
                        Opcode::Iadd32 => 9,
                        Opcode::AssertFalse => 10,
                        Opcode::AssertEq => 11,
                        Opcode::AssertEqCond => 12,
                    },
                    GateBody::Hint(id) => words[a + 2] == 2 && words[a + 3] == id as u64,
                }
                &&& words[a + 4] == w
                &&& forall|j: int|
                    0 <= j < w ==> words[a + 5 + j] == (#[trigger] gate.data.wires@[j]).index
                &&& words[a + 5 + w] == m
                &&& forall|j: int|
                    0 <= j < m ==> words[a + 6 + w + j] == #[trigger] gate.data.immediates@[j]
                &&& words[a + 6 + w + m] == d
                &&& forall|j: int|
                    0 <= j < d ==> words[a + 7 + w + m + j] == #[trigger] gate.data.dimensions@[j]
                &&& gates_at[g + 1] == a + 7 + w + m + d
            },
        words.len() == gates_at.last(),
        bytes.len() == 8 * words.len(),
        forall|j: int|
            0 <= j < bytes.len() ==> #[trigger] bytes[j] == (words[j / 8] >> (8 * (j % 8)) as u64
                & 0xff) as u8,
        states.len() == bytes.len() + 1,
        states[0] == 0xcbf29ce484222325,
        forall|j: int|
            0 <= j < bytes.len() ==> states[j + 1] == (states[j] ^ (
            #[trigger] bytes[j] as u64)).wrapping_mul(0x100000001b3),
    ensures
        state_digest(graph, opts, force_committed) == states.last(),
{
    assert(lists_wires(force_committed, committed));
    lemma_lists_wires_unique(force_committed, committed, ascending_wires(force_committed));
    assert forall|g: int| 0 <= g < graph.gates@.len() implies gate_laid_out(
        #[trigger] graph.gates@[g],
        words,
        gates_at[g],
        gates_at[g + 1],
    ) by {}
    lemma_ends(graph.gates@, words, gates_at);
    lemma_kinds_laid_out(graph.wires@, words, wires_at);
    lemma_gates_laid_out(graph.gates@, words, gates_at);
    lemma_assembled(graph, opts, committed, words, wires_at.last());
    assert(words == state_words(graph, opts, force_committed));
    lemma_digest_of_words(words, bytes, states);
}

/// Words that are those of the parts, one part behind the other, are the words of the state.
proof fn lemma_assembled(
    graph: GateGraph,
    opts: Options,
    committed: Seq<Wire>,
    words: Seq<u64>,
    gates_at: int,
)
    requires
        words[0] == flag_word(opts.enable_gate_fusion),
        words[1] == flag_word(opts.enable_constant_propagation),
        words[2] == flag_word(opts.enable_common_subexpression_elimination),
        words[3] == flag_word(opts.enable_dead_code_elimination),
        words[4] == flag_word(opts.enable_algebraic_folding),
        words[5] == flag_word(opts.enable_scratch_pooling),
        words[6] == flag_word(opts.enable_zero_propagation),
        words[7] == committed.len(),
        forall|i: int| 0 <= i < committed.len() ==> words[8 + i] == (#[trigger] committed[i]).index,
        words[8 + committed.len() as int] == graph.wires@.len(),
        words[gates_at] == graph.gates@.len(),
        9 + committed.len() <= gates_at < words.len(),
        words.subrange(9 + committed.len() as int, gates_at) == kinds_words(graph.wires@),
        words.subrange(gates_at + 1, words.len() as int) == gates_words(graph.gates@),
    ensures
        words == options_words(opts) + (wires_words(committed) + ((seq![graph.wires@.len() as u64]
            + kinds_words(graph.wires@)) + (seq![graph.gates@.len() as u64] + gates_words(
            graph.gates@,
        )))),
{
    let n = committed.len() as int;
    let o = options_words(opts);
    let c = wires_words(committed);
    let k = seq![graph.wires@.len() as u64] + kinds_words(graph.wires@);
    let g = seq![graph.gates@.len() as u64] + gates_words(graph.gates@);
    assert(words.subrange(0, 7) =~= o);
    assert(words.subrange(7, 8 + n) =~= c) by {
        assert forall|i: int| 0 <= i < n + 1 implies words.subrange(7, 8 + n)[i] == c[i] by {
            if i > 0 {
                assert(words[8 + (i - 1)] == committed[i - 1].index);
            }
        }
    }
    assert(words.subrange(8 + n, gates_at) =~= seq![words[8 + n]] + words.subrange(
        9 + n,
        gates_at,
    ));
    assert(words.subrange(8 + n, gates_at) =~= k);
    assert(words.subrange(gates_at, words.len() as int) =~= seq![words[gates_at]]
        + words.subrange(gates_at + 1, words.len() as int));
    assert(words.subrange(gates_at, words.len() as int) =~= g);
    assert(words =~= words.subrange(0, 7) + (words.subrange(7, 8 + n) + (words.subrange(
        8 + n,
        gates_at,
    ) + words.subrange(gates_at, words.len() as int))));
}

/// A run of FNV-1a states over the bytes of words ends in their digest.
proof fn lemma_digest_of_words(words: Seq<u64>, bytes: Seq<u8>, states: Seq<u64>)
    requires
        words.len() > 0,
        bytes.len() == 8 * words.len(),
        forall|j: int|
            0 <= j < bytes.len() ==> #[trigger] bytes[j] == (words[j / 8] >> (8 * (j % 8)) as u64
                & 0xff) as u8,
        states.len() == bytes.len() + 1,
        states[0] == OFFSET_BASIS,
        forall|j: int|
            0 <= j < bytes.len() ==> states[j + 1] == (states[j] ^ (
            #[trigger] bytes[j] as u64)).wrapping_mul(0x100000001b3),
    ensures
        fnv_words(OFFSET_BASIS, words) == states.last(),
{
    lemma_word_bytes_at(words, 0, 0);
    assert forall|j: int| 0 <= j < bytes.len() implies bytes[j] == word_bytes(words)[j] by {
        lemma_word_bytes_at(words, j / 8, j % 8);
        lemma_byte_at(words[j / 8], j % 8);
    }
    assert(bytes =~= word_bytes(words));
    lemma_run(bytes, states, bytes.len() as int);
    assert(bytes.take(bytes.len() as int) =~= bytes);
}

/// The places of the gates do not fall.
proof fn lemma_ends(gates: Seq<Gate>, words: Seq<u64>, at: Seq<int>)
    requires
        at.len() == gates.len() + 1,
        forall|g: int|
            0 <= g < gates.len() ==> gate_laid_out(#[trigger] gates[g], words, at[g], at[g + 1]),
    ensures
        at[0] <= at.last(),
    decreases gates.len(),
{
    if gates.len() > 0 {
        let rest = gates.skip(1);
        let next = at.skip(1);
        assert(next.last() == at.last());
        assert(gate_laid_out(gates[0], words, at[0], at[1]));
        assert forall|g: int| 0 <= g < rest.len() implies gate_laid_out(
            #[trigger] rest[g],
            words,
            next[g],
            next[g + 1],
        ) by {
            assert(rest[g] == gates[g + 1]);
        }
        lemma_ends(rest, words, next);
    }
}

} // verus!
