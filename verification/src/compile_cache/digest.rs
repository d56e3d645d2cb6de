//! The digest of what a compilation starts from.

use vstd::prelude::*;

use crate::compile_cache::checksum::{
    lemma_mix_state, lemma_mix_word, mix, OFFSET_BASIS, PRIME,
};
use crate::compile_cache::wire_set::{ascending_wires, WireSet};
use crate::ir::{Gate, GateBody, GateData, GateGraph, Wire, WireKind};
use crate::serialization::little_endian::{le_bytes, lemma_le_bytes_len};

verus! {

/// Which passes a build runs.
#[derive(Clone, Copy, Debug, PartialEq, Eq, Structural)]
pub struct Options {
    pub enable_gate_fusion: bool,
    pub enable_constant_propagation: bool,
    pub enable_common_subexpression_elimination: bool,
    pub enable_dead_code_elimination: bool,
    pub enable_algebraic_folding: bool,
    pub enable_scratch_pooling: bool,
    pub enable_zero_propagation: bool,
}

impl Default for Options {
    fn default() -> (opts: Self)
        ensures
            opts == (Options {
                enable_gate_fusion: true,
                enable_constant_propagation: false,
                enable_common_subexpression_elimination: true,
                enable_dead_code_elimination: true,
                enable_algebraic_folding: true,
                enable_scratch_pooling: true,
                enable_zero_propagation: true,
            }),
    {
        Options {
            enable_gate_fusion: true,
            enable_constant_propagation: false,
            enable_common_subexpression_elimination: true,
            enable_dead_code_elimination: true,
            enable_algebraic_folding: true,
            enable_scratch_pooling: true,
            enable_zero_propagation: true,
        }
    }
}

/// FNV-1a over bytes: each is mixed into the state, in order.
pub open spec fn fnv_bytes(h: u64, bytes: Seq<u8>) -> u64
    decreases bytes.len(),
{
    if bytes.len() == 0 {
        h
    } else {
        fnv_bytes(mix(h, bytes[0] as u64), bytes.skip(1))
    }
}

/// The bytes of words, the lowest byte of each first.
pub open spec fn word_bytes(words: Seq<u64>) -> Seq<u8>
    decreases words.len(),
{
    if words.len() == 0 {
        Seq::empty()
    } else {
        le_bytes(words[0] as nat, 8) + word_bytes(words.skip(1))
    }
}

/// FNV-1a over the bytes of words.
pub open spec fn fnv_words(h: u64, words: Seq<u64>) -> u64 {
    fnv_bytes(h, word_bytes(words))
}

pub proof fn lemma_fnv_bytes_add(h: u64, a: Seq<u8>, b: Seq<u8>)
    ensures
        fnv_bytes(h, a + b) == fnv_bytes(fnv_bytes(h, a), b),
    decreases a.len(),
{
    if a.len() == 0 {
        assert(a + b =~= b);
    } else {
        assert((a + b).skip(1) =~= a.skip(1) + b);
        lemma_fnv_bytes_add(mix(h, a[0] as u64), a.skip(1), b);
    }
}

proof fn lemma_word_bytes_add(a: Seq<u64>, b: Seq<u64>)
    ensures
        word_bytes(a + b) == word_bytes(a) + word_bytes(b),
    decreases a.len(),
{
    if a.len() == 0 {
        assert(a + b =~= b);
        assert(word_bytes(a) + word_bytes(b) =~= word_bytes(b));
    } else {
        assert((a + b).skip(1) =~= a.skip(1) + b);
        lemma_word_bytes_add(a.skip(1), b);
        assert(word_bytes(a + b) =~= word_bytes(a) + word_bytes(b));
    }
}

pub broadcast proof fn lemma_fnv_words_add(h: u64, a: Seq<u64>, b: Seq<u64>)
    ensures
        #[trigger] fnv_words(h, a + b) == fnv_words(fnv_words(h, a), b),
{
    lemma_word_bytes_add(a, b);
    lemma_fnv_bytes_add(h, word_bytes(a), word_bytes(b));
}

/// FNV-1a over one word. It rests on no hasher, so digests compare across processes and builds.
fn fnv1a(hash: u64, word: u64) -> (h: u64)
    ensures
        h == fnv_words(hash, seq![word]),
{
    let mut h: u64 = hash;
    let mut left: u64 = word;
    let mut i: usize = 0;
    proof {
        assert(seq![word].skip(1) =~= Seq::<u64>::empty());
        assert(word_bytes(Seq::<u64>::empty()) =~= Seq::<u8>::empty());
        assert(word_bytes(seq![word]) =~= le_bytes(word as nat, 8));
    }
    while i < 8
        invariant
            i <= 8,
            fnv_words(hash, seq![word]) == fnv_bytes(h, le_bytes(left as nat, (8 - i) as nat)),
        decreases 8 - i,
    {
        proof {
            let bytes = le_bytes(left as nat, (8 - i) as nat);
            assert(bytes.skip(1) =~= le_bytes(left as nat / 256, (7 - i) as nat));
        }
        h = (h ^ (left % 256)).wrapping_mul(PRIME);
        left = left / 256;
        i += 1;
    }
    h
}

/// The word of a flag.
pub open spec fn flag_word(flag: bool) -> u64 {
    if flag {
        1
    } else {
        0
    }
}

/// The words of the options, flag by flag.
pub open spec fn options_words(opts: Options) -> Seq<u64> {
    seq![
        flag_word(opts.enable_gate_fusion),
        flag_word(opts.enable_constant_propagation),
        flag_word(opts.enable_common_subexpression_elimination),
        flag_word(opts.enable_dead_code_elimination),
        flag_word(opts.enable_algebraic_folding),
        flag_word(opts.enable_scratch_pooling),
        flag_word(opts.enable_zero_propagation),
    ]
}

/// The words of a list of wires: their number, then their indices.
pub open spec fn wires_words(wires: Seq<Wire>) -> Seq<u64> {
    seq![wires.len() as u64] + wires.map_values(|wire: Wire| wire.index as u64)
}

/// The words of a wire: what kind it is, and the value of a constant.
pub open spec fn kind_words(kind: WireKind) -> Seq<u64> {
    match kind {
        WireKind::Constant(word) => seq![1u64, word],
        WireKind::Inout => seq![2u64],
        WireKind::Witness => seq![3u64],
        WireKind::Internal => seq![4u64],
        WireKind::Scratch => seq![5u64],
    }
}

pub open spec fn kinds_words(kinds: Seq<WireKind>) -> Seq<u64>
    decreases kinds.len(),
{
    if kinds.len() == 0 {
        Seq::empty()
    } else {
        kind_words(kinds[0]) + kinds_words(kinds.skip(1))
    }
}

/// The words of a gate's body: whether it is an operation or a hint, and which.
pub open spec fn body_words(body: GateBody) -> Seq<u64> {
    match body {
        GateBody::Op(opcode) => seq![1u64, opcode.code_model() as u64],
        GateBody::Hint(hint_id) => seq![2u64, hint_id as u64],
    }
}

/// The words of a gate: its paths, its body, and its wires, immediates and dimensions, each list
/// after its length.
pub open spec fn gate_words(gate: Gate) -> Seq<u64> {
    seq![gate.origin as u64, gate.assertion_name as u64] + (body_words(gate.data.body) + (
    wires_words(gate.data.wires@) + ((seq![gate.data.immediates@.len() as u64]
        + gate.data.immediates@.map_values(|imm: u32| imm as u64)) + (seq![
        gate.data.dimensions@.len() as u64,
    ] + gate.data.dimensions@.map_values(|dim: usize| dim as u64)))))
}

pub open spec fn gates_words(gates: Seq<Gate>) -> Seq<u64>
    decreases gates.len(),
{
    if gates.len() == 0 {
        Seq::empty()
    } else {
        gate_words(gates[0]) + gates_words(gates.skip(1))
    }
}

/// The words of what a compilation starts from: the options, the wires that must stay readable,
/// the kind of every wire, and every gate.
pub open spec fn state_words(graph: GateGraph, opts: Options, force_committed: Set<usize>) -> Seq<
    u64,
> {
    options_words(opts) + (wires_words(ascending_wires(force_committed)) + ((seq![
        graph.wires@.len() as u64,
    ] + kinds_words(graph.wires@)) + (seq![graph.gates@.len() as u64] + gates_words(
        graph.gates@,
    ))))
}

/// The digest of what a compilation starts from.
pub open spec fn state_digest(graph: GateGraph, opts: Options, force_committed: Set<usize>) -> u64 {
    fnv_words(OFFSET_BASIS, state_words(graph, opts, force_committed))
}

/// Mixes a list of wires into the state.
fn digest_wires(hash: u64, wires: &Vec<Wire>) -> (h: u64)
    ensures
        h == fnv_words(hash, wires_words(wires@)),
{
    broadcast use lemma_fnv_words_add;

    let ghost all = wires@.map_values(|wire: Wire| wire.index as u64);
    let mut h: u64 = fnv1a(hash, wires.len() as u64);
    let mut i: usize = 0;
    assert(all.skip(0) =~= all);
    while i < wires.len()
        invariant
            all == wires@.map_values(|wire: Wire| wire.index as u64),
            i <= wires@.len(),
            fnv_words(hash, wires_words(wires@)) == fnv_words(h, all.skip(i as int)),
        decreases wires@.len() - i,
    {
        proof {
            assert(all.skip(i as int) =~= seq![all[i as int]] + all.skip(i + 1));
            lemma_fnv_words_add(h, seq![all[i as int]], all.skip(i + 1));
        }
        h = fnv1a(h, wires[i].index as u64);
        i += 1;
    }
    assert(all.skip(i as int) =~= Seq::<u64>::empty());
    h
}

/// Mixes a list of immediates into the state.
fn digest_immediates(hash: u64, immediates: &Vec<u32>) -> (h: u64)
    ensures
        h == fnv_words(
            hash,
            seq![immediates@.len() as u64] + immediates@.map_values(|imm: u32| imm as u64),
        ),
{
    broadcast use lemma_fnv_words_add;

    let ghost all = immediates@.map_values(|imm: u32| imm as u64);
    let ghost words = seq![immediates@.len() as u64] + all;
    let mut h: u64 = fnv1a(hash, immediates.len() as u64);
    let mut i: usize = 0;
    assert(all.skip(0) =~= all);
    while i < immediates.len()
        invariant
            all == immediates@.map_values(|imm: u32| imm as u64),
            i <= immediates@.len(),
            fnv_words(hash, words) == fnv_words(h, all.skip(i as int)),
        decreases immediates@.len() - i,
    {
        proof {
            assert(all.skip(i as int) =~= seq![all[i as int]] + all.skip(i + 1));
            lemma_fnv_words_add(h, seq![all[i as int]], all.skip(i + 1));
        }
        h = fnv1a(h, immediates[i] as u64);
        i += 1;
    }
    assert(all.skip(i as int) =~= Seq::<u64>::empty());
    h
}

/// Mixes a list of dimensions into the state.
fn digest_dimensions(hash: u64, dimensions: &Vec<usize>) -> (h: u64)
    ensures
        h == fnv_words(
            hash,
            seq![dimensions@.len() as u64] + dimensions@.map_values(|dim: usize| dim as u64),
        ),
{
    broadcast use lemma_fnv_words_add;

    let ghost all = dimensions@.map_values(|dim: usize| dim as u64);
    let ghost words = seq![dimensions@.len() as u64] + all;
    let mut h: u64 = fnv1a(hash, dimensions.len() as u64);
    let mut i: usize = 0;
    assert(all.skip(0) =~= all);
    while i < dimensions.len()
        invariant
            all == dimensions@.map_values(|dim: usize| dim as u64),
            i <= dimensions@.len(),
            fnv_words(hash, words) == fnv_words(h, all.skip(i as int)),
        decreases dimensions@.len() - i,
    {
        proof {
            assert(all.skip(i as int) =~= seq![all[i as int]] + all.skip(i + 1));
            lemma_fnv_words_add(h, seq![all[i as int]], all.skip(i + 1));
        }
        h = fnv1a(h, dimensions[i] as u64);
        i += 1;
    }
    assert(all.skip(i as int) =~= Seq::<u64>::empty());
    h
}

/// Mixes two words into the state.
fn digest_two(hash: u64, a: u64, b: u64) -> (h: u64)
    ensures
        h == fnv_words(hash, seq![a, b]),
{
    proof {
        assert(seq![a, b] =~= seq![a] + seq![b]);
        lemma_fnv_words_add(hash, seq![a], seq![b]);
    }
    fnv1a(fnv1a(hash, a), b)
}

/// Mixes the options into the state.
fn digest_options(hash: u64, opts: &Options) -> (h: u64)
    ensures
        h == fnv_words(hash, options_words(*opts)),
{
    let flags: [bool; 7] = [
        opts.enable_gate_fusion,
        opts.enable_constant_propagation,
        opts.enable_common_subexpression_elimination,
        opts.enable_dead_code_elimination,
        opts.enable_algebraic_folding,
        opts.enable_scratch_pooling,
        opts.enable_zero_propagation,
    ];
    let ghost all = options_words(*opts);
    let mut h: u64 = hash;
    let mut i: usize = 0;
    assert(all.skip(0) =~= all);
    assert(flags@.map_values(|flag: bool| flag_word(flag)) =~= all);
    while i < 7
        invariant
            i <= 7,
            all.len() == 7,
            all == flags@.map_values(|flag: bool| flag_word(flag)),
            fnv_words(hash, all) == fnv_words(h, all.skip(i as int)),
        decreases 7 - i,
    {
        proof {
            assert(all.skip(i as int) =~= seq![all[i as int]] + all.skip(i + 1));
            lemma_fnv_words_add(h, seq![all[i as int]], all.skip(i + 1));
        }
        h = fnv1a(h, if flags[i] { 1 } else { 0 });
        i += 1;
    }
    assert(all.skip(7) =~= Seq::<u64>::empty());
    h
}

/// Mixes the kinds of the wires of a graph into the state, after their number.
fn digest_kinds(hash: u64, kinds: &Vec<WireKind>) -> (h: u64)
    ensures
        h == fnv_words(hash, seq![kinds@.len() as u64] + kinds_words(kinds@)),
{
    let ghost words = seq![kinds@.len() as u64] + kinds_words(kinds@);
    proof {
        lemma_fnv_words_add(hash, seq![kinds@.len() as u64], kinds_words(kinds@));
    }
    let mut h: u64 = fnv1a(hash, kinds.len() as u64);
    let mut i: usize = 0;
    assert(kinds@.skip(0) =~= kinds@);
    while i < kinds.len()
        invariant
            i <= kinds@.len(),
            fnv_words(hash, words) == fnv_words(h, kinds_words(kinds@.skip(i as int))),
        decreases kinds@.len() - i,
    {
        proof {
            let left = kinds@.skip(i as int);
            assert(left.skip(1) =~= kinds@.skip(i + 1));
            lemma_fnv_words_add(h, kind_words(left[0]), kinds_words(left.skip(1)));
        }
        match kinds[i] {
            WireKind::Constant(word) => {
                h = digest_two(h, 1, word);
            },
            WireKind::Inout => {
                h = fnv1a(h, 2);
            },
            WireKind::Witness => {
                h = fnv1a(h, 3);
            },
            WireKind::Internal => {
                h = fnv1a(h, 4);
            },
            WireKind::Scratch => {
                h = fnv1a(h, 5);
            },
        }
        i += 1;
    }
    assert(kinds_words(kinds@.skip(i as int)) =~= Seq::<u64>::empty());
    h
}

/// Mixes a gate into the state.
fn digest_gate(hash: u64, gate: &Gate) -> (h: u64)
    ensures
        h == fnv_words(hash, gate_words(*gate)),
{
    broadcast use lemma_fnv_words_add;

    let mut h: u64 = digest_two(hash, gate.origin as u64, gate.assertion_name as u64);
    // Every field by name: one more field of a gate has to be added here.
    let GateData { body, wires, immediates, dimensions } = &gate.data;
    match body {
        GateBody::Op(opcode) => {
            h = digest_two(h, 1, opcode.code() as u64);
        },
        GateBody::Hint(hint_id) => {
            h = digest_two(h, 2, *hint_id as u64);
        },
    }
    h = digest_wires(h, wires);
    h = digest_immediates(h, immediates);
    digest_dimensions(h, dimensions)
}

/// Structural digest of the compilation inputs: every wire's kind, with constant values; every
/// gate's paths, body, wires, immediates and dimensions; the builder options; and the
/// force-committed set. Equal inputs have equal digests, in every process.
pub fn graph_digest(graph: &GateGraph, opts: &Options, force_committed: &WireSet) -> (digest: u64)
    ensures
        digest == state_digest(*graph, *opts, force_committed@),
{
    broadcast use lemma_fnv_words_add;

    let mut h: u64 = digest_options(OFFSET_BASIS, opts);
    let committed = force_committed.iter();
    h = digest_wires(h, &committed);
    h = digest_kinds(h, &graph.wires);
    let ghost before = h;
    let ghost words = seq![graph.gates@.len() as u64] + gates_words(graph.gates@);
    h = fnv1a(h, graph.gates.len() as u64);
    let mut i: usize = 0;
    assert(graph.gates@.skip(0) =~= graph.gates@);
    while i < graph.gates.len()
        invariant
            i <= graph.gates@.len(),
            fnv_words(before, words) == fnv_words(h, gates_words(graph.gates@.skip(i as int))),
        decreases graph.gates@.len() - i,
    {
        proof {
            let left = graph.gates@.skip(i as int);
            assert(left.skip(1) =~= graph.gates@.skip(i + 1));
            lemma_fnv_words_add(h, gate_words(left[0]), gates_words(left.skip(1)));
        }
        h = digest_gate(h, &graph.gates[i]);
        i += 1;
    }
    assert(gates_words(graph.gates@.skip(i as int)) =~= Seq::<u64>::empty());
    h
}

/// Mixing the same bytes into two states yields one state only where they are one.
pub proof fn lemma_fnv_bytes_state(a: u64, b: u64, bytes: Seq<u8>)
    requires
        fnv_bytes(a, bytes) == fnv_bytes(b, bytes),
    ensures
        a == b,
    decreases bytes.len(),
{
    if bytes.len() > 0 {
        let byte = bytes[0] as u64;
        lemma_fnv_bytes_state(mix(a, byte), mix(b, byte), bytes.skip(1));
        lemma_mix_state(a, b, byte);
    }
}

/// Byte strings of one length that differ in exactly one byte have different digests.
pub proof fn law_digest_detects_a_byte(h: u64, a: Seq<u8>, b: Seq<u8>, at: int)
    requires
        a.len() == b.len(),
        0 <= at < a.len(),
        a[at] != b[at],
        forall|i: int| 0 <= i < a.len() && i != at ==> #[trigger] a[i] == b[i],
    ensures
        fnv_bytes(h, a) != fnv_bytes(h, b),
    decreases a.len(),
{
    let c = a.skip(1);
    let d = b.skip(1);
    if at == 0 {
        assert(c =~= d) by {
            assert forall|i: int| 0 <= i < c.len() implies #[trigger] c[i] == d[i] by {
                assert(a[i + 1] == b[i + 1]);
            }
        }
        if fnv_bytes(h, a) == fnv_bytes(h, b) {
            lemma_fnv_bytes_state(mix(h, a[0] as u64), mix(h, b[0] as u64), c);
            lemma_mix_word(h, a[0] as u64, b[0] as u64);
        }
    } else {
        assert(a[0] == b[0]);
        assert forall|i: int| 0 <= i < c.len() && i != at - 1 implies #[trigger] c[i] == d[i] by {
            assert(a[i + 1] == b[i + 1]);
        }
        law_digest_detects_a_byte(mix(h, a[0] as u64), c, d, at - 1);
    }
}

/// The bytes of a word stand at eight times its place.
pub proof fn lemma_word_bytes_at(words: Seq<u64>, i: int, k: int)
    requires
        0 <= i < words.len(),
        0 <= k < 8,
    ensures
        word_bytes(words).len() == 8 * words.len(),
        word_bytes(words)[8 * i + k] == le_bytes(words[i] as nat, 8)[k],
    decreases words.len(),
{
    lemma_le_bytes_len(words[0] as nat, 8);
    if words.len() == 1 {
        assert(words.skip(1) =~= Seq::<u64>::empty());
        assert(word_bytes(words.skip(1)).len() == 0);
    } else if i == 0 {
        lemma_word_bytes_at(words.skip(1), 0, k);
    } else {
        lemma_word_bytes_at(words.skip(1), i - 1, k);
    }
}

/// Two states that differ in one option alone have different digests.
pub proof fn law_digest_detects_an_option(
    graph: GateGraph,
    a: Options,
    b: Options,
    force_committed: Set<usize>,
    at: int,
)
    requires
        0 <= at < 7,
        options_words(a)[at] != options_words(b)[at],
        forall|i: int|
            0 <= i < 7 && i != at ==> #[trigger] options_words(a)[i] == options_words(b)[i],
    ensures
        state_digest(graph, a, force_committed) != state_digest(graph, b, force_committed),
{
    let x = state_words(graph, a, force_committed);
    let y = state_words(graph, b, force_committed);
    let s = word_bytes(x);
    let t = word_bytes(y);
    assert forall|i: int| 0 <= i < x.len() && i != at implies #[trigger] x[i] == y[i] by {
        if i < 7 {
            assert(x[i] == options_words(a)[i] && y[i] == options_words(b)[i]);
        }
    }
    lemma_word_bytes_at(x, 0, 0);
    lemma_word_bytes_at(y, 0, 0);
    assert forall|j: int| 0 <= j < s.len() && j != 8 * at implies #[trigger] s[j] == t[j] by {
        let i = j / 8;
        let k = j % 8;
        lemma_word_bytes_at(x, i, k);
        lemma_word_bytes_at(y, i, k);
        if i == at {
            lemma_flag_bytes(x[at], k);
            lemma_flag_bytes(y[at], k);
            assert(x[at] == options_words(a)[at] && y[at] == options_words(b)[at]);
        }
    }
    lemma_word_bytes_at(x, at, 0);
    lemma_word_bytes_at(y, at, 0);
    assert(x[at] == options_words(a)[at] && y[at] == options_words(b)[at]);
    lemma_flag_bytes(x[at], 0);
    lemma_flag_bytes(y[at], 0);
    law_digest_detects_a_byte(OFFSET_BASIS, s, t, 8 * at);
}

/// A flag is the lowest byte of its word; the others are zero.
proof fn lemma_flag_bytes(word: u64, k: int)
    requires
        word == 0 || word == 1,
        0 <= k < 8,
    ensures
        le_bytes(word as nat, 8)[k] == if k == 0 {
            word as u8
        } else {
            0u8
        },
{
    reveal_with_fuel(le_bytes, 9);
}

} // verus!
