//! Force-committing a wire, where none was, changes the digest of every state.

use vstd::arithmetic::div_mod::lemma_mul_mod_noop_left;
use vstd::prelude::*;

use crate::compile_cache::checksum::{mix, OFFSET_BASIS, PRIME};
use crate::compile_cache::digest::{
    flag_word, fnv_bytes, fnv_words, gates_words, kinds_words, lemma_fnv_bytes_add,
    lemma_fnv_bytes_state, lemma_fnv_words_add, options_words, state_digest, wires_words,
    word_bytes, Options,
};
use crate::compile_cache::wire_set::{ascending_wires, lemma_lists_wires_unique, lists_wires};
use crate::ir::{GateGraph, Wire};
use crate::serialization::little_endian::le_bytes;

verus! {

/// The factor of three steps of mixing.
const PRIME_3: u64 = 0x08a9_7b00_04e7_feab;

/// The factor of eight steps of mixing.
const PRIME_8: u64 = 0x1efa_c709_0aef_4a21;

/// Two states that differ in their force-committed wires alone have one digest if and only if the
/// words of those wires make one state, mixed in behind the options. The graph has no part in that.
pub proof fn law_graph_has_no_part(
    graph: GateGraph,
    opts: Options,
    a: Set<usize>,
    b: Set<usize>,
)
    ensures
        state_digest(graph, opts, a) == state_digest(graph, opts, b) <==> fnv_words(
            fnv_words(OFFSET_BASIS, options_words(opts)),
            wires_words(ascending_wires(a)),
        ) == fnv_words(
            fnv_words(OFFSET_BASIS, options_words(opts)),
            wires_words(ascending_wires(b)),
        ),
{
    let h = fnv_words(OFFSET_BASIS, options_words(opts));
    let x = wires_words(ascending_wires(a));
    let y = wires_words(ascending_wires(b));
    let rest = (seq![graph.wires@.len() as u64] + kinds_words(graph.wires@)) + (seq![
        graph.gates@.len() as u64,
    ] + gates_words(graph.gates@));
    lemma_fnv_words_add(OFFSET_BASIS, options_words(opts), x + rest);
    lemma_fnv_words_add(OFFSET_BASIS, options_words(opts), y + rest);
    lemma_fnv_words_add(h, x, rest);
    lemma_fnv_words_add(h, y, rest);
    if state_digest(graph, opts, a) == state_digest(graph, opts, b) {
        lemma_fnv_bytes_state(fnv_words(h, x), fnv_words(h, y), word_bytes(rest));
    }
}

/// A state, times a factor.
spec fn scaled(x: u64, factor: u64) -> u64 {
    x.wrapping_mul(factor)
}

/// Two factors are one.
proof fn lemma_scaled(x: u64, a: u64, b: u64)
    ensures
        scaled(scaled(x, a), b) == scaled(x, scaled(a, b)),
{
    let m: int = 0x1_0000_0000_0000_0000;
    lemma_mul_mod_noop_left(x * a, b as int, m);
    lemma_mul_mod_noop_left(a * b, x as int, m);
    assert((x * a) * b == (a * b) * x) by (nonlinear_arith);
    assert(x * scaled(a, b) == scaled(a, b) * x) by (nonlinear_arith);
}

/// A byte, mixed in.
proof fn lemma_fnv_first(h: u64, byte: u8, rest: Seq<u8>)
    ensures
        fnv_bytes(h, seq![byte] + rest) == fnv_bytes(mix(h, byte as u64), rest),
{
    assert((seq![byte] + rest).skip(1) =~= rest);
}

/// Bytes that are all zero.
spec fn zeros(n: nat) -> Seq<u8> {
    Seq::new(n, |i: int| 0u8)
}

/// The factor of some steps of mixing.
spec fn power(n: nat) -> u64
    decreases n,
{
    if n == 0 {
        1
    } else {
        scaled(PRIME, power((n - 1) as nat))
    }
}

proof fn lemma_powers()
    ensures
        power(3) == PRIME_3,
        power(8) == PRIME_8,
{
    reveal_with_fuel(power, 9);
    assert(power(1) == PRIME);
    assert(power(2) == 0x0003_6600_0002_e329);
    assert(power(3) == PRIME_3);
    assert(power(4) == 0x9ffa_ac08_5635_bc91);
    assert(power(5) == 0x0cae_e32a_7d4f_6a63);
    assert(power(6) == 0xdc96_6432_edf1_c639);
    assert(power(7) == 0xc552_7b8a_51d3_d2db);
}

/// Mixing in a zero byte is one product.
proof fn lemma_mix_zero(h: u64)
    ensures
        mix(h, 0) == scaled(h, PRIME),
{
    assert(h ^ 0 == h) by (bit_vector);
}

/// Zero bytes, mixed in.
proof fn lemma_fnv_zeros(h: u64, n: nat)
    ensures
        fnv_bytes(h, zeros(n)) == scaled(h, power(n)),
    decreases n,
{
    if n > 0 {
        let left = zeros((n - 1) as nat);
        assert(zeros(n) =~= seq![0u8] + left);
        lemma_fnv_first(h, 0, left);
        lemma_mix_zero(h);
        lemma_fnv_zeros(scaled(h, PRIME), (n - 1) as nat);
        lemma_scaled(h, PRIME, power((n - 1) as nat));
    }
}

/// A word of one byte, mixed in.
proof fn lemma_fnv_small_word(h: u64, word: u64)
    requires
        word < 256,
    ensures
        fnv_words(h, seq![word]) == scaled(h ^ word, PRIME_8),
{
    lemma_word_bytes_one(word);
    reveal_with_fuel(le_bytes, 9);
    let bytes = le_bytes(word as nat, 8);
    assert(bytes =~= seq![word as u8] + zeros(7));
    lemma_fnv_first(h, word as u8, zeros(7));
    lemma_fnv_zeros(mix(h, word), 7);
    lemma_scaled(h ^ word, PRIME, power(7));
    lemma_powers();
}

proof fn lemma_word_bytes_one(word: u64)
    ensures
        word_bytes(seq![word]) == le_bytes(word as nat, 8),
{
    assert(seq![word].skip(1) =~= Seq::<u64>::empty());
    assert(word_bytes(Seq::<u64>::empty()) =~= Seq::<u8>::empty());
    assert(word_bytes(seq![word]) =~= le_bytes(word as nat, 8));
}

/// A byte of a number.
spec fn byte_of(x: u64, i: nat) -> u64
    decreases i,
{
    if i == 0 {
        x % 256
    } else {
        byte_of(x / 256, (i - 1) as nat)
    }
}

/// The state before the last byte of a word of four bytes is multiplied.
spec fn four_mixed(s: u64, word: u64) -> u64 {
    mix(mix(mix(s, byte_of(word, 0)), byte_of(word, 1)), byte_of(word, 2)) ^ byte_of(word, 3)
}

/// A word of four bytes, mixed in.
proof fn lemma_fnv_word(s: u64, word: u64)
    requires
        word <= u32::MAX,
    ensures
        fnv_words(s, seq![word]) == fnv_bytes(four_mixed(s, word), zeros(5)),
{
    reveal_with_fuel(le_bytes, 9);
    reveal_with_fuel(byte_of, 4);
    lemma_word_bytes_one(word);
    let (w0, w1, w2, w3) = (
        byte_of(word, 0),
        byte_of(word, 1),
        byte_of(word, 2),
        byte_of(word, 3),
    );
    let (b0, b1, b2, b3) = (w0 as u8, w1 as u8, w2 as u8, w3 as u8);
    let last = seq![b3] + zeros(4);
    assert(le_bytes(word as nat, 8) =~= seq![b0] + (seq![b1] + (seq![b2] + last)));
    lemma_fnv_first(s, b0, seq![b1] + (seq![b2] + last));
    lemma_fnv_first(mix(s, w0), b1, seq![b2] + last);
    lemma_fnv_first(mix(mix(s, w0), w1), b2, last);
    let x = mix(mix(mix(s, w0), w1), w2);
    lemma_fnv_first(x, b3, zeros(4));
    lemma_mix_zero(x ^ w3);
    assert(zeros(5) =~= seq![0u8] + zeros(4));
    lemma_fnv_first(x ^ w3, 0, zeros(4));
}

/// A product, cut to a word.
proof fn lemma_cut(x: u64)
    ensures
        scaled(x, PRIME) == (x * PRIME) as u64,
        scaled(x, PRIME_3) == (x * PRIME_3) as u64,
        scaled(x, PRIME_8) == (x * PRIME_8) as u64,
{
    assert((x * PRIME) as u64 == (x * PRIME) % 0x1_0000_0000_0000_0000) by (bit_vector);
    assert((x * PRIME_3) as u64 == (x * PRIME_3) % 0x1_0000_0000_0000_0000) by (bit_vector);
    assert((x * PRIME_8) as u64 == (x * PRIME_8) % 0x1_0000_0000_0000_0000) by (bit_vector);
}

/// Behind the options, whichever they are, no single wire makes the state that none makes.
#[verifier::rlimit(100)]
proof fn lemma_no_collision(
    f0: u64,
    f1: u64,
    f2: u64,
    f3: u64,
    f4: u64,
    f5: u64,
    f6: u64,
    h0: u64,
    h1: u64,
    h2: u64,
    h3: u64,
    h4: u64,
    h5: u64,
    h6: u64,
    s: u64,
    w0: u64,
    w1: u64,
    w2: u64,
    w3: u64,
    a0: u64,
    a1: u64,
    a2: u64,
    a3: u64,
)
    by (bit_vector)
    requires
        f0 < 2,
        f1 < 2,
        f2 < 2,
        f3 < 2,
        f4 < 2,
        f5 < 2,
        f6 < 2,
        w0 < 256,
        w1 < 256,
        w2 < 256,
        w3 < 256,
        h0 == ((OFFSET_BASIS ^ f0) * PRIME_8) as u64,
        h1 == ((h0 ^ f1) * PRIME_8) as u64,
        h2 == ((h1 ^ f2) * PRIME_8) as u64,
        h3 == ((h2 ^ f3) * PRIME_8) as u64,
        h4 == ((h3 ^ f4) * PRIME_8) as u64,
        h5 == ((h4 ^ f5) * PRIME_8) as u64,
        h6 == ((h5 ^ f6) * PRIME_8) as u64,
        s == ((h6 ^ 1) * PRIME_8) as u64,
        a0 == s ^ w0,
        a1 == (a0 * PRIME) as u64 ^ w1,
        a2 == (a1 * PRIME) as u64 ^ w2,
        a3 == (a2 * PRIME) as u64 ^ w3,
    ensures
        a3 != (h6 * PRIME_3) as u64,
{
}

/// The wires of a set of none or one.
proof fn lemma_small_sets(index: usize)
    ensures
        wires_words(ascending_wires(Set::<usize>::empty())) == seq![0u64],
        wires_words(ascending_wires(set![index])) == seq![1u64, index as u64],
{
    let none = Seq::<Wire>::empty();
    let one = seq![Wire { index }];
    assert(lists_wires(Set::<usize>::empty(), none));
    lemma_lists_wires_unique(
        Set::<usize>::empty(),
        none,
        ascending_wires(Set::<usize>::empty()),
    );
    assert(lists_wires(set![index], one)) by {
        assert forall|i: usize| #[trigger] set![index].contains(i) implies exists|k: int|
            0 <= k < one.len() && (#[trigger] one[k]).index == i by {
            assert(one[0].index == i);
        }
    }
    lemma_lists_wires_unique(set![index], one, ascending_wires(set![index]));
    assert(wires_words(none) =~= seq![0u64]);
    assert(wires_words(one) =~= seq![1u64, index as u64]);
}

/// The state behind the options, flag by flag.
proof fn lemma_options_state(opts: Options) -> (h: Seq<u64>)
    ensures
        h.len() == 7,
        h[0] == scaled(OFFSET_BASIS ^ flag_word(opts.enable_gate_fusion), PRIME_8),
        h[1] == scaled(h[0] ^ flag_word(opts.enable_constant_propagation), PRIME_8),
        h[2] == scaled(h[1] ^ flag_word(opts.enable_common_subexpression_elimination), PRIME_8),
        h[3] == scaled(h[2] ^ flag_word(opts.enable_dead_code_elimination), PRIME_8),
        h[4] == scaled(h[3] ^ flag_word(opts.enable_algebraic_folding), PRIME_8),
        h[5] == scaled(h[4] ^ flag_word(opts.enable_scratch_pooling), PRIME_8),
        h[6] == scaled(h[5] ^ flag_word(opts.enable_zero_propagation), PRIME_8),
        fnv_words(OFFSET_BASIS, options_words(opts)) == h[6],
{
    let all = options_words(opts);
    let h = Seq::new(7, |i: int| fnv_words(OFFSET_BASIS, all.take(i + 1)));
    assert forall|i: int| 0 <= i < 7 implies #[trigger] h[i] == scaled(
        (if i == 0 {
            OFFSET_BASIS
        } else {
            h[i - 1]
        }) ^ all[i],
        PRIME_8,
    ) by {
        assert(all.take(i + 1) =~= all.take(i) + seq![all[i]]);
        lemma_fnv_words_add(OFFSET_BASIS, all.take(i), seq![all[i]]);
        if i == 0 {
            assert(all.take(0) =~= Seq::<u64>::empty());
            assert(word_bytes(all.take(0)) =~= Seq::<u8>::empty());
        }
        lemma_fnv_small_word(fnv_words(OFFSET_BASIS, all.take(i)), all[i]);
    }
    assert(all.take(7) =~= all);
    assert(h[0] == h[0] && h[1] == h[1] && h[2] == h[2] && h[3] == h[3]);
    assert(h[4] == h[4] && h[5] == h[5] && h[6] == h[6]);
    h
}

/// Force-committing a wire, where none was, changes the digest: of every graph, under all options,
/// for every wire with an index of four bytes.
pub proof fn law_force_commit_is_detected(graph: GateGraph, opts: Options, index: usize)
    requires
        index <= u32::MAX,
    ensures
        state_digest(graph, opts, Set::empty()) != state_digest(graph, opts, set![index]),
{
    let h = lemma_options_state(opts);
    let w = index as u64;
    law_graph_has_no_part(graph, opts, Set::empty(), set![index]);
    lemma_small_sets(index);
    let s = scaled(h[6] ^ 1, PRIME_8);
    let a0 = s ^ byte_of(w, 0);
    let a1 = scaled(a0, PRIME) ^ byte_of(w, 1);
    let a2 = scaled(a1, PRIME) ^ byte_of(w, 2);
    let a3 = scaled(a2, PRIME) ^ byte_of(w, 3);
    assert(seq![1u64, w] =~= seq![1u64] + seq![w]);
    lemma_fnv_words_add(h[6], seq![1u64], seq![w]);
    lemma_fnv_small_word(h[6], 1);
    lemma_fnv_word(s, w);
    assert(four_mixed(s, w) == a3);
    lemma_word_bytes_one(0);
    assert(le_bytes(0, 8) =~= zeros(3) + zeros(5)) by {
        reveal_with_fuel(le_bytes, 9);
    }
    lemma_fnv_bytes_add(h[6], zeros(3), zeros(5));
    lemma_fnv_zeros(h[6], 3);
    lemma_powers();
    if fnv_words(h[6], seq![0u64]) == fnv_words(h[6], seq![1u64, w]) {
        lemma_fnv_bytes_state(scaled(h[6], PRIME_3), a3, zeros(5));
    }
    let (f0, f1, f2, f3, f4, f5, f6) = (
        flag_word(opts.enable_gate_fusion),
        flag_word(opts.enable_constant_propagation),
        flag_word(opts.enable_common_subexpression_elimination),
        flag_word(opts.enable_dead_code_elimination),
        flag_word(opts.enable_algebraic_folding),
        flag_word(opts.enable_scratch_pooling),
        flag_word(opts.enable_zero_propagation),
    );
    let (w0, w1, w2, w3) = (byte_of(w, 0), byte_of(w, 1), byte_of(w, 2), byte_of(w, 3));
    reveal_with_fuel(byte_of, 4);
    lemma_cut(OFFSET_BASIS ^ f0);
    lemma_cut(h[0] ^ f1);
    lemma_cut(h[1] ^ f2);
    lemma_cut(h[2] ^ f3);
    lemma_cut(h[3] ^ f4);
    lemma_cut(h[4] ^ f5);
    lemma_cut(h[5] ^ f6);
    lemma_cut(h[6] ^ 1);
    lemma_cut(h[6]);
    lemma_cut(a0);
    lemma_cut(a1);
    lemma_cut(a2);
    lemma_no_collision(
        f0,
        f1,
        f2,
        f3,
        f4,
        f5,
        f6,
        h[0],
        h[1],
        h[2],
        h[3],
        h[4],
        h[5],
        h[6],
        s,
        w0,
        w1,
        w2,
        w3,
        a0,
        a1,
        a2,
        a3,
    );
}

} // verus!
