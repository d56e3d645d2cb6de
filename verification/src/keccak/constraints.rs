//! The parts of the Keccak-256 circuit: its sponge, the place where the message ends, and what is
//! asserted of the padded message.

use vstd::prelude::*;

use crate::circuit::builder::{
    lemma_adds, lemma_only_computes, lemma_truth_and, CircuitBuilder,
};
use crate::circuit::multiplexer::single_wire_multiplex;
use crate::circuit::semantics::{truth, val, vals, MSB_ONE};
use crate::ir::{Wire, WireKind};
use crate::keccak::function::keccak_f;
use crate::keccak::permutation::Permutation;
use crate::keccak::sponge::{
    boundary_word, delimited, message_kept, sponge, with_block, zero_filled, N_WORDS_PER_BLOCK,
    N_WORDS_PER_DIGEST, RATE_BYTES,
};

verus! {

/// Adds a block of words to a state and permutes it.
fn absorb_block(b: &mut CircuitBuilder, state_in: &Vec<Wire>, words: &Vec<Wire>, at: usize) -> (
    state: Vec<Wire>)
    requires
        old(b).wf(),
        old(b).has_all(state_in@),
        old(b).has_all(words@),
        state_in@.len() == 25,
        at + 17 <= words@.len(),
    ensures
        final(b).extends(*old(b)),
        final(b).has_all(state@),
        state@.len() == 25,
        forall|w: Seq<u64>| #[trigger]
            final(b).computed(w) ==> vals(w, state@) == keccak_f(
                with_block(vals(w, state_in@), vals(w, words@), at as int),
            ),
        final(b).only_computes(*old(b)),
{
    let n_words: usize = words.len();
    let mut state: Vec<Wire> = Vec::new();
    let mut i: usize = 0;
    while i < 25
        invariant
            n_words == words@.len(),
            b.extends(*old(b)),
            old(b).has_all(state_in@),
            old(b).has_all(words@),
            state_in@.len() == 25,
            at + 17 <= words@.len(),
            i == state@.len() <= 25,
            b.has_all(state@),
            forall|w: Seq<u64>, j: int|
                #![trigger b.computed(w), state@[j]]
                b.computed(w) && 0 <= j < i ==> val(w, state@[j]) == with_block(
                    vals(w, state_in@),
                    vals(w, words@),
                    at as int,
                )[j],
            b.only_computes(*old(b)),
        decreases 25 - i,
    {
        let ghost before = *b;
        let ghost so_far = state@;
        assert(old(b).has(state_in@[i as int]));
        if i < N_WORDS_PER_BLOCK {
            assert(old(b).has(words@[at + i]));
            let lane = b.bxor(state_in[i], words[at + i]);
            state.push(lane);
        } else {
            state.push(state_in[i]);
        }
        proof {
            assert forall|w: Seq<u64>, j: int|
                #![trigger b.computed(w), state@[j]]
                b.computed(w) && 0 <= j < i + 1 implies val(w, state@[j]) == with_block(
                vals(w, state_in@),
                vals(w, words@),
                at as int,
            )[j] by {
                assert(before.computed(w));
                if j < i {
                    assert(state@[j] == so_far[j]);
                }
            }
        }
        i += 1;
    }
    let ghost before = *b;
    let ghost mixed = state@;
    Permutation::keccak_f1600(b, &mut state);
    proof {
        assert forall|w: Seq<u64>| #[trigger] b.computed(w) implies vals(w, state@)
            == keccak_f(
            with_block(vals(w, state_in@), vals(w, words@), at as int),
        ) by {
            assert(before.computed(w));
            let expected = with_block(vals(w, state_in@), vals(w, words@), at as int);
            assert forall|j: int| 0 <= j < 25 implies vals(w, mixed)[j] == expected[j] by {
                assert(val(w, mixed[j]) == expected[j]);
            }
            assert(vals(w, mixed) =~= expected);
        }
    }
    state
}

/// The states after each block of words.
pub(crate) fn absorb(b: &mut CircuitBuilder, words: &Vec<Wire>, n_blocks: usize) -> (states: Vec<
    Vec<Wire>,
>)
    requires
        old(b).wf(),
        old(b).has_all(words@),
        words@.len() == 17 * n_blocks,
    ensures
        final(b).extends(*old(b)),
        states@.len() == n_blocks,
        forall|k: int|
            0 <= k < n_blocks ==> (#[trigger] states@[k])@.len() == 25 && final(b).has_all(
                states@[k]@,
            ),
        forall|w: Seq<u64>, k: int|
            #![trigger final(b).computed(w), states@[k]]
            final(b).computed(w) && 0 <= k < n_blocks ==> vals(w, states@[k]@) == sponge(
                vals(w, words@),
                k + 1,
            ),
        final(b).only_computes(*old(b)),
{
    let n_words: usize = words.len();
    let zero = b.add_constant(0);
    let mut state: Vec<Wire> = Vec::new();
    let mut i: usize = 0;
    while i < 25
        invariant
            i == state@.len() <= 25,
            forall|j: int| 0 <= j < i ==> #[trigger] state@[j] == zero,
        decreases 25 - i,
    {
        state.push(zero);
        i += 1;
    }
    proof {
        assert forall|w: Seq<u64>| #[trigger] b.computed(w) implies vals(w, state@) == sponge(
            vals(w, words@),
            0,
        ) by {
            assert(vals(w, state@) =~= sponge(vals(w, words@), 0));
        }
    }
    let mut states: Vec<Vec<Wire>> = Vec::new();
    let mut k: usize = 0;
    while k < n_blocks
        invariant
            k == states@.len() <= n_blocks,
            n_words == words@.len() == 17 * n_blocks,
            b.extends(*old(b)),
            old(b).has_all(words@),
            state@.len() == 25,
            b.has_all(state@),
            forall|j: int|
                0 <= j < k ==> (#[trigger] states@[j])@.len() == 25 && b.has_all(states@[j]@),
            forall|w: Seq<u64>| #[trigger]
                b.computed(w) ==> vals(w, state@) == sponge(vals(w, words@), k as int),
            forall|w: Seq<u64>, j: int|
                #![trigger b.computed(w), states@[j]]
                b.computed(w) && 0 <= j < k ==> vals(w, states@[j]@) == sponge(
                    vals(w, words@),
                    j + 1,
                ),
            b.only_computes(*old(b)),
        decreases n_blocks - k,
    {
        let ghost before = *b;
        let ghost so_far = states@;
        let next = absorb_block(b, &state, words, k * N_WORDS_PER_BLOCK);
        state = copy_wires(&next);
        states.push(next);
        proof {
            assert forall|w: Seq<u64>| #[trigger] b.computed(w) implies vals(w, state@) == sponge(
                vals(w, words@),
                k + 1,
            ) by {
                assert(before.computed(w));
            }
            assert forall|w: Seq<u64>, j: int|
                #![trigger b.computed(w), states@[j]]
                b.computed(w) && 0 <= j < k + 1 implies vals(w, states@[j]@) == sponge(
                vals(w, words@),
                j + 1,
            ) by {
                assert(before.computed(w));
                if j < k {
                    assert(states@[j] == so_far[j]);
                } else {
                    assert(vals(w, state@) == sponge(vals(w, words@), k + 1));
                }
            }
            assert forall|j: int| 0 <= j < k + 1 implies (#[trigger] states@[j])@.len() == 25
                && b.has_all(states@[j]@) by {
                if j < k {
                    assert(states@[j] == so_far[j]);
                    assert(before.has_all(so_far[j]@));
                    assert forall|l: int| 0 <= l < states@[j]@.len() implies b.has(
                        #[trigger] states@[j]@[l],
                    ) by {
                        assert(before.has(so_far[j]@[l]));
                    }
                }
            }
        }
        k += 1;
    }
    states
}

/// The same wires again.
fn copy_wires(wires: &Vec<Wire>) -> (copy: Vec<Wire>)
    ensures
        copy@ == wires@,
{
    let mut copy: Vec<Wire> = Vec::with_capacity(wires.len());
    let mut i: usize = 0;
    while i < wires.len()
        invariant
            i == copy@.len() <= wires@.len(),
            forall|j: int| 0 <= j < i ==> #[trigger] copy@[j] == wires@[j],
        decreases wires@.len() - i,
    {
        copy.push(wires[i]);
        i += 1;
    }
    assert(copy@ =~= wires@);
    copy
}

/// Whether a length ends in a block, and whether it ends before the last word of the block.
fn block_flags(b: &mut CircuitBuilder, len_bytes: Wire, block_no: usize) -> (flags: (Wire, Wire))
    requires
        old(b).wf(),
        old(b).has(len_bytes),
        136 * (block_no + 1) <= usize::MAX,
    ensures
        final(b).extends(*old(b)),
        final(b).has(flags.0),
        final(b).has(flags.1),
        forall|w: Seq<u64>| #[trigger]
            final(b).computed(w) ==> truth(val(w, flags.0)) == (136 * block_no <= val(w, len_bytes)
                < 136 * (block_no + 1)),
        forall|w: Seq<u64>| #[trigger]
            final(b).computed(w) ==> truth(val(w, flags.1)) == (val(w, len_bytes) < 136 * (block_no
                + 1) - 8),
        final(b).only_computes(*old(b)),
{
    let start = b.add_constant((block_no * RATE_BYTES) as u64);
    let ghost b1 = *b;
    let end = b.add_constant(((block_no + 1) * RATE_BYTES) as u64);
    let ghost b2 = *b;
    let last_word_start = b.add_constant(((block_no + 1) * RATE_BYTES - 8) as u64);
    let ghost b3 = *b;
    let gte_start = b.ule(start, len_bytes);
    let ghost b4 = *b;
    let lt_end = b.ult(len_bytes, end);
    let ghost b5 = *b;
    let lt_last_word = b.ult(len_bytes, last_word_start);
    let ghost b6 = *b;
    let is_final_block = b.band(gte_start, lt_end);
    proof {
        assert forall|w: Seq<u64>| #[trigger] b.computed(w) implies truth(val(w, is_final_block))
            == (136 * block_no <= val(w, len_bytes) < 136 * (block_no + 1)) && truth(
            val(w, lt_last_word),
        ) == (val(w, len_bytes) < 136 * (block_no + 1) - 8) by {
            assert(b6.computed(w) && b5.computed(w) && b4.computed(w));
            assert(b3.computed(w) && b2.computed(w) && b1.computed(w));
            lemma_truth_and(val(w, gte_start), val(w, lt_end));
        }
    }
    (is_final_block, lt_last_word)
}

/// What the two wires of the end of a message say of a length, once the first `k` blocks have been
/// looked at.
pub open spec fn end_found(len: u64, end_block: u64, is_not_last_column: u64, k: int) -> bool {
    if len < 136 * k {
        end_block == len as int / 136 && truth(is_not_last_column) == ((len as int / 8) % 17 != 16)
    } else {
        end_block == 0 && !truth(is_not_last_column)
    }
}

/// The block in which a length ends, and whether it ends before the last word of that block.
pub(crate) fn locate_end(b: &mut CircuitBuilder, len_bytes: Wire, n_blocks: usize) -> (end: (Wire, Wire))
    requires
        old(b).wf(),
        old(b).has(len_bytes),
        136 * n_blocks <= usize::MAX,
    ensures
        final(b).extends(*old(b)),
        final(b).has(end.0),
        final(b).has(end.1),
        forall|w: Seq<u64>| #[trigger]
            final(b).computed(w) ==> end_found(
                val(w, len_bytes),
                val(w, end.0),
                val(w, end.1),
                n_blocks as int,
            ),
        final(b).only_computes(*old(b)),
{
    let mut end_block_index = b.add_constant(0);
    let ghost first = *b;
    let mut is_not_last_column = b.add_constant(0);
    let mut block_no: usize = 0;
    proof {
        assert forall|w: Seq<u64>| #[trigger] b.computed(w) implies end_found(
            val(w, len_bytes),
            val(w, end_block_index),
            val(w, is_not_last_column),
            0,
        ) by {
            assert(first.computed(w));
        }
    }
    while block_no < n_blocks
        invariant
            block_no <= n_blocks,
            136 * n_blocks <= usize::MAX,
            old(b).has(len_bytes),
            b.extends(*old(b)),
            b.has(end_block_index),
            b.has(is_not_last_column),
            forall|w: Seq<u64>| #[trigger]
                b.computed(w) ==> end_found(
                    val(w, len_bytes),
                    val(w, end_block_index),
                    val(w, is_not_last_column),
                    block_no as int,
                ),
            b.only_computes(*old(b)),
        decreases n_blocks - block_no,
    {
        let ghost before = *b;
        let flags = block_flags(b, len_bytes, block_no);
        let ghost b1 = *b;
        let number = b.add_constant(block_no as u64);
        let ghost b2 = *b;
        let next_end = b.select(flags.0, number, end_block_index);
        let ghost b3 = *b;
        let next_column = b.select(flags.0, flags.1, is_not_last_column);
        proof {
            assert forall|w: Seq<u64>| #[trigger] b.computed(w) implies end_found(
                val(w, len_bytes),
                val(w, next_end),
                val(w, next_column),
                block_no + 1,
            ) by {
                assert(b3.computed(w) && b2.computed(w) && b1.computed(w) && before.computed(w));
                assert(end_found(
                    val(w, len_bytes),
                    val(w, end_block_index),
                    val(w, is_not_last_column),
                    block_no as int,
                ));
            }
        }
        end_block_index = next_end;
        is_not_last_column = next_column;
        block_no += 1;
    }
    (end_block_index, is_not_last_column)
}

/// A word with its first `i` bytes alone, and a one behind them.
pub open spec fn candidate(word: u64, i: u64) -> u64 {
    (word & (0x00FF_FFFF_FFFF_FFFFu64 >> ((7 - i) as u64 * 8))) ^ (1u64 << (i * 8))
}

/// The forms that the word can have in which the message ends, by how many of its bytes belong to
/// the message.
fn add_candidates(b: &mut CircuitBuilder, word: Wire) -> (candidates: Vec<Wire>)
    requires
        old(b).wf(),
        old(b).has(word),
    ensures
        final(b).extends(*old(b)),
        final(b).has_all(candidates@),
        candidates@.len() == 8,
        forall|w: Seq<u64>, i: int|
            #![trigger final(b).computed(w), candidates@[i]]
            final(b).computed(w) && 0 <= i < 8 ==> val(w, candidates@[i]) == candidate(
                val(w, word),
                i as u64,
            ),
        final(b).only_computes(*old(b)),
{
    let mut candidates: Vec<Wire> = Vec::new();
    let mut i: usize = 0;
    while i < 8
        invariant
            i == candidates@.len() <= 8,
            old(b).has(word),
            b.extends(*old(b)),
            b.has_all(candidates@),
            forall|w: Seq<u64>, j: int|
                #![trigger b.computed(w), candidates@[j]]
                b.computed(w) && 0 <= j < i ==> val(w, candidates@[j]) == candidate(
                    val(w, word),
                    j as u64,
                ),
            b.only_computes(*old(b)),
        decreases 8 - i,
    {
        let ghost before = *b;
        let ghost so_far = candidates@;
        let bytes: u64 = i as u64;
        let mask = b.add_constant(0x00FF_FFFF_FFFF_FFFFu64 >> ((7 - bytes) * 8));
        let ghost b1 = *b;
        let padding_byte = b.add_constant(1u64 << (bytes * 8));
        let ghost b2 = *b;
        let message_low = b.band(word, mask);
        let ghost b3 = *b;
        let formed = b.bxor(message_low, padding_byte);
        candidates.push(formed);
        proof {
            assert forall|w: Seq<u64>, j: int|
                #![trigger b.computed(w), candidates@[j]]
                b.computed(w) && 0 <= j < i + 1 implies val(w, candidates@[j]) == candidate(
                val(w, word),
                j as u64,
            ) by {
                assert(b3.computed(w) && b2.computed(w) && b1.computed(w) && before.computed(w));
                if j < i {
                    assert(candidates@[j] == so_far[j]);
                }
            }
        }
        i += 1;
    }
    candidates
}

/// Shifts and masks of a length are its quotient and remainder.
pub proof fn lemma_word_place(len: u64)
    ensures
        len >> 3u32 == len / 8,
        len & 7 == len % 8,
{
    assert(len >> 3u32 == len / 8) by (bit_vector);
    assert(len & 7 == len % 8) by (bit_vector);
}

/// Where no byte of a word belongs to the message, the word does not matter.
proof fn lemma_empty_candidate(word: u64)
    ensures
        candidate(word, 0) == 0u64 ^ (1u64 << 0u64),
{
    assert(word & (0x00FF_FFFF_FFFF_FFFFu64 >> 56u64) == 0) by (bit_vector);
}

/// Asserts that the padded word in which the message ends is what the padding makes of it.
pub(crate) fn constrain_boundary(
    b: &mut CircuitBuilder,
    len_bytes: Wire,
    word_boundary: Wire,
    is_not_last_column: Wire,
    message: &Vec<Wire>,
    padded: &Vec<Wire>,
)
    requires
        old(b).wf(),
        old(b).has(len_bytes),
        old(b).has(word_boundary),
        old(b).has(is_not_last_column),
        old(b).has_all(message@),
        old(b).has_all(padded@),
        message@.len() > 0,
        padded@.len() > 0,
    ensures
        final(b).extends(*old(b)),
        forall|path: Seq<char>, w: Seq<u64>|
            path != "expected partial"@ ==> #[trigger] final(b).adds_under(*old(b), path, w),
        forall|w: Seq<u64>| #[trigger]
            final(b).computed(w) && val(w, len_bytes) <= 8 * message@.len() && val(w, len_bytes) / 8
                < padded@.len() && val(w, word_boundary) == val(w, len_bytes) / 8 && truth(
                val(w, is_not_last_column),
            ) == ((val(w, len_bytes) as int / 8) % 17 != 16) ==> (final(b).adds_under(
                *old(b),
                "expected partial"@,
                w,
            ) <==> vals(w, padded@)[val(w, len_bytes) as int / 8] == boundary_word(
                vals(w, message@),
                val(w, len_bytes),
            )),
{
    let word = single_wire_multiplex(b, message.as_slice(), word_boundary);
    let ghost b1 = *b;
    let padded_word = single_wire_multiplex(b, padded.as_slice(), word_boundary);
    let ghost b2 = *b;
    let candidates = add_candidates(b, word);
    let ghost b3 = *b;
    let zero = b.add_constant(0);
    let ghost b4 = *b;
    let msb_one = b.add_constant(MSB_ONE);
    let ghost b5 = *b;
    let seven = b.add_constant(7);
    let ghost b6 = *b;
    let len_bytes_mod_8 = b.band(len_bytes, seven);
    let ghost b7 = *b;
    let expected_partial = single_wire_multiplex(b, candidates.as_slice(), len_bytes_mod_8);
    let ghost b8 = *b;
    let end = b.select(is_not_last_column, zero, msb_one);
    let ghost b9 = *b;
    let with_possible_end = b.bxor(expected_partial, end);
    let ghost b10 = *b;
    b.assert_eq("expected partial", with_possible_end, padded_word);
    proof {
        assert forall|path: Seq<char>, w: Seq<u64>| #[trigger]
            b.adds_under(*old(b), path, w) <==> (path == "expected partial"@ ==> val(
            w,
            with_possible_end,
        ) == val(w, padded_word)) by {
            lemma_adds(*b, b10, *old(b), path, w);
            lemma_only_computes(b10, *old(b), path, w);
        }
        assert forall|w: Seq<u64>| #[trigger]
            b.computed(w) && val(w, len_bytes) <= 8 * message@.len() && val(w, len_bytes) / 8
                < padded@.len() && val(w, word_boundary) == val(w, len_bytes) / 8 && truth(
                val(w, is_not_last_column),
            ) == ((val(w, len_bytes) as int / 8) % 17 != 16) implies (b.adds_under(
            *old(b),
            "expected partial"@,
            w,
        ) <==> vals(w, padded@)[val(w, len_bytes) as int / 8] == boundary_word(
            vals(w, message@),
            val(w, len_bytes),
        )) by {
            assert(b10.computed(w) && b9.computed(w) && b8.computed(w) && b7.computed(w));
            assert(b6.computed(w) && b5.computed(w) && b4.computed(w) && b3.computed(w));
            assert(b2.computed(w) && b1.computed(w));
            let len = val(w, len_bytes);
            let at = len as int / 8;
            let r = len % 8;
            lemma_word_place(len);
            assert(val(w, len_bytes_mod_8) == r);
            assert(val(w, candidates@[r as int]) == candidate(val(w, word), r));
            assert(val(w, expected_partial) == candidate(val(w, word), r));
            assert(val(w, padded_word) == vals(w, padded@)[at]);
            if at < message@.len() {
                assert(val(w, word) == vals(w, message@)[at]);
            } else {
                assert(r == 0);
                lemma_empty_candidate(val(w, word));
            }
            assert(val(w, with_possible_end) == boundary_word(vals(w, message@), len));
        }
    }
}

/// What is asserted under a path of one padded word, besides of that in which the message ends:
/// before it, to be the message's; behind it, to be zero, but for the last word of the block.
pub open spec fn word_holds(
    path: Seq<char>,
    i: int,
    len: u64,
    message: Seq<u64>,
    padded: Seq<u64>,
) -> bool {
    let at = len as int / 8;
    &&& path == "full"@ ==> (i < message.len() && i < at ==> padded[i] == message[i])
    &&& path == "delim"@ ==> (i % 17 == 16 && i / 17 == len as int / 136 && at % 17 != 16
        ==> padded[i] == MSB_ONE)
    &&& path == "after-message padding"@ ==> (i % 17 != 16 && at < i ==> padded[i] == 0)
}

/// Whether what is asserted under a path of the words from one place to another holds.
pub open spec fn words_hold(
    path: Seq<char>,
    first: int,
    last: int,
    len: u64,
    message: Seq<u64>,
    padded: Seq<u64>,
) -> bool {
    forall|i: int| first <= i < last ==> #[trigger] word_holds(path, i, len, message, padded)
}

/// Whether a path is one under which something is asserted of a single padded word.
pub open spec fn is_word_path(path: Seq<char>) -> bool {
    path == "full"@ || path == "delim"@ || path == "after-message padding"@
}

/// The wires of the end of a message.
pub struct EndWires {
    pub len_bytes: Wire,
    /// The word in which the message ends.
    pub word_boundary: Wire,
    /// The block in which it ends.
    pub end_block_index: Wire,
    /// Whether that word is not the last of its block.
    pub is_not_last_column: Wire,
}

impl EndWires {
    /// Whether the wires say where the message ends.
    pub open spec fn tell(&self, w: Seq<u64>) -> bool {
        let len = val(w, self.len_bytes) as int;
        &&& val(w, self.word_boundary) == len / 8
        &&& val(w, self.end_block_index) == len / 136
        &&& truth(val(w, self.is_not_last_column)) == ((len / 8) % 17 != 16)
    }

    /// Whether these are wires of a circuit.
    pub open spec fn of(&self, b: CircuitBuilder) -> bool {
        &&& b.has(self.len_bytes)
        &&& b.has(self.word_boundary)
        &&& b.has(self.end_block_index)
        &&& b.has(self.is_not_last_column)
    }
}

/// Asserts that one padded word is what the padding asks.
fn constrain_word(
    b: &mut CircuitBuilder,
    end: &EndWires,
    is_end_block: Wire,
    message: &Vec<Wire>,
    padded: &Vec<Wire>,
    word_index: usize,
)
    requires
        old(b).wf(),
        end.of(*old(b)),
        old(b).has(is_end_block),
        old(b).has_all(message@),
        old(b).has_all(padded@),
        word_index < padded@.len(),
    ensures
        final(b).extends(*old(b)),
        forall|path: Seq<char>, w: Seq<u64>|
            !is_word_path(path) ==> #[trigger] final(b).adds_under(*old(b), path, w),
        forall|path: Seq<char>, w: Seq<u64>|
            #![trigger final(b).adds_under(*old(b), path, w)]
            final(b).computed(w) && end.tell(w) && truth(val(w, is_end_block)) == (word_index as int
                / 17 == val(w, end.len_bytes) as int / 136) ==> (final(b).adds_under(
                *old(b),
                path,
                w,
            ) <==> word_holds(
                path,
                word_index as int,
                val(w, end.len_bytes),
                vals(w, message@),
                vals(w, padded@),
            )),
{
    let padded_word = padded[word_index];
    assert(b.has(padded@[word_index as int]));
    let word_idx_wire = b.add_constant(word_index as u64);
    let ghost b1 = *b;
    if word_index < message.len() {
        let message_word = message[word_index];
        assert(old(b).has(message@[word_index as int]));
        let is_before_end = b.ult(word_idx_wire, end.word_boundary);
        let ghost b2 = *b;
        b.assert_eq_cond("full", padded_word, message_word, is_before_end);
        proof {
            assert forall|path: Seq<char>, w: Seq<u64>| #[trigger]
                b.adds_under(*old(b), path, w) <==> (path == "full"@ ==> (truth(
                val(w, is_before_end),
            ) ==> val(w, padded_word) == val(w, message_word))) by {
                lemma_adds(*b, b2, *old(b), path, w);
                lemma_only_computes(b2, *old(b), path, w);
            }
            assert forall|w: Seq<u64>| #[trigger] b.computed(w) && end.tell(w) implies truth(
                val(w, is_before_end),
            ) == (word_index < val(w, end.len_bytes) as int / 8) by {
                assert(b2.computed(w) && b1.computed(w));
            }
        }
    } else {
        proof {
            assert forall|path: Seq<char>, w: Seq<u64>| #[trigger]
                b.adds_under(*old(b), path, w) by {
                lemma_only_computes(*b, *old(b), path, w);
            }
        }
    }
    let ghost full = *b;
    proof {
        assert forall|path: Seq<char>, w: Seq<u64>|
            #![trigger full.adds_under(*old(b), path, w)]
            full.computed(w) && end.tell(w) implies (full.adds_under(*old(b), path, w) <==> (path
            == "full"@ ==> (word_index < message@.len() && word_index < val(w, end.len_bytes) as int
            / 8 ==> vals(w, padded@)[word_index as int] == vals(w, message@)[word_index as int]))) by {}
        assert forall|path: Seq<char>, w: Seq<u64>| path != "full"@ implies #[trigger]
            full.adds_under(*old(b), path, w) by {}
    }
    let is_past_message = b.ugt(word_idx_wire, end.word_boundary);
    let ghost b3 = *b;
    if word_index % N_WORDS_PER_BLOCK == 16 {
        // The last word of a block. Where it is that in which the message ends, it is looked at
        // elsewhere; behind the end block, it has no part in the digest.
        let msb_one = b.add_constant(MSB_ONE);
        let ghost b4 = *b;
        let must_check_delimiter = b.band(is_end_block, end.is_not_last_column);
        let ghost b5 = *b;
        b.assert_eq_cond("delim", padded_word, msb_one, must_check_delimiter);
        proof {
            assert forall|path: Seq<char>, w: Seq<u64>| #[trigger]
                b.adds_under(*old(b), path, w) <==> full.adds_under(*old(b), path, w) && (path
                == "delim"@ ==> (truth(val(w, must_check_delimiter)) ==> val(w, padded_word) == val(
                w,
                msb_one,
            ))) by {
                lemma_adds(*b, b5, *old(b), path, w);
                lemma_adds(b5, full, *old(b), path, w);
                lemma_only_computes(b5, full, path, w);
            }
            assert forall|path: Seq<char>, w: Seq<u64>|
                #![trigger b.adds_under(*old(b), path, w)]
                b.computed(w) && end.tell(w) && truth(val(w, is_end_block)) == (word_index as int
                    / 17 == val(w, end.len_bytes) as int / 136) implies (b.adds_under(
                *old(b),
                path,
                w,
            ) <==> word_holds(
                path,
                word_index as int,
                val(w, end.len_bytes),
                vals(w, message@),
                vals(w, padded@),
            )) by {
                assert(b5.computed(w) && b4.computed(w) && b3.computed(w) && full.computed(w));
                lemma_truth_and(val(w, is_end_block), val(w, end.is_not_last_column));
                assert(val(w, padded_word) == vals(w, padded@)[word_index as int]);
            }
        }
    } else {
        let zero = b.add_constant(0);
        let ghost b4 = *b;
        b.assert_eq_cond("after-message padding", padded_word, zero, is_past_message);
        proof {
            assert forall|path: Seq<char>, w: Seq<u64>| #[trigger]
                b.adds_under(*old(b), path, w) <==> full.adds_under(*old(b), path, w) && (path
                == "after-message padding"@ ==> (truth(val(w, is_past_message)) ==> val(
                w,
                padded_word,
            ) == val(w, zero))) by {
                lemma_adds(*b, b4, *old(b), path, w);
                lemma_adds(b4, full, *old(b), path, w);
                lemma_only_computes(b4, full, path, w);
            }
            assert forall|path: Seq<char>, w: Seq<u64>|
                #![trigger b.adds_under(*old(b), path, w)]
                b.computed(w) && end.tell(w) implies (b.adds_under(*old(b), path, w)
                <==> word_holds(
                path,
                word_index as int,
                val(w, end.len_bytes),
                vals(w, message@),
                vals(w, padded@),
            )) by {
                assert(b4.computed(w) && b3.computed(w) && full.computed(w) && b1.computed(w));
                assert(val(w, padded_word) == vals(w, padded@)[word_index as int]);
            }
        }
    }
}

/// Asserts that the padded words of one block are what the padding asks.
fn constrain_block(
    b: &mut CircuitBuilder,
    end: &EndWires,
    message: &Vec<Wire>,
    padded: &Vec<Wire>,
    block_index: usize,
)
    requires
        old(b).wf(),
        end.of(*old(b)),
        old(b).has_all(message@),
        old(b).has_all(padded@),
        17 * (block_index + 1) <= padded@.len(),
    ensures
        final(b).extends(*old(b)),
        forall|path: Seq<char>, w: Seq<u64>|
            !is_word_path(path) ==> #[trigger] final(b).adds_under(*old(b), path, w),
        forall|path: Seq<char>, w: Seq<u64>|
            #![trigger final(b).adds_under(*old(b), path, w)]
            final(b).computed(w) && end.tell(w) ==> (final(b).adds_under(*old(b), path, w)
                <==> words_hold(
                path,
                17 * block_index,
                17 * block_index + 17,
                val(w, end.len_bytes),
                vals(w, message@),
                vals(w, padded@),
            )),
{
    let n_padded: usize = padded.len();
    let number = b.add_constant(block_index as u64);
    let ghost b1 = *b;
    let is_end_block = b.ueq(end.end_block_index, number);
    let ghost b2 = *b;
    proof {
        assert forall|w: Seq<u64>| #[trigger] b.computed(w) && end.tell(w) implies truth(
            val(w, is_end_block),
        ) == (block_index == val(w, end.len_bytes) as int / 136) by {
            assert(b1.computed(w));
        }
        assert forall|path: Seq<char>, w: Seq<u64>| #[trigger] b.adds_under(*old(b), path, w) by {
            lemma_only_computes(*b, *old(b), path, w);
        }
    }
    let mut column_index: usize = 0;
    while column_index < N_WORDS_PER_BLOCK
        invariant
            column_index <= 17,
            17 * (block_index + 1) <= padded@.len() == n_padded,
            end.of(*old(b)),
            b2.has(is_end_block),
            old(b).has_all(message@),
            old(b).has_all(padded@),
            b.extends(*old(b)),
            b.extends(b2),
            forall|w: Seq<u64>| #[trigger]
                b2.computed(w) && end.tell(w) ==> truth(val(w, is_end_block)) == (block_index
                    == val(w, end.len_bytes) as int / 136),
            forall|path: Seq<char>, w: Seq<u64>|
                !is_word_path(path) ==> #[trigger] b.adds_under(*old(b), path, w),
            forall|path: Seq<char>, w: Seq<u64>|
                #![trigger b.adds_under(*old(b), path, w)]
                b.computed(w) && end.tell(w) ==> (b.adds_under(*old(b), path, w) <==> words_hold(
                    path,
                    17 * block_index,
                    17 * block_index + column_index,
                    val(w, end.len_bytes),
                    vals(w, message@),
                    vals(w, padded@),
                )),
        decreases 17 - column_index,
    {
        let ghost before = *b;
        let word_index: usize = block_index * N_WORDS_PER_BLOCK + column_index;
        constrain_word(b, end, is_end_block, message, padded, word_index);
        proof {
            assert(word_index as int / 17 == block_index);
            assert forall|path: Seq<char>, w: Seq<u64>| #[trigger]
                b.adds_under(*old(b), path, w) <==> before.adds_under(*old(b), path, w)
                && b.adds_under(before, path, w) by {
                lemma_adds(*b, before, *old(b), path, w);
            }
            assert forall|path: Seq<char>, w: Seq<u64>|
                #![trigger b.adds_under(*old(b), path, w)]
                b.computed(w) && end.tell(w) implies (b.adds_under(*old(b), path, w) <==> words_hold(
                path,
                17 * block_index,
                17 * block_index + column_index + 1,
                val(w, end.len_bytes),
                vals(w, message@),
                vals(w, padded@),
            )) by {
                assert(before.computed(w) && b2.computed(w));
                lemma_words_hold_step(
                    path,
                    17 * block_index,
                    17 * block_index + column_index,
                    val(w, end.len_bytes),
                    vals(w, message@),
                    vals(w, padded@),
                );
            }
        }
        column_index += 1;
    }
}

proof fn lemma_words_hold_step(
    path: Seq<char>,
    first: int,
    last: int,
    len: u64,
    message: Seq<u64>,
    padded: Seq<u64>,
)
    requires
        first <= last,
    ensures
        words_hold(path, first, last + 1, len, message, padded) <==> words_hold(
            path,
            first,
            last,
            len,
            message,
            padded,
        ) && word_holds(path, last, len, message, padded),
{
}

/// Asserts that every padded word but that in which the message ends is what the padding asks.
pub(crate) fn constrain_padding(
    b: &mut CircuitBuilder,
    end: &EndWires,
    message: &Vec<Wire>,
    padded: &Vec<Wire>,
    n_blocks: usize,
)
    requires
        old(b).wf(),
        end.of(*old(b)),
        old(b).has_all(message@),
        old(b).has_all(padded@),
        17 * n_blocks == padded@.len(),
    ensures
        final(b).extends(*old(b)),
        forall|path: Seq<char>, w: Seq<u64>|
            !is_word_path(path) ==> #[trigger] final(b).adds_under(*old(b), path, w),
        forall|path: Seq<char>, w: Seq<u64>|
            #![trigger final(b).adds_under(*old(b), path, w)]
            final(b).computed(w) && end.tell(w) ==> (final(b).adds_under(*old(b), path, w)
                <==> words_hold(
                path,
                0,
                17 * n_blocks,
                val(w, end.len_bytes),
                vals(w, message@),
                vals(w, padded@),
            )),
{
    let mut block_index: usize = 0;
    proof {
        assert forall|path: Seq<char>, w: Seq<u64>| #[trigger] b.adds_under(*old(b), path, w) by {
            lemma_only_computes(*b, *old(b), path, w);
        }
    }
    while block_index < n_blocks
        invariant
            block_index <= n_blocks,
            17 * n_blocks == padded@.len(),
            end.of(*old(b)),
            old(b).has_all(message@),
            old(b).has_all(padded@),
            b.extends(*old(b)),
            forall|path: Seq<char>, w: Seq<u64>|
                !is_word_path(path) ==> #[trigger] b.adds_under(*old(b), path, w),
            forall|path: Seq<char>, w: Seq<u64>|
                #![trigger b.adds_under(*old(b), path, w)]
                b.computed(w) && end.tell(w) ==> (b.adds_under(*old(b), path, w) <==> words_hold(
                    path,
                    0,
                    17 * block_index,
                    val(w, end.len_bytes),
                    vals(w, message@),
                    vals(w, padded@),
                )),
        decreases n_blocks - block_index,
    {
        let ghost before = *b;
        constrain_block(b, end, message, padded, block_index);
        proof {
            assert forall|path: Seq<char>, w: Seq<u64>| #[trigger]
                b.adds_under(*old(b), path, w) <==> before.adds_under(*old(b), path, w)
                && b.adds_under(before, path, w) by {
                lemma_adds(*b, before, *old(b), path, w);
            }
            assert forall|path: Seq<char>, w: Seq<u64>|
                #![trigger b.adds_under(*old(b), path, w)]
                b.computed(w) && end.tell(w) implies (b.adds_under(*old(b), path, w) <==> words_hold(
                path,
                0,
                17 * (block_index + 1),
                val(w, end.len_bytes),
                vals(w, message@),
                vals(w, padded@),
            )) by {
                assert(before.computed(w));
                lemma_words_hold_join(
                    path,
                    17 * block_index,
                    17 * block_index + 17,
                    val(w, end.len_bytes),
                    vals(w, message@),
                    vals(w, padded@),
                );
            }
        }
        block_index += 1;
    }
}

proof fn lemma_words_hold_join(
    path: Seq<char>,
    middle: int,
    last: int,
    len: u64,
    message: Seq<u64>,
    padded: Seq<u64>,
)
    requires
        0 <= middle <= last,
    ensures
        words_hold(path, 0, last, len, message, padded) <==> words_hold(
            path,
            0,
            middle,
            len,
            message,
            padded,
        ) && words_hold(path, middle, last, len, message, padded),
{
    if words_hold(path, 0, middle, len, message, padded) && words_hold(
        path,
        middle,
        last,
        len,
        message,
        padded,
    ) {
        assert forall|i: int| 0 <= i < last implies #[trigger] word_holds(
            path,
            i,
            len,
            message,
            padded,
        ) by {}
    }
}

/// What is asserted under the paths of single words holds if and only if the padding does, but for
/// the word in which the message ends.
pub proof fn lemma_padding(len: u64, message: Seq<u64>, padded: Seq<u64>, n_blocks: int)
    requires
        padded.len() == 17 * n_blocks,
        len < 136 * n_blocks,
        message.len() < padded.len(),
    ensures
        words_hold("full"@, 0, 17 * n_blocks, len, message, padded) <==> message_kept(
            len,
            message,
            padded,
        ),
        words_hold("delim"@, 0, 17 * n_blocks, len, message, padded) <==> delimited(len, padded),
        words_hold("after-message padding"@, 0, 17 * n_blocks, len, message, padded)
            <==> zero_filled(len, padded),
{
    let at = len as int / 8;
    let end = len as int / 136;
    reveal_strlit("full");
    reveal_strlit("delim");
    reveal_strlit("after-message padding");
    assert("full"@.len() == 4 && "delim"@.len() == 5 && "after-message padding"@.len() == 21);
    let n = 17 * n_blocks;
    if words_hold("full"@, 0, n, len, message, padded) {
        assert forall|i: int| 0 <= i < message.len() && i < at implies #[trigger] padded[i]
            == message[i] by {
            assert(word_holds("full"@, i, len, message, padded));
        }
    }
    if words_hold("after-message padding"@, 0, n, len, message, padded) {
        assert forall|i: int| at < i < padded.len() && i % 17 != 16 implies #[trigger] padded[i]
            == 0 by {
            assert(word_holds("after-message padding"@, i, len, message, padded));
        }
    }
    let last = 17 * end + 16;
    assert(last < n && last % 17 == 16 && last / 17 == end);
    if words_hold("delim"@, 0, n, len, message, padded) && at % 17 != 16 {
        assert(word_holds("delim"@, last, len, message, padded));
    }
    if delimited(len, padded) {
        assert forall|i: int| 0 <= i < n implies #[trigger] word_holds(
            "delim"@,
            i,
            len,
            message,
            padded,
        ) by {
            if i % 17 == 16 && i / 17 == end {
                assert(i == last);
            }
        }
    }
}

/// Adds the wires of a padded message.
pub(crate) fn add_padded(b: &mut CircuitBuilder, n: usize) -> (padded: Vec<Wire>)
    requires
        old(b).wf(),
    ensures
        final(b).extends(*old(b)),
        final(b).has_all(padded@),
        padded@.len() == n,
        forall|i: int| 0 <= i < n ==> (#[trigger] padded@[i]).index == old(b).n_wires() + i,
        forall|i: int|
            0 <= i < n ==> final(b).graph.wires@[(#[trigger] padded@[i]).index as int]
                == WireKind::Witness,
        final(b).only_computes(*old(b)),
{
    let mut padded: Vec<Wire> = Vec::new();
    let mut i: usize = 0;
    while i < n
        invariant
            i == padded@.len() <= n,
            b.extends(*old(b)),
            b.has_all(padded@),
            b.n_wires() == old(b).n_wires() + i,
            forall|j: int| 0 <= j < i ==> (#[trigger] padded@[j]).index == old(b).n_wires() + j,
            forall|j: int|
                0 <= j < i ==> b.graph.wires@[(#[trigger] padded@[j]).index as int]
                    == WireKind::Witness,
            b.only_computes(*old(b)),
        decreases n - i,
    {
        let ghost before = *b;
        let ghost so_far = padded@;
        let wire = b.add_witness();
        padded.push(wire);
        proof {
            assert forall|j: int| 0 <= j < i + 1 implies b.graph.wires@[(
            #[trigger] padded@[j]).index as int] == WireKind::Witness by {
                if j < i {
                    assert(padded@[j] == so_far[j]);
                    assert(before.graph.wires@[so_far[j].index as int]
                        == WireKind::Witness);
                }
            }
        }
        i += 1;
    }
    padded
}

/// Asserts that the wires of a digest are the first of a state.
pub(crate) fn constrain_digest(
    b: &mut CircuitBuilder,
    digest: [Wire; N_WORDS_PER_DIGEST],
    state: &Vec<Wire>,
)
    requires
        old(b).wf(),
        old(b).has_all(digest@),
        old(b).has_all(state@),
        state@.len() >= 4,
    ensures
        final(b).extends(*old(b)),
        forall|path: Seq<char>, w: Seq<u64>| #[trigger]
            final(b).adds_under(*old(b), path, w) <==> (path == "claimed digest is correct"@ ==> vals(
                w,
                digest@,
            ) == vals(w, state@).take(4)),
{
    let mut i: usize = 0;
    proof {
        assert forall|path: Seq<char>, w: Seq<u64>| #[trigger] b.adds_under(*old(b), path, w) by {
            lemma_only_computes(*b, *old(b), path, w);
        }
    }
    while i < N_WORDS_PER_DIGEST
        invariant
            i <= 4,
            state@.len() >= 4,
            b.extends(*old(b)),
            old(b).has_all(digest@),
            old(b).has_all(state@),
            forall|path: Seq<char>, w: Seq<u64>| #[trigger]
                b.adds_under(*old(b), path, w) <==> (path == "claimed digest is correct"@ ==> agree(
                    vals(w, digest@),
                    vals(w, state@),
                    i as int,
                )),
        decreases 4 - i,
    {
        let ghost before = *b;
        assert(old(b).has(digest@[i as int]) && old(b).has(state@[i as int]));
        b.assert_eq("claimed digest is correct", digest[i], state[i]);
        proof {
            assert forall|path: Seq<char>, w: Seq<u64>| #[trigger]
                b.adds_under(*old(b), path, w) <==> (path == "claimed digest is correct"@ ==> agree(
                vals(w, digest@),
                vals(w, state@),
                i + 1,
            )) by {
                lemma_adds(*b, before, *old(b), path, w);
                assert(vals(w, digest@)[i as int] == val(w, digest@[i as int]));
                assert(vals(w, state@)[i as int] == val(w, state@[i as int]));
            }
        }
        i += 1;
    }
    proof {
        assert forall|path: Seq<char>, w: Seq<u64>| #[trigger]
            b.adds_under(*old(b), path, w) <==> (path == "claimed digest is correct"@ ==> vals(
            w,
            digest@,
        ) == vals(w, state@).take(4)) by {
            let s = vals(w, state@).take(4);
            let d = vals(w, digest@);
            if d == s {
                assert forall|j: int| 0 <= j < 4 implies #[trigger] d[j] == vals(w, state@)[j] by {
                    assert(d[j] == s[j]);
                }
            }
            if agree(d, vals(w, state@), 4) {
                assert(d =~= s);
            }
        }
    }
}

/// Whether two lists begin with the same words.
spec fn agree(a: Seq<u64>, b: Seq<u64>, n: int) -> bool {
    forall|j: int| 0 <= j < n ==> #[trigger] a[j] == b[j]
}

} // verus!
