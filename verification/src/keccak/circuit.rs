//! The Keccak-256 circuit.

use vstd::prelude::*;

use crate::circuit::builder::{
    lemma_adds, lemma_asserted, lemma_only_computes, CircuitBuilder,
};
use crate::circuit::multiplexer::multi_wire_multiplex;
use crate::circuit::semantics::{truth, val, vals};
use crate::ir::{Wire, WireKind};
use crate::keccak::constraints::{
    absorb, add_padded, constrain_boundary, constrain_digest, constrain_padding, end_found,
    lemma_padding, lemma_word_place, locate_end, words_hold, EndWires,
};
use crate::keccak::sponge::{
    boundary_word, delimited, keccak_relation, message_kept, sponge, zero_filled,
    N_WORDS_PER_BLOCK, N_WORDS_PER_DIGEST, RATE_BYTES,
};

verus! {

/// Keccak-256 circuit that can handle variable-length inputs up to a maximum length.
pub struct Keccak256 {
    /// The input message length in bytes.
    pub len_bytes: Wire,
    /// The 256-bit output digest.
    pub digest: [Wire; N_WORDS_PER_DIGEST],
    /// The input message.
    pub message: Vec<Wire>,
    /// The padded message.
    pub padded_message: Vec<Wire>,
    /// The number of blocks of the longest message.
    pub n_blocks: usize,
}

impl Keccak256 {

    /// The number of blocks of the longest message.
    pub open spec fn n_blocks_model(&self) -> int {
        (8 * self.message@.len()) as int / 136 + 1
    }

    /// There is a message, its length in bytes is a machine number, and there is a padded word for
    /// every word of every block. Padded words have wires of their own.
    pub open spec fn wf(&self) -> bool {
        &&& self.message@.len() > 0
        &&& 8 * self.message@.len() + 136 <= usize::MAX
        &&& self.n_blocks == self.n_blocks_model()
        &&& self.padded_message@.len() == 17 * self.n_blocks
        &&& forall|i: int, j: int|
            0 <= i < j < self.padded_message@.len() ==> (#[trigger] self.padded_message@[i]).index
                < (#[trigger] self.padded_message@[j]).index
    }

    /// What the circuit asserts of an assignment.
    pub open spec fn accepts(&self, w: Seq<u64>) -> bool {
        keccak_relation(
            val(w, self.len_bytes),
            vals(w, self.digest@),
            vals(w, self.message@),
            vals(w, self.padded_message@),
        )
    }

    /// What the circuit asserts of an assignment under a path.
    pub open spec fn accepts_under(&self, path: Seq<char>, w: Seq<u64>) -> bool {
        let len = val(w, self.len_bytes);
        let message = vals(w, self.message@);
        let padded = vals(w, self.padded_message@);
        &&& path == "len_check"@ ==> len <= 8 * message.len()
        &&& path == "claimed digest is correct"@ ==> vals(w, self.digest@) == sponge(
            padded,
            len as int / 136 + 1,
        ).take(4)
        &&& path == "expected partial"@ ==> padded[len as int / 8] == boundary_word(message, len)
        &&& path == "full"@ ==> message_kept(len, message, padded)
        &&& path == "delim"@ ==> delimited(len, padded)
        &&& path == "after-message padding"@ ==> zero_filled(len, padded)
    }

    /// Whether a builder is another one with this circuit added: what was added asserts what the
    /// circuit does, each part of it under its path, and nothing else. Of a length beyond the
    /// maximum, only that it is refused is said.
    pub open spec fn added_to(&self, before: CircuitBuilder, b: CircuitBuilder) -> bool {
        &&& b.extends(before)
        &&& forall|w: Seq<u64>| #[trigger]
            b.computed(w) ==> (b.adds(before, w) <==> self.accepts(w))
        &&& forall|path: Seq<char>, w: Seq<u64>|
            #![trigger b.adds_under(before, path, w)]
            b.computed(w) && (path == "len_check"@ || val(w, self.len_bytes) <= 8
                * self.message@.len()) ==> (b.adds_under(before, path, w) <==> self.accepts_under(
                path,
                w,
            ))
    }
}

impl Keccak256 {
    /// Returns the padded-message witness wires (filled by [`Self::populate_message`]).
    pub fn padded_message(&self) -> (wires: &[Wire])
        ensures
            wires@ == self.padded_message@,
    {
        self.padded_message.as_slice()
    }

    /// Creates a new keccak circuit in a circuit builder: `len_bytes` is the claimed length of the
    /// message in bytes, `digest` its claimed digest, and `message` its claimed words.
    pub fn new(
        b: &mut CircuitBuilder,
        len_bytes: Wire,
        digest: [Wire; N_WORDS_PER_DIGEST],
        message: Vec<Wire>,
    ) -> (keccak: Self)
        requires
            old(b).wf(),
            old(b).has(len_bytes),
            old(b).has_all(digest@),
            old(b).has_all(message@),
            message@.len() > 0,
            8 * message@.len() + 136 <= usize::MAX,
        ensures
            keccak.added_to(*old(b), *final(b)),
            keccak.wf(),
            keccak.len_bytes == len_bytes,
            keccak.digest == digest,
            keccak.message == message,
            final(b).has_all(keccak.padded_message@),
            forall|i: int|
                0 <= i < keccak.padded_message@.len() ==> old(b).n_wires() <= (
                #[trigger] keccak.padded_message@[i]).index,
            forall|i: int|
                0 <= i < keccak.padded_message@.len() ==> final(b).graph.wires@[(
                #[trigger] keccak.padded_message@[i]).index as int] == WireKind::Witness,
            forall|w: Seq<u64>| #[trigger]
                final(b).computed(w) ==> (final(b).asserted(w) <==> old(b).asserted(w)
                    && keccak.accepts(w)),
    {
        let max_len_bytes: usize = message.len() * 8;
        // number of blocks needed for the maximum sized message
        let n_blocks: usize = max_len_bytes / RATE_BYTES + 1;

        // constrain the message length claim to be explicitly within bounds
        let max = b.add_constant(max_len_bytes as u64);
        let ghost b1 = *b;
        let len_check = b.ugt(len_bytes, max);
        let ghost b2 = *b;
        b.assert_false("len_check", len_check);
        let ghost b3 = *b;

        let padded_message = add_padded(b, n_blocks * N_WORDS_PER_BLOCK);
        let ghost b4 = *b;
        let states = absorb(b, &padded_message, n_blocks);
        let ghost b5 = *b;
        let (end_block_index, is_not_last_column) = locate_end(b, len_bytes, n_blocks);
        let ghost b6 = *b;
        proof {
            assert forall|k: int| 0 <= k < states@.len() implies b.has_all(
                (#[trigger] states@[k])@,
            ) by {
                assert(b5.has_all(states@[k]@));
                assert forall|i: int| 0 <= i < states@[k]@.len() implies b.has(
                    #[trigger] states@[k]@[i],
                ) by {
                    assert(b5.has(states@[k]@[i]));
                }
            }
        }
        let computed_digest = multi_wire_multiplex(b, &states, end_block_index);
        let ghost b7 = *b;
        assert(b.has_all(digest@)) by {
            assert forall|i: int| 0 <= i < digest@.len() implies b.has(#[trigger] digest@[i]) by {
                assert(old(b).has(digest@[i]));
            }
        }
        constrain_digest(b, digest, &computed_digest);
        let ghost b8 = *b;

        let word_boundary = b.shr(len_bytes, 3);
        let ghost b9 = *b;
        assert(b.has_all(message@)) by {
            assert forall|i: int| 0 <= i < message@.len() implies b.has(#[trigger] message@[i]) by {
                assert(old(b).has(message@[i]));
            }
        }
        assert(b.has_all(padded_message@)) by {
            assert forall|i: int| 0 <= i < padded_message@.len() implies b.has(
                #[trigger] padded_message@[i],
            ) by {
                assert(b4.has(padded_message@[i]));
            }
        }
        constrain_boundary(
            b,
            len_bytes,
            word_boundary,
            is_not_last_column,
            &message,
            &padded_message,
        );
        let ghost b10 = *b;
        let end = EndWires { len_bytes, word_boundary, end_block_index, is_not_last_column };
        assert(b.has_all(message@) && b.has_all(padded_message@)) by {
            assert forall|i: int| 0 <= i < message@.len() implies b.has(#[trigger] message@[i]) by {
                assert(b9.has(message@[i]));
            }
            assert forall|i: int| 0 <= i < padded_message@.len() implies b.has(
                #[trigger] padded_message@[i],
            ) by {
                assert(b9.has(padded_message@[i]));
            }
        }
        constrain_padding(b, &end, &message, &padded_message, n_blocks);
        let keccak = Keccak256 { len_bytes, digest, message, padded_message, n_blocks };
        proof {
            assert forall|i: int| 0 <= i < padded_message@.len() implies b.has(
                #[trigger] padded_message@[i],
            ) && b.graph.wires@[padded_message@[i].index as int]
                == WireKind::Witness by {
                assert(b10.has(padded_message@[i]));
                let at = padded_message@[i].index as int;
                assert(b4.graph.wires@[at] == WireKind::Witness);
                assert(b10.graph.wires@[at] == b4.graph.wires@[at]) by {
                    assert(b5.graph.wires@[at] == b4.graph.wires@[at]);
                    assert(b6.graph.wires@[at] == b5.graph.wires@[at]);
                    assert(b7.graph.wires@[at] == b6.graph.wires@[at]);
                    assert(b8.graph.wires@[at] == b7.graph.wires@[at]);
                    assert(b9.graph.wires@[at] == b8.graph.wires@[at]);
                }
            }
            lemma_paths();
            assert(b2.only_computes(*old(b)));
            assert(b7.only_computes(b3));
            assert(b9.only_computes(b8));
            assert forall|path: Seq<char>, w: Seq<u64>| #[trigger]
                b.adds_under(*old(b), path, w) <==> (path == "len_check"@ ==> !truth(
                val(w, len_check),
            )) && b8.adds_under(b7, path, w) && b10.adds_under(b9, path, w) && b.adds_under(
                b10,
                path,
                w,
            ) by {
                lemma_only_computes(b2, *old(b), path, w);
                lemma_adds(b3, b2, *old(b), path, w);
                lemma_only_computes(b7, b3, path, w);
                lemma_adds(b7, b3, *old(b), path, w);
                lemma_adds(b8, b7, *old(b), path, w);
                lemma_only_computes(b9, b8, path, w);
                lemma_adds(b9, b8, *old(b), path, w);
                lemma_adds(b10, b9, *old(b), path, w);
                lemma_adds(*b, b10, *old(b), path, w);
            }
            assert forall|path: Seq<char>, w: Seq<u64>|
                #![trigger b.adds_under(*old(b), path, w)]
                b.computed(w) && (path == "len_check"@ || val(w, len_bytes) <= max_len_bytes) implies (
            b.adds_under(*old(b), path, w) <==> keccak.accepts_under(path, w)) by {
                assert(b10.computed(w) && b9.computed(w) && b8.computed(w) && b7.computed(w));
                assert(b6.computed(w) && b5.computed(w) && b4.computed(w) && b3.computed(w));
                assert(b2.computed(w) && b1.computed(w));
                let len = val(w, len_bytes);
                let m = vals(w, message@);
                let p = vals(w, padded_message@);
                assert(truth(val(w, len_check)) <==> len > max_len_bytes);
                if len <= max_len_bytes {
                    assert(len < 136 * n_blocks);
                    lemma_word_place(len);
                    assert(end_found(
                        len,
                        val(w, end_block_index),
                        val(w, is_not_last_column),
                        n_blocks as int,
                    ));
                    assert(end.tell(w));
                    let k = len as int / 136;
                    let row = states@[k]@;
                    assert(vals(w, row) == sponge(p, k + 1));
                    assert(vals(w, computed_digest@).take(4) =~= sponge(p, k + 1).take(4)) by {
                        assert forall|j: int| 0 <= j < 4 implies #[trigger] vals(
                            w,
                            computed_digest@,
                        )[j] == sponge(p, k + 1)[j] by {
                            assert(val(w, computed_digest@[j]) == val(w, row[j]));
                            assert(vals(w, row)[j] == val(w, row[j]));
                        }
                    }
                    lemma_padding(len, m, p, n_blocks as int);
                    assert(b10.adds_under(b9, "expected partial"@, w) <==> p[len as int / 8]
                        == boundary_word(m, len));
                    assert(b.adds_under(b10, path, w) <==> words_hold(
                        path,
                        0,
                        17 * n_blocks,
                        len,
                        m,
                        p,
                    ));
                }
            }
            assert forall|w: Seq<u64>| #[trigger] b.computed(w) implies (b.adds(*old(b), w)
                <==> keccak.accepts(w)) by {
                lemma_accepts(keccak, w);
                if b.adds(*old(b), w) {
                    assert(b.adds_under(*old(b), "len_check"@, w));
                    assert forall|path: Seq<char>| #[trigger] keccak.accepts_under(path, w) by {
                        assert(b.adds_under(*old(b), path, w));
                    }
                }
                if keccak.accepts(w) {
                    assert forall|path: Seq<char>| #[trigger] b.adds_under(*old(b), path, w) by {
                        assert(keccak.accepts_under(path, w));
                    }
                }
            }
            assert forall|w: Seq<u64>| #[trigger] b.computed(w) implies (b.asserted(w) <==> old(
                b,
            ).asserted(w) && keccak.accepts(w)) by {
                lemma_asserted(*b, *old(b), w);
            }
        }
        keccak
    }

    /// The length in bytes of the longest message.
    pub fn max_len_bytes(&self) -> (n: usize)
        requires
            self.wf(),
        ensures
            n == 8 * self.message@.len(),
    {
        self.message.len() * 8
    }
}

/// The paths of the circuit are different.
pub proof fn lemma_paths()
    ensures
        "len_check"@.len() == 9,
        "claimed digest is correct"@.len() == 25,
        "expected partial"@.len() == 16,
        "full"@.len() == 4,
        "delim"@.len() == 5,
        "after-message padding"@.len() == 21,
{
    reveal_strlit("len_check");
    reveal_strlit("claimed digest is correct");
    reveal_strlit("expected partial");
    reveal_strlit("full");
    reveal_strlit("delim");
    reveal_strlit("after-message padding");
}

/// An assignment is accepted where it is under every path.
proof fn lemma_accepts(keccak: Keccak256, w: Seq<u64>)
    ensures
        keccak.accepts(w) <==> forall|path: Seq<char>| #[trigger] keccak.accepts_under(path, w),
{
    if forall|path: Seq<char>| #[trigger] keccak.accepts_under(path, w) {
        assert(keccak.accepts_under("len_check"@, w));
        assert(keccak.accepts_under("claimed digest is correct"@, w));
        assert(keccak.accepts_under("expected partial"@, w));
        assert(keccak.accepts_under("full"@, w));
        assert(keccak.accepts_under("delim"@, w));
        assert(keccak.accepts_under("after-message padding"@, w));
    }
}

} // verus!
