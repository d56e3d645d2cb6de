//! What a key collection says of a constraint system, term by term: each term is a use of its word
//! under its operation and shift sequence, as often as it occurs, and nothing else is; and in which
//! order keys and uses come.

use vstd::prelude::*;

use crate::constraint_system::{
    lemma_seq_code_injective, seq_code_model, seq_wf, AndConstraint, BmulConstraint,
    ConstraintSystem, ImulConstraint, InoutSegment, Shift, ShiftedValueIndex, ValueIndex,
    ZeroConstraint,
};
use crate::key_collection::collection::{law_every_use_once, KeyCollection};
use crate::key_collection::key::{ConstraintIndex, Key, Operation};
use crate::key_collection::key_segment::{law_word_keys, KeySegment};
use crate::key_collection::model::{
    first_codes, hidden_groups, key_constraints, lemma_key_code_parts, public_groups, references,
    word_references,
};
use crate::key_collection::reference::{finished_words, lists_wf, BuilderKey};
use crate::key_collection::walk::{
    lemma_by_operand, lemma_code_order, lemma_earlier_term, lemma_folded, lemma_groups_in_order,
    lemma_half, lemma_key, lemma_key_order, lemma_key_times, lemma_no_choice, lemma_operand_model,
    lemma_operation_size, lemma_references_order, lemma_references_times, lemma_same_choice,
    lemma_term_counts, lemma_terms_picked, lemma_tiled, lemma_use_has_operand, lemma_use_located,
    lemma_word_order, operand_of, row_size, use_of,
};

verus! {

/// A key of a word has operand `p` of constraint `c` among its uses exactly as often as a term of
/// that operand, of that constraint of the key's operation, names the word under the key's shift
/// sequence; an operand that the operation does not have is no use.
pub proof fn law_uses_of_a_key(
    collection: KeyCollection,
    cs: ConstraintSystem,
    inout: InoutSegment,
    word: int,
    k: int,
    p: int,
    c: int,
)
    requires
        cs.deep_view().valid(),
        cs.zero_constraints@.len() <= u32::MAX + 1,
        cs.and_constraints@.len() <= u32::MAX + 1,
        cs.imul_constraints@.len() <= u32::MAX + 1,
        cs.bmul_constraints@.len() <= u32::MAX + 1,
        collection.represents(cs.deep_view(), inout),
        0 <= word < cs.constants@.len() + cs.n_inout + cs.n_private,
        0 <= k,
    ensures
        ({
            let n_public = cs.constants@.len() + if inout is Public {
                cs.n_inout as int
            } else {
                0
            };
            let segment = if word < n_public {
                collection.public
            } else {
                collection.hidden
            };
            let w = if word < n_public {
                word
            } else {
                word - n_public
            };
            let range = segment.key_ranges@[w];
            let key = segment.keys@[range.start + k];
            let seq = segment.dense_shift_enc.seqs()[key.dense_shift_idx as int];
            let uses = segment.constraint_indices@.subrange(
                key.range.start as int,
                key.range.end as int,
            );
            let n = uses.filter(
                |u: ConstraintIndex| u.operand_index == p && u.constraint_index == c,
            ).len();
            &&& 0 <= w < segment.key_ranges@.len()
            &&& range.start <= range.end <= segment.keys@.len()
            &&& k < range.end - range.start ==> {
                &&& key.dense_shift_idx < segment.dense_shift_enc.seqs().len()
                &&& key.range.start <= key.range.end <= segment.constraint_indices@.len()
                &&& match key.operation {
                    Operation::Zero => n == if 0 <= p < 1 && 0 <= c < cs.zero_constraints@.len() {
                        cs.zero_constraints@[c].0@[p]@.filter(
                            |term: ShiftedValueIndex|
                                term.shift_seq == seq && (match term.value_index {
                                    ValueIndex::Constant(i) => i as int,
                                    ValueIndex::Inout(i) => cs.constants@.len() + i,
                                    ValueIndex::Private(i) => cs.constants@.len() + cs.n_inout + i,
                                    ValueIndex::Scratch(_) => -1,
                                }) == word,
                        ).len()
                    } else {
                        0
                    },
                    Operation::BitwiseAnd => n == if 0 <= p < 3
                        && 0 <= c < cs.and_constraints@.len() {
                        cs.and_constraints@[c].0@[p]@.filter(
                            |term: ShiftedValueIndex|
                                term.shift_seq == seq && (match term.value_index {
                                    ValueIndex::Constant(i) => i as int,
                                    ValueIndex::Inout(i) => cs.constants@.len() + i,
                                    ValueIndex::Private(i) => cs.constants@.len() + cs.n_inout + i,
                                    ValueIndex::Scratch(_) => -1,
                                }) == word,
                        ).len()
                    } else {
                        0
                    },
                    Operation::IntegerMul => n == if 0 <= p < 4
                        && 0 <= c < cs.imul_constraints@.len() {
                        cs.imul_constraints@[c].0@[p]@.filter(
                            |term: ShiftedValueIndex|
                                term.shift_seq == seq && (match term.value_index {
                                    ValueIndex::Constant(i) => i as int,
                                    ValueIndex::Inout(i) => cs.constants@.len() + i,
                                    ValueIndex::Private(i) => cs.constants@.len() + cs.n_inout + i,
                                    ValueIndex::Scratch(_) => -1,
                                }) == word,
                        ).len()
                    } else {
                        0
                    },
                    Operation::BinMul => n == if 0 <= p < 6 && 0 <= c < cs.bmul_constraints@.len() {
                        cs.bmul_constraints@[c].0@[p]@.filter(
                            |term: ShiftedValueIndex|
                                term.shift_seq == seq && (match term.value_index {
                                    ValueIndex::Constant(i) => i as int,
                                    ValueIndex::Inout(i) => cs.constants@.len() + i,
                                    ValueIndex::Private(i) => cs.constants@.len() + cs.n_inout + i,
                                    ValueIndex::Scratch(_) => -1,
                                }) == word,
                        ).len()
                    } else {
                        0
                    },
                }
            }
        }),
{
    let csm = cs.deep_view();
    let (segment, words, w) = lemma_half(collection, cs, inout, word);
    if k < segment.key_ranges@[w].end - segment.key_ranges@[w].start {
        lemma_key(segment, words, w, k);
        let key = segment.keys@[segment.key_ranges@[w].start + k];
        let seq = segment.dense_shift_enc.seqs()[key.dense_shift_idx as int];
        let code = seq_code_model(seq);
        let uses = words[w][k].constraints;
        let chosen = |u: ConstraintIndex| u.operand_index == p && u.constraint_index == c;
        if 0 <= p < 256 && 0 <= c <= u32::MAX {
            let r = use_of(word, key.operation, code, p, c);
            lemma_key_times(references(csm), r);
            lemma_same_choice(uses, chosen, |u: ConstraintIndex| u == r.keyed.constraint);
            lemma_references_times(cs, word, key.operation, code, p, c);
            match key.operation {
                Operation::Zero => {
                    if p < 1 && c < cs.zero_constraints@.len() {
                        let operand = cs.zero_constraints@[c].0@[p]@;
                        let model = csm.zero_constraints[c][p];
                        assert forall|t: int| 0 <= t < operand.len() implies #[trigger] model[t]
                            == operand[t].deep_view() && csm.term_valid(model[t]) by {
                            assert(csm.term_valid(csm.zero_constraints[c][p][t]));
                        }
                        lemma_terms_picked(cs, operand, model, seq, word);
                    }
                },
                Operation::BitwiseAnd => {
                    if p < 3 && c < cs.and_constraints@.len() {
                        let operand = cs.and_constraints@[c].0@[p]@;
                        let model = csm.and_constraints[c][p];
                        assert forall|t: int| 0 <= t < operand.len() implies #[trigger] model[t]
                            == operand[t].deep_view() && csm.term_valid(model[t]) by {
                            assert(csm.term_valid(csm.and_constraints[c][p][t]));
                        }
                        lemma_terms_picked(cs, operand, model, seq, word);
                    }
                },
                Operation::IntegerMul => {
                    if p < 4 && c < cs.imul_constraints@.len() {
                        let operand = cs.imul_constraints@[c].0@[p]@;
                        let model = csm.imul_constraints[c][p];
                        assert forall|t: int| 0 <= t < operand.len() implies #[trigger] model[t]
                            == operand[t].deep_view() && csm.term_valid(model[t]) by {
                            assert(csm.term_valid(csm.imul_constraints[c][p][t]));
                        }
                        lemma_terms_picked(cs, operand, model, seq, word);
                    }
                },
                Operation::BinMul => {
                    if p < 6 && c < cs.bmul_constraints@.len() {
                        let operand = cs.bmul_constraints@[c].0@[p]@;
                        let model = csm.bmul_constraints[c][p];
                        assert forall|t: int| 0 <= t < operand.len() implies #[trigger] model[t]
                            == operand[t].deep_view() && csm.term_valid(model[t]) by {
                            assert(csm.term_valid(csm.bmul_constraints[c][p][t]));
                        }
                        lemma_terms_picked(cs, operand, model, seq, word);
                    }
                },
            }
        } else {
            lemma_no_choice(uses, chosen);
        }
    }
}

/// Every term is a use: the word at its place has a key with the operation and the term's shift
/// sequence, and operand `p` of constraint `c` is among that key's uses. The result tells where the
/// key and the use stand.
pub proof fn law_every_term_is_a_use(
    collection: KeyCollection,
    cs: ConstraintSystem,
    inout: InoutSegment,
    operation: Operation,
    c: int,
    p: int,
    t: int,
    term: ShiftedValueIndex,
    word: int,
) -> (at: (int, int))
    requires
        cs.deep_view().valid(),
        cs.zero_constraints@.len() <= u32::MAX + 1,
        cs.and_constraints@.len() <= u32::MAX + 1,
        cs.imul_constraints@.len() <= u32::MAX + 1,
        cs.bmul_constraints@.len() <= u32::MAX + 1,
        collection.represents(cs.deep_view(), inout),
        match operation {
            Operation::Zero => 0 <= c < cs.zero_constraints@.len() && 0 <= p < 1 && 0 <= t
                < cs.zero_constraints@[c].0@[p]@.len(),
            Operation::BitwiseAnd => 0 <= c < cs.and_constraints@.len() && 0 <= p < 3 && 0 <= t
                < cs.and_constraints@[c].0@[p]@.len(),
            Operation::IntegerMul => 0 <= c < cs.imul_constraints@.len() && 0 <= p < 4 && 0 <= t
                < cs.imul_constraints@[c].0@[p]@.len(),
            Operation::BinMul => 0 <= c < cs.bmul_constraints@.len() && 0 <= p < 6 && 0 <= t
                < cs.bmul_constraints@[c].0@[p]@.len(),
        },
        term == match operation {
            Operation::Zero => cs.zero_constraints@[c].0@[p]@[t],
            Operation::BitwiseAnd => cs.and_constraints@[c].0@[p]@[t],
            Operation::IntegerMul => cs.imul_constraints@[c].0@[p]@[t],
            Operation::BinMul => cs.bmul_constraints@[c].0@[p]@[t],
        },
        word == match term.value_index {
            ValueIndex::Constant(i) => i as int,
            ValueIndex::Inout(i) => cs.constants@.len() + i,
            ValueIndex::Private(i) => cs.constants@.len() + cs.n_inout + i,
            ValueIndex::Scratch(_) => -1,
        },
    ensures
        0 <= word < cs.constants@.len() + cs.n_inout + cs.n_private,
        ({
            let n_public = cs.constants@.len() + if inout is Public {
                cs.n_inout as int
            } else {
                0
            };
            let segment = if word < n_public {
                collection.public
            } else {
                collection.hidden
            };
            let w = if word < n_public {
                word
            } else {
                word - n_public
            };
            let range = segment.key_ranges@[w];
            &&& 0 <= w < segment.key_ranges@.len()
            &&& range.start <= range.end <= segment.keys@.len()
            &&& range.start <= at.0 < range.end
            &&& segment.keys@[at.0].operation == operation
            &&& segment.keys@[at.0].dense_shift_idx < segment.dense_shift_enc.seqs().len()
            &&& segment.dense_shift_enc.seqs()[segment.keys@[at.0].dense_shift_idx as int]
                == term.shift_seq
            &&& segment.keys@[at.0].range.start <= at.1 < segment.keys@[at.0].range.end
            &&& segment.keys@[at.0].range.end <= segment.constraint_indices@.len()
            &&& segment.constraint_indices@[at.1].operand_index == p
            &&& segment.constraint_indices@[at.1].constraint_index == c
        }),
{
    let csm = cs.deep_view();
    let model = match operation {
        Operation::Zero => csm.zero_constraints[c][p],
        Operation::BitwiseAnd => csm.and_constraints[c][p],
        Operation::IntegerMul => csm.imul_constraints[c][p],
        Operation::BinMul => csm.bmul_constraints[c][p],
    };
    assert(csm.term_valid(model[t]) && model[t] == term.deep_view() && 0 <= t < model.len()) by {
        match operation {
            Operation::Zero => assert(csm.term_valid(csm.zero_constraints[c][p][t])),
            Operation::BitwiseAnd => assert(csm.term_valid(csm.and_constraints[c][p][t])),
            Operation::IntegerMul => assert(csm.term_valid(csm.imul_constraints[c][p][t])),
            Operation::BinMul => assert(csm.term_valid(csm.bmul_constraints[c][p][t])),
        }
    }
    assert(word == csm.word_offset(term.value_index));
    assert(model[t].seq_code() == seq_code_model(term.shift_seq));
    lemma_term_counts(csm, model, t, word, seq_code_model(term.shift_seq));
    lemma_references_times(cs, word, operation, seq_code_model(term.shift_seq), p, c);
    lemma_use_located(collection, cs, inout, word, operation, term.shift_seq, p, c)
}

/// Inside a key, uses come by operand position, then by constraint, and there is at least one.
pub proof fn law_uses_in_order(
    collection: KeyCollection,
    cs: ConstraintSystem,
    inout: InoutSegment,
    word: int,
    k: int,
    i: int,
    j: int,
)
    requires
        cs.deep_view().valid(),
        cs.zero_constraints@.len() <= u32::MAX + 1,
        cs.and_constraints@.len() <= u32::MAX + 1,
        cs.imul_constraints@.len() <= u32::MAX + 1,
        cs.bmul_constraints@.len() <= u32::MAX + 1,
        collection.represents(cs.deep_view(), inout),
        0 <= word < cs.constants@.len() + cs.n_inout + cs.n_private,
        0 <= k,
        0 <= i < j,
    ensures
        ({
            let n_public = cs.constants@.len() + if inout is Public {
                cs.n_inout as int
            } else {
                0
            };
            let segment = if word < n_public {
                collection.public
            } else {
                collection.hidden
            };
            let w = if word < n_public {
                word
            } else {
                word - n_public
            };
            let range = segment.key_ranges@[w];
            let key = segment.keys@[range.start + k];
            let a = segment.constraint_indices@[key.range.start + i];
            let b = segment.constraint_indices@[key.range.start + j];
            k < range.end - range.start ==> key.range.start < key.range.end && (j < key.range.end
                - key.range.start ==> a.operand_index < b.operand_index || (a.operand_index
                == b.operand_index && a.constraint_index <= b.constraint_index))
        }),
{
    let (segment, words, w) = lemma_half(collection, cs, inout, word);
    let all = references(cs.deep_view());
    let refs = word_references(all, word);
    if k < segment.key_ranges@[w].end - segment.key_ranges@[w].start {
        lemma_key(segment, words, w, k);
        let key = segment.keys@[segment.key_ranges@[w].start + k];
        let uses = segment.constraint_indices@.subrange(
            key.range.start as int,
            key.range.end as int,
        );
        lemma_references_order(cs);
        lemma_word_order(all, word);
        lemma_code_order(refs);
        assert(key_constraints(refs, first_codes(refs)[k]).len() > 0);
        lemma_key_order(refs, words[w][k].code);
        if j < uses.len() {
            assert(uses[i] == segment.constraint_indices@[key.range.start + i]);
            assert(uses[j] == segment.constraint_indices@[key.range.start + j]);
        }
    }
}

/// A word's keys differ in the operation or the shift sequence, and come in the order of their
/// first uses: by operation, then by operand position, then by constraint.
pub proof fn law_keys_in_order(
    collection: KeyCollection,
    cs: ConstraintSystem,
    inout: InoutSegment,
    word: int,
    k: int,
    l: int,
)
    requires
        cs.deep_view().valid(),
        cs.zero_constraints@.len() <= u32::MAX + 1,
        cs.and_constraints@.len() <= u32::MAX + 1,
        cs.imul_constraints@.len() <= u32::MAX + 1,
        cs.bmul_constraints@.len() <= u32::MAX + 1,
        collection.represents(cs.deep_view(), inout),
        0 <= word < cs.constants@.len() + cs.n_inout + cs.n_private,
        0 <= k < l,
    ensures
        ({
            let n_public = cs.constants@.len() + if inout is Public {
                cs.n_inout as int
            } else {
                0
            };
            let segment = if word < n_public {
                collection.public
            } else {
                collection.hidden
            };
            let w = if word < n_public {
                word
            } else {
                word - n_public
            };
            let range = segment.key_ranges@[w];
            let key = segment.keys@[range.start + k];
            let later = segment.keys@[range.start + l];
            let a = segment.constraint_indices@[key.range.start as int];
            let b = segment.constraint_indices@[later.range.start as int];
            l < range.end - range.start ==> {
                &&& key.operation != later.operation || key.dense_shift_idx
                    != later.dense_shift_idx
                &&& match key.operation {
                    Operation::Zero => true,
                    Operation::BitwiseAnd => !(later.operation is Zero),
                    Operation::IntegerMul => later.operation is IntegerMul
                        || later.operation is BinMul,
                    Operation::BinMul => later.operation is BinMul,
                }
                &&& key.operation == later.operation ==> a.operand_index < b.operand_index || (
                a.operand_index == b.operand_index && a.constraint_index <= b.constraint_index)
            }
        }),
{
    let (segment, words, w) = lemma_half(collection, cs, inout, word);
    if l < segment.key_ranges@[w].end - segment.key_ranges@[w].start {
        lemma_key(segment, words, w, k);
        lemma_key(segment, words, w, l);
        let key = segment.keys@[segment.key_ranges@[w].start + k];
        let later = segment.keys@[segment.key_ranges@[w].start + l];
        lemma_groups_in_order(cs, word, k, l);
        lemma_key_code_parts(
            key.operation,
            seq_code_model(segment.dense_shift_enc.seqs()[key.dense_shift_idx as int]),
        );
        lemma_key_code_parts(
            later.operation,
            seq_code_model(segment.dense_shift_enc.seqs()[later.dense_shift_idx as int]),
        );
        assert(segment.constraint_indices@.subrange(
            key.range.start as int,
            key.range.end as int,
        )[0] == segment.constraint_indices@[key.range.start as int]);
        assert(segment.constraint_indices@.subrange(
            later.range.start as int,
            later.range.end as int,
        )[0] == segment.constraint_indices@[later.range.start as int]);
    }
}

/// The uses in the two halves together are as many as the terms of all constraints.
pub proof fn law_as_many_uses_as_terms(
    collection: KeyCollection,
    cs: ConstraintSystem,
    inout: InoutSegment,
)
    requires
        cs.deep_view().valid(),
        collection.represents(cs.deep_view(), inout),
    ensures
        collection.public.constraint_indices@.len() + collection.hidden.constraint_indices@.len()
            == cs.zero_constraints@.fold_left(
            0,
            |sum: int, x: ZeroConstraint| sum + x.0@[0]@.len(),
        ) + cs.and_constraints@.fold_left(
            0,
            |sum: int, x: AndConstraint| sum + x.0@[0]@.len() + x.0@[1]@.len() + x.0@[2]@.len(),
        ) + cs.imul_constraints@.fold_left(
            0,
            |sum: int, x: ImulConstraint|
                sum + x.0@[0]@.len() + x.0@[1]@.len() + x.0@[2]@.len() + x.0@[3]@.len(),
        ) + cs.bmul_constraints@.fold_left(
            0,
            |sum: int, x: BmulConstraint|
                sum + x.0@[0]@.len() + x.0@[1]@.len() + x.0@[2]@.len() + x.0@[3]@.len()
                    + x.0@[4]@.len() + x.0@[5]@.len(),
        ),
{
    let csm = cs.deep_view();
    reveal_with_fuel(row_size, 7);
    law_every_use_once(collection, cs, inout);
    lemma_operation_size(csm, Operation::Zero, csm.zero_constraints, 1);
    lemma_operation_size(csm, Operation::BitwiseAnd, csm.and_constraints, 3);
    lemma_operation_size(csm, Operation::IntegerMul, csm.imul_constraints, 4);
    lemma_operation_size(csm, Operation::BinMul, csm.bmul_constraints, 6);
    let zero = cs.zero_constraints@;
    let and = cs.and_constraints@;
    let imul = cs.imul_constraints@;
    let bmul = cs.bmul_constraints@;
    lemma_folded(
        zero,
        |sum: int, x: ZeroConstraint| sum + x.0@[0]@.len(),
        csm.zero_constraints,
        1,
        zero.len() as int,
    );
    lemma_folded(
        and,
        |sum: int, x: AndConstraint| sum + x.0@[0]@.len() + x.0@[1]@.len() + x.0@[2]@.len(),
        csm.and_constraints,
        3,
        and.len() as int,
    );
    lemma_folded(
        imul,
        |sum: int, x: ImulConstraint|
            sum + x.0@[0]@.len() + x.0@[1]@.len() + x.0@[2]@.len() + x.0@[3]@.len(),
        csm.imul_constraints,
        4,
        imul.len() as int,
    );
    lemma_folded(
        bmul,
        |sum: int, x: BmulConstraint|
            sum + x.0@[0]@.len() + x.0@[1]@.len() + x.0@[2]@.len() + x.0@[3]@.len()
                + x.0@[4]@.len() + x.0@[5]@.len(),
        csm.bmul_constraints,
        6,
        bmul.len() as int,
    );
    assert(zero.take(zero.len() as int) =~= zero);
    assert(and.take(and.len() as int) =~= and);
    assert(imul.take(imul.len() as int) =~= imul);
    assert(bmul.take(bmul.len() as int) =~= bmul);
}

/// The public half holds the constants and, if they are public, the words of the interface; the
/// hidden half holds the rest. In each half the words' ranges of keys, and the keys' ranges of uses,
/// follow one another from the first to the last, and the encoding holds the keys' shift sequences,
/// each once and in order, and no other.
pub proof fn law_halves(
    collection: KeyCollection,
    cs: ConstraintSystem,
    inout: InoutSegment,
    segment: KeySegment,
)
    requires
        collection.represents(cs.deep_view(), inout),
        segment == collection.public || segment == collection.hidden,
    ensures
        collection.public.key_ranges@.len() == cs.constants@.len() + if inout is Public {
            cs.n_inout as int
        } else {
            0
        },
        collection.hidden.key_ranges@.len() == cs.n_private + if inout is Public {
            0
        } else {
            cs.n_inout as int
        },
        segment.key_ranges@.len() == 0 ==> segment.keys@.len() == 0,
        segment.key_ranges@.len() > 0 ==> segment.key_ranges@[0].start == 0
            && segment.key_ranges@.last().end == segment.keys@.len(),
        forall|w: int, v: int|
            0 <= w && v == w + 1 && v < segment.key_ranges@.len() ==> (
            #[trigger] segment.key_ranges@[w]).end == (#[trigger] segment.key_ranges@[v]).start,
        segment.keys@.len() == 0 ==> segment.constraint_indices@.len() == 0,
        segment.keys@.len() > 0 ==> segment.keys@[0].range.start == 0
            && segment.keys@.last().range.end == segment.constraint_indices@.len(),
        forall|k: int, l: int|
            0 <= k && l == k + 1 && l < segment.keys@.len() ==> (
            #[trigger] segment.keys@[k]).range.end == (#[trigger] segment.keys@[l]).range.start,
        forall|k: int|
            0 <= k < segment.keys@.len() ==> (#[trigger] segment.keys@[k]).dense_shift_idx
                < segment.dense_shift_enc.seqs().len(),
        forall|seq: [Shift; 2]| #[trigger]
            segment.dense_shift_enc.seqs().contains(seq) ==> exists|k: int|
                0 <= k < segment.keys@.len() && segment.dense_shift_enc.seqs()[(
                #[trigger] segment.keys@[k]).dense_shift_idx as int] == seq,
        forall|i: int, j: int|
            0 <= i < j < segment.dense_shift_enc.seqs().len() ==> ({
                let a = #[trigger] segment.dense_shift_enc.seqs()[i];
                let b = #[trigger] segment.dense_shift_enc.seqs()[j];
                a[1].index_model() * 512 + a[0].index_model() < b[1].index_model() * 512
                    + b[0].index_model()
            }),
{
    if segment == collection.public {
        lemma_tiled(segment, public_groups(cs.deep_view(), inout));
    } else {
        lemma_tiled(segment, hidden_groups(cs.deep_view(), inout));
    }
}

/// A segment that is built from lists of keys has one word per list and one key per item, in order.
/// Each key has its item's operation and shift sequence, and the item's uses by operand position;
/// those of one position keep their order.
pub proof fn law_built_segment(
    segment: KeySegment,
    lists: Seq<Vec<BuilderKey>>,
    w: int,
    k: int,
    p: int,
)
    requires
        segment.represents(finished_words(lists)),
        lists_wf(lists),
        0 <= w < lists.len(),
        0 <= k < lists[w]@.len(),
    ensures
        ({
            let range = segment.key_ranges@[w];
            let key = segment.keys@[range.start + k];
            let item = lists[w]@[k];
            let uses = segment.constraint_indices@.subrange(
                key.range.start as int,
                key.range.end as int,
            );
            &&& segment.key_ranges@.len() == lists.len()
            &&& range.end - range.start == lists[w]@.len()
            &&& range.end <= segment.keys@.len()
            &&& key.operation == item.operation
            &&& key.dense_shift_idx < segment.dense_shift_enc.seqs().len()
            &&& segment.dense_shift_enc.seqs()[key.dense_shift_idx as int] == item.shift_seq
            &&& key.range.start <= key.range.end <= segment.constraint_indices@.len()
            &&& forall|i: int, j: int|
                0 <= i < j < uses.len() ==> (#[trigger] uses[i]).operand_index <= (
                #[trigger] uses[j]).operand_index
            &&& uses.filter(|u: ConstraintIndex| u.operand_index == p)
                == item.constraint_indices@.filter(|u: ConstraintIndex| u.operand_index == p)
        }),
{
    let words = finished_words(lists);
    assert(words[w].len() == lists[w]@.len());
    lemma_key(segment, words, w, k);
    law_word_keys(segment, words, w, k);
    let item = lists[w]@[k];
    let key = segment.keys@[segment.key_ranges@[w].start + k];
    let seq = segment.dense_shift_enc.seqs()[key.dense_shift_idx as int];
    assert(seq_wf(item.shift_seq));
    lemma_key_code_parts(key.operation, seq_code_model(seq));
    lemma_key_code_parts(item.operation, seq_code_model(item.shift_seq));
    lemma_seq_code_injective(seq, item.shift_seq);
    lemma_by_operand(item.constraint_indices@, 256, p);
    if !(0 <= p < 256) {
        lemma_no_choice(
            item.constraint_indices@,
            |u: ConstraintIndex| u.operand_index == p,
        );
    }
}

/// Where two keys of a word have the same first use, the operand decides which comes first: it has a
/// term of the earlier key before every term of the later one. The result tells where.
pub proof fn law_keys_by_term(
    collection: KeyCollection,
    cs: ConstraintSystem,
    inout: InoutSegment,
    word: int,
    segment: KeySegment,
    w: int,
    key: Key,
    later: Key,
    k: int,
    l: int,
    operand: Seq<ShiftedValueIndex>,
    t: int,
) -> (earlier: int)
    requires
        cs.deep_view().valid(),
        cs.zero_constraints@.len() <= u32::MAX + 1,
        cs.and_constraints@.len() <= u32::MAX + 1,
        cs.imul_constraints@.len() <= u32::MAX + 1,
        cs.bmul_constraints@.len() <= u32::MAX + 1,
        collection.represents(cs.deep_view(), inout),
        0 <= word < cs.constants@.len() + cs.n_inout + cs.n_private,
        word < cs.constants@.len() + (if inout is Public {
            cs.n_inout as int
        } else {
            0
        }) ==> segment == collection.public && w == word,
        word >= cs.constants@.len() + (if inout is Public {
            cs.n_inout as int
        } else {
            0
        }) ==> segment == collection.hidden && w == word - cs.constants@.len() - (
        if inout is Public {
            cs.n_inout as int
        } else {
            0
        }),
        0 <= k < l < segment.key_ranges@[w].end - segment.key_ranges@[w].start,
        key == segment.keys@[segment.key_ranges@[w].start + k],
        later == segment.keys@[segment.key_ranges@[w].start + l],
        key.operation == later.operation,
        segment.constraint_indices@[key.range.start as int]
            == segment.constraint_indices@[later.range.start as int],
        ({
            let first = segment.constraint_indices@[key.range.start as int];
            let c = first.constraint_index as int;
            let p = first.operand_index as int;
            operand == match key.operation {
                Operation::Zero => cs.zero_constraints@[c].0@[p]@,
                Operation::BitwiseAnd => cs.and_constraints@[c].0@[p]@,
                Operation::IntegerMul => cs.imul_constraints@[c].0@[p]@,
                Operation::BinMul => cs.bmul_constraints@[c].0@[p]@,
            }
        }),
        0 <= t < operand.len(),
        operand[t].shift_seq == segment.dense_shift_enc.seqs()[later.dense_shift_idx as int],
        word == match operand[t].value_index {
            ValueIndex::Constant(i) => i as int,
            ValueIndex::Inout(i) => cs.constants@.len() + i,
            ValueIndex::Private(i) => cs.constants@.len() + cs.n_inout + i,
            ValueIndex::Scratch(_) => -1,
        },
    ensures
        0 <= earlier < t,
        operand[earlier].shift_seq == segment.dense_shift_enc.seqs()[key.dense_shift_idx as int],
        word == match operand[earlier].value_index {
            ValueIndex::Constant(i) => i as int,
            ValueIndex::Inout(i) => cs.constants@.len() + i,
            ValueIndex::Private(i) => cs.constants@.len() + cs.n_inout + i,
            ValueIndex::Scratch(_) => -1,
        },
{
    let csm = cs.deep_view();
    let (half, words, at) = lemma_half(collection, cs, inout, word);
    assert(half == segment && at == w);
    lemma_key(segment, words, w, k);
    lemma_key(segment, words, w, l);
    lemma_groups_in_order(cs, word, k, l);
    let seq = segment.dense_shift_enc.seqs()[key.dense_shift_idx as int];
    let later_seq = segment.dense_shift_enc.seqs()[later.dense_shift_idx as int];
    let operation = key.operation;
    lemma_key_code_parts(operation, seq_code_model(seq));
    let refs = word_references(references(csm), word);
    let codes = first_codes(refs);
    assert(words[w][k].code == codes[k] && words[w][l].code == codes[l]);
    let uses = key_constraints(refs, codes[k]);
    let first = segment.constraint_indices@[key.range.start as int];
    let c = first.constraint_index as int;
    let p = first.operand_index as int;
    assert(uses == words[w][k].constraints);
    assert(uses[0] == first) by {
        let own = segment.constraint_indices@.subrange(
            key.range.start as int,
            key.range.end as int,
        );
        assert(own[0] == first);
    }
    lemma_use_has_operand(cs, word, operation, seq_code_model(seq), first);
    let model = operand_of(csm, operation, c, p);
    lemma_operand_model(cs, operation, c, p);
    assert(model[t] == operand[t].deep_view());
    assert(csm.word_offset(model[t].value_index) == word);
    assert(model[t].seq_code() == seq_code_model(later_seq));
    let earlier = lemma_earlier_term(cs, word, k, l, operation, c, p, t);
    assert(model[earlier] == operand[earlier].deep_view() && csm.term_valid(model[earlier]));
    lemma_key_code_parts(operation, model[earlier].seq_code());
    assert(model[earlier].seq_code() == seq_code_model(operand[earlier].shift_seq));
    lemma_seq_code_injective(operand[earlier].shift_seq, seq);
    earlier
}

/// A word's keys are those in its range, and a key says its operation, the shift sequence at its
/// place in the encoding, and the uses in its range.
pub proof fn law_keys_of_a_word(segment: KeySegment, w: int, key: Key)
    ensures
        segment.keys_of(w) == segment.keys@.subrange(
            segment.key_ranges@[w].start as int,
            segment.key_ranges@[w].end as int,
        ),
        segment.key_view(key).operation == key.operation,
        segment.key_view(key).shift_seq
            == segment.dense_shift_enc.seqs()[key.dense_shift_idx as int],
        segment.key_view(key).constraints == segment.constraint_indices@.subrange(
            key.range.start as int,
            key.range.end as int,
        ),
        segment.word_view(w).len() == segment.keys_of(w).len(),
        forall|k: int|
            0 <= k < segment.keys_of(w).len() ==> #[trigger] segment.word_view(w)[k]
                == segment.key_view(segment.keys_of(w)[k]),
{
}

} // verus!
