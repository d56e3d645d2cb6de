//! Building a [`KeyCollection`] from a constraint system.
//!
//! The collection is a per-word index over every shifted reference the constraints make. Its
//! layout is fixed by the walk order: operations `Zero, BitwiseAnd, IntegerMul, BinMul`, then
//! operand position, then constraint index. So it is built as a stable counting sort by word: one
//! pass counts the references each word receives, one pass scatters them in walk order, and each
//! word's references are then grouped into keys.

use std::ops::Range;

use vstd::prelude::*;

use crate::constraint_system::{
    constraints_model, lemma_seq_code_injective, seq_code, seq_code_model, seq_wf, Constraint,
    ConstraintSystem, InoutSegment, Shift,
};
use crate::key_collection::collection::KeyCollection;
use crate::key_collection::dense_shift_encoding::{DenseShiftEncoding, SeqTable};
use crate::key_collection::key::{ConstraintIndex, Key, Operation};
use crate::key_collection::key_segment::{key_represents, lemma_segment_unique, KeySegment};
use crate::key_collection::model::{
    count_below, first_codes, flat_constraints, hidden_groups, key_code, key_constraints,
    lemma_count_below_ends, lemma_count_below_monotone, lemma_count_below_step, lemma_first_codes,
    lemma_flat_constraints_add, lemma_flat_constraints_monotone, lemma_flat_constraints_pointwise,
    lemma_flat_constraints_take, lemma_key_code_parts, lemma_no_key_constraints, lemma_single_code,
    lemma_word_groups_size, lemma_word_references_prefix, lemma_word_references_push,
    operand_references, operation_references, position_references, public_groups, references,
    term_reference, word_groups, word_references, KeyGroup, KeyedRef, Reference,
};

verus! {

/// The code of an operation, in two bits.
pub fn operation_code(operation: Operation) -> (code: u8)
    ensures
        code == operation.code_model(),
        code < 4,
{
    match operation {
        Operation::Zero => 0,
        Operation::BitwiseAnd => 1,
        Operation::IntegerMul => 2,
        Operation::BinMul => 3,
    }
}

/// The operation with a code. Every code from 3 on stands for the last operation.
pub fn operation_from_code(code: u8) -> (operation: Operation)
    ensures
        code < 4 ==> operation.code_model() == code,
        code >= 4 ==> operation == Operation::BinMul,
{
    match code {
        0 => Operation::Zero,
        1 => Operation::BitwiseAnd,
        2 => Operation::IntegerMul,
        _ => Operation::BinMul,
    }
}

/// One shifted reference, packed: from the top, the operation (2 bits), the shift sequence (18),
/// the operand position (8) and the constraint index (32).
#[derive(Clone, Copy)]
pub struct PackedRef {
    pub bits: u64,
}

impl PackedRef {
    /// The key that this reference belongs to, and the use that it is.
    pub open spec fn model(self) -> KeyedRef {
        KeyedRef {
            code: ((self.bits >> 40) as u32) as int,
            constraint: ConstraintIndex {
                operand_index: (self.bits >> 32) as u8,
                constraint_index: self.bits as u32,
            },
        }
    }

    /// Whether this is the packed form of a reference.
    pub open spec fn packs(
        self,
        operation: Operation,
        shift_seq: [Shift; 2],
        operand_index: u8,
        constraint_index: u32,
    ) -> bool {
        self.model() == (KeyedRef {
            code: key_code(operation, seq_code_model(shift_seq)),
            constraint: ConstraintIndex { operand_index, constraint_index },
        })
    }

    /// Packs a reference.
    pub fn new(
        operation: Operation,
        shift_seq: [Shift; 2],
        operand_index: u8,
        constraint_index: u32,
    ) -> (packed: Self)
        requires
            seq_wf(shift_seq),
        ensures
            packed.packs(operation, shift_seq, operand_index, constraint_index),
    {
        let seq: u64 = seq_code(shift_seq) as u64;
        let op: u64 = operation_code(operation) as u64;
        let operand: u64 = operand_index as u64;
        let constraint: u64 = constraint_index as u64;
        let bits: u64 = op << 58 | seq << 40 | operand << 32 | constraint;
        assert((bits >> 40) as u32 == op * 262144 + seq && (bits >> 32) as u8 == operand && bits as u32
            == constraint) by (bit_vector)
            requires
                bits == op << 58 | seq << 40 | operand << 32 | constraint,
                op < 4,
                seq < 262144,
                operand < 256,
                constraint < 0x1_0000_0000,
        ;
        PackedRef { bits }
    }

    /// The code of the key that this reference belongs to.
    pub fn key_code(self) -> (code: u32)
        ensures
            code == self.model().code,
    {
        (self.bits >> 40) as u32
    }

    /// The use that this reference is.
    pub fn constraint_index(self) -> (constraint: ConstraintIndex)
        ensures
            constraint == self.model().constraint,
    {
        ConstraintIndex {
            operand_index: (self.bits >> 32) as u8,
            constraint_index: self.bits as u32,
        }
    }
}

/// References belong to one key if and only if they are under one operation and one shift sequence,
/// whatever uses they are; and each gives back its use.
pub proof fn law_packed_references(
    a: PackedRef,
    a_operation: Operation,
    a_seq: [Shift; 2],
    a_use: ConstraintIndex,
    b: PackedRef,
    b_operation: Operation,
    b_seq: [Shift; 2],
    b_use: ConstraintIndex,
)
    requires
        seq_wf(a_seq),
        seq_wf(b_seq),
        a.packs(a_operation, a_seq, a_use.operand_index, a_use.constraint_index),
        b.packs(b_operation, b_seq, b_use.operand_index, b_use.constraint_index),
    ensures
        a.model().code == b.model().code <==> a_operation == b_operation && a_seq == b_seq,
        0 <= a.model().code < 1048576,
        a.model().constraint == a_use,
{
    lemma_key_code_parts(a_operation, seq_code_model(a_seq));
    lemma_key_code_parts(b_operation, seq_code_model(b_seq));
    if a.model().code == b.model().code {
        lemma_seq_code_injective(a_seq, b_seq);
    }
}

/// One step of the walk: a word, the shifts that it is used under, and the packed reference.
#[derive(Clone, Copy)]
struct Visit {
    word: usize,
    shift_seq: [Shift; 2],
    packed: PackedRef,
}

impl Visit {
    spec fn model(self) -> Reference {
        Reference { word: self.word as int, keyed: self.packed.model() }
    }

    /// The packed reference names the visit's own shifts.
    spec fn wf(self, n_words: int) -> bool {
        &&& self.word < n_words
        &&& seq_wf(self.shift_seq)
        &&& self.packed.model().code % 262144 == seq_code_model(self.shift_seq)
        &&& 0 <= self.packed.model().code < 4 * 262144
    }
}

spec fn visits_model(visits: Seq<Visit>) -> Seq<Reference> {
    visits.map_values(|v: Visit| v.model())
}

spec fn visits_wf(visits: Seq<Visit>, n_words: int) -> bool {
    forall|i: int| 0 <= i < visits.len() ==> (#[trigger] visits[i]).wf(n_words)
}

/// Appends the visits of one operation's constraints: operand position first, then constraint
/// index, then the operand's terms.
fn walk<C: Constraint>(
    cs: &ConstraintSystem,
    operation: Operation,
    constraints: &Vec<C>,
    visits: &mut Vec<Visit>,
)
    requires
        cs.deep_view().value_vec_len() <= usize::MAX,
        cs.deep_view().constraints_valid(constraints_model(constraints@)),
        visits_wf(old(visits)@, cs.deep_view().value_vec_len()),
    ensures
        visits_wf(final(visits)@, cs.deep_view().value_vec_len()),
        visits_model(final(visits)@) == visits_model(old(visits)@) + operation_references(
            cs.deep_view(),
            operation,
            constraints_model(constraints@),
            C::arity_model() as int,
        ),
{
    let ghost csm = cs.deep_view();
    let ghost model = constraints_model(constraints@);
    let ghost start = visits_model(visits@);
    let arity: usize = C::arity();
    let mut operand_index: usize = 0;
    assert(start =~= start + operation_references(csm, operation, model, 0));
    while operand_index < arity
        invariant
            csm == cs.deep_view(),
            model == constraints_model(constraints@),
            csm.value_vec_len() <= usize::MAX,
            csm.constraints_valid(model),
            arity == C::arity_model(),
            operand_index <= arity < 256,
            visits_wf(visits@, csm.value_vec_len()),
            visits_model(visits@) == start + operation_references(
                csm,
                operation,
                model,
                operand_index as int,
            ),
        decreases arity - operand_index,
    {
        let ghost outer = visits_model(visits@);
        let mut constraint_index: usize = 0;
        assert(outer =~= outer + position_references(
            csm,
            operation,
            operand_index as int,
            model,
            0,
        ));
        while constraint_index < constraints.len()
            invariant
                csm == cs.deep_view(),
                model == constraints_model(constraints@),
                csm.value_vec_len() <= usize::MAX,
                csm.constraints_valid(model),
                arity == C::arity_model(),
                operand_index < arity < 256,
                constraint_index <= constraints@.len(),
                visits_wf(visits@, csm.value_vec_len()),
                visits_model(visits@) == outer + position_references(
                    csm,
                    operation,
                    operand_index as int,
                    model,
                    constraint_index as int,
                ),
            decreases constraints@.len() - constraint_index,
        {
            let ghost inner = visits_model(visits@);
            let operand = constraints[constraint_index].operand(operand_index);
            let ghost terms = model[constraint_index as int][operand_index as int];
            assert(operand.deep_view() == terms);
            let ghost all = operand_references(
                csm,
                operation,
                operand_index as int,
                constraint_index as int,
                terms,
            );
            let mut t: usize = 0;
            assert(inner =~= inner + all.take(0));
            while t < operand.len()
                invariant
                    csm == cs.deep_view(),
                    csm.value_vec_len() <= usize::MAX,
                    csm.constraints_valid(model),
                    0 <= constraint_index < model.len(),
                    0 <= operand_index < model[constraint_index as int].len(),
                    operand_index < 256,
                    terms == model[constraint_index as int][operand_index as int],
                    operand.deep_view() == terms,
                    all == operand_references(
                        csm,
                        operation,
                        operand_index as int,
                        constraint_index as int,
                        terms,
                    ),
                    t <= operand@.len(),
                    visits_wf(visits@, csm.value_vec_len()),
                    visits_model(visits@) == inner + all.take(t as int),
                decreases operand@.len() - t,
            {
                let term = operand[t];
                assert(terms[t as int] == term.deep_view());
                assert(csm.term_valid(model[constraint_index as int][operand_index as int][t as int]));
                let word: usize = cs.word_offset(term.value_index);
                let packed = PackedRef::new(
                    operation,
                    term.shift_seq,
                    operand_index as u8,
                    constraint_index as u32,
                );
                let visit = Visit { word, shift_seq: term.shift_seq, packed };
                assert(visit.model() == term_reference(
                    csm,
                    operation,
                    operand_index as int,
                    constraint_index as int,
                    terms[t as int],
                ));
                let ghost before = visits@;
                visits.push(visit);
                assert(visits_model(visits@) =~= visits_model(before).push(visit.model()));
                assert(all.take(t + 1) =~= all.take(t as int).push(all[t as int]));
                assert(visits_model(visits@) =~= inner + all.take(t + 1));
                t += 1;
            }
            assert(all.take(t as int) =~= all);
            assert(visits_model(visits@) =~= outer + position_references(
                csm,
                operation,
                operand_index as int,
                model,
                constraint_index + 1,
            ));
            constraint_index += 1;
        }
        assert(visits_model(visits@) =~= start + operation_references(
            csm,
            operation,
            model,
            operand_index + 1,
        ));
        operand_index += 1;
    }
}

/// Every shifted reference of the constraint system, in walk order: operations `Zero, BitwiseAnd,
/// IntegerMul, BinMul`; within one, operand position first, then constraint index, then the
/// operand's terms.
fn visit_references(cs: &ConstraintSystem) -> (visits: Vec<Visit>)
    requires
        cs.deep_view().valid(),
    ensures
        visits_wf(visits@, cs.deep_view().value_vec_len()),
        visits_model(visits@) == references(cs.deep_view()),
{
    let mut visits: Vec<Visit> = Vec::new();
    assert(visits_model(visits@) =~= Seq::empty());
    walk(cs, Operation::Zero, &cs.zero_constraints, &mut visits);
    walk(cs, Operation::BitwiseAnd, &cs.and_constraints, &mut visits);
    walk(cs, Operation::IntegerMul, &cs.imul_constraints, &mut visits);
    walk(cs, Operation::BinMul, &cs.bmul_constraints, &mut visits);
    assert(visits_model(visits@) =~= references(cs.deep_view()));
    visits
}

/// The shift sequences that the references use.
fn note_sequences(visits: &Vec<Visit>, n_words: Ghost<int>) -> (seqs: SeqTable)
    requires
        visits_wf(visits@, n_words@),
    ensures
        seqs.wf(),
        forall|i: int|
            0 <= i < visits@.len() ==> seqs.noted((#[trigger] visits@[i]).model().keyed.code % 262144),
{
    let mut seqs = SeqTable::new();
    let mut i: usize = 0;
    while i < visits.len()
        invariant
            visits_wf(visits@, n_words@),
            i <= visits@.len(),
            seqs.wf(),
            forall|k: int|
                0 <= k < i ==> seqs.noted((#[trigger] visits@[k]).model().keyed.code % 262144),
        decreases visits@.len() - i,
    {
        assert(visits@[i as int].wf(n_words@));
        seqs.note(visits[i].shift_seq);
        i += 1;
    }
    seqs
}

/// For each word, the number of references to the words before it; at the end, the number of
/// references in all.
fn word_offsets(visits: &Vec<Visit>, n_words: usize) -> (offsets: Vec<usize>)
    requires
        visits_wf(visits@, n_words as int),
        n_words < usize::MAX,
    ensures
        offsets@.len() == n_words + 1,
        forall|w: int|
            0 <= w <= n_words ==> #[trigger] offsets@[w] == count_below(visits_model(visits@), w),
{
    let ghost refs = visits_model(visits@);
    let mut offsets: Vec<usize> = Vec::with_capacity(n_words + 1);
    let mut w: usize = 0;
    while w < n_words + 1
        invariant
            n_words < usize::MAX,
            w <= n_words + 1,
            offsets@.len() == w,
            forall|w: int| 0 <= w < offsets@.len() ==> #[trigger] offsets@[w] == 0,
        decreases n_words + 1 - w,
    {
        offsets.push(0);
        w += 1;
    }
    let mut i: usize = 0;
    assert forall|w: int| 0 <= w < n_words implies #[trigger] word_references(
        refs.take(0),
        w,
    ).len() == 0 by {
        refs.take(0).lemma_filter_len(|r: Reference| r.word == w);
    }
    while i < visits.len()
        invariant
            refs == visits_model(visits@),
            visits_wf(visits@, n_words as int),
            i <= visits@.len(),
            n_words < usize::MAX,
            offsets@.len() == n_words + 1,
            offsets@[0] == 0,
            forall|w: int|
                0 <= w < n_words ==> offsets@[w + 1] == #[trigger] word_references(
                    refs.take(i as int),
                    w,
                ).len(),
        decreases visits@.len() - i,
    {
        assert(visits@[i as int].wf(n_words as int));
        let word: usize = visits[i].word;
        let ghost before = offsets@;
        proof {
            refs.take(i as int).lemma_filter_len(|r: Reference| r.word == word as int);
            assert(before[word + 1] == word_references(refs.take(i as int), word as int).len());
        }
        offsets.set(word + 1, offsets[word + 1] + 1);
        proof {
            assert(refs.take(i + 1) =~= refs.take(i as int).push(refs[i as int]));
            assert forall|w: int| 0 <= w < n_words implies offsets@[w + 1]
                == #[trigger] word_references(refs.take(i + 1), w).len() by {
                lemma_word_references_push(refs.take(i as int), refs[i as int], w);
                assert(before[w + 1] == word_references(refs.take(i as int), w).len());
            }
        }
        i += 1;
    }
    assert(refs.take(i as int) =~= refs);
    proof {
        assert forall|k: int| 0 <= k < refs.len() implies 0 <= (#[trigger] refs[k]).word < n_words by {
            assert(visits@[k].wf(n_words as int));
        }
        lemma_count_below_ends(refs, n_words as int);
    }
    let mut v: usize = 0;
    while v < n_words
        invariant
            v <= n_words,
            n_words < usize::MAX,
            refs.len() <= usize::MAX,
            offsets@.len() == n_words + 1,
            count_below(refs, n_words as int) == refs.len(),
            forall|w: int| 0 <= w <= v ==> #[trigger] offsets@[w] == count_below(refs, w),
            forall|w: int|
                v <= w < n_words ==> offsets@[w + 1] == #[trigger] word_references(refs, w).len(),
        decreases n_words - v,
    {
        proof {
            lemma_count_below_step(refs, v as int);
            lemma_count_below_monotone(refs, v + 1, n_words as int);
            assert(offsets@[v + 1] == word_references(refs, v as int).len());
        }
        let ghost before = offsets@;
        offsets.set(v + 1, offsets[v + 1] + offsets[v]);
        assert forall|w: int| v + 1 <= w < n_words implies offsets@[w + 1]
            == #[trigger] word_references(refs, w).len() by {
            assert(before[w + 1] == word_references(refs, w).len());
        }
        v += 1;
    }
    offsets
}

/// What packed references stand for.
pub open spec fn packed_model(refs: Seq<PackedRef>) -> Seq<KeyedRef> {
    refs.map_values(|r: PackedRef| r.model())
}

/// Puts every reference into its word's slots, in walk order.
fn scatter(visits: &Vec<Visit>, offsets: &Vec<usize>, n_words: usize) -> (refs: Vec<PackedRef>)
    requires
        visits_wf(visits@, n_words as int),
        n_words < usize::MAX,
        offsets@.len() == n_words + 1,
        forall|w: int|
            0 <= w <= n_words ==> #[trigger] offsets@[w] == count_below(visits_model(visits@), w),
    ensures
        refs@.len() == visits@.len(),
        forall|w: int|
            0 <= w < n_words ==> packed_model(
                refs@.subrange(offsets@[w] as int, offsets@[w + 1] as int),
            ) == #[trigger] word_references(visits_model(visits@), w),
{
    let ghost all = visits_model(visits@);
    let ghost n = n_words as int;
    proof {
        assert forall|k: int| 0 <= k < all.len() implies 0 <= (#[trigger] all[k]).word < n by {
            assert(visits@[k].wf(n));
        }
        lemma_count_below_ends(all, n);
    }
    let mut refs: Vec<PackedRef> = Vec::with_capacity(visits.len());
    let mut i: usize = 0;
    while i < visits.len()
        invariant
            i <= visits@.len(),
            refs@.len() == i,
        decreases visits@.len() - i,
    {
        refs.push(PackedRef { bits: 0 });
        i += 1;
    }
    let mut cursors: Vec<usize> = Vec::with_capacity(n_words);
    let mut v: usize = 0;
    while v < n_words
        invariant
            v <= n_words,
            offsets@.len() == n_words + 1,
            cursors@.len() == v,
            forall|w: int| 0 <= w < v ==> #[trigger] cursors@[w] == offsets@[w],
        decreases n_words - v,
    {
        cursors.push(offsets[v]);
        v += 1;
    }
    let mut p: usize = 0;
    assert forall|w: int| 0 <= w < n implies (#[trigger] word_references(all.take(0), w)).len()
        == 0 by {
        all.take(0).lemma_filter_len(|r: Reference| r.word == w);
    }
    while p < visits.len()
        invariant
            n == n_words,
            all == visits_model(visits@),
            visits_wf(visits@, n),
            p <= visits@.len(),
            refs@.len() == visits@.len(),
            cursors@.len() == n_words,
            count_below(all, n) == all.len(),
            forall|w: int|
                0 <= w < n ==> #[trigger] cursors@[w] == count_below(all, w) + word_references(
                    all.take(p as int),
                    w,
                ).len(),
            forall|w: int, t: int|
                0 <= w < n && 0 <= t < word_references(all.take(p as int), w).len()
                    ==> refs@[count_below(all, w) + t].model() == #[trigger] word_references(
                    all.take(p as int),
                    w,
                )[t],
        decreases visits@.len() - p,
    {
        assert(visits@[p as int].wf(n));
        let word: usize = visits[p].word;
        let ghost prefix = all.take(p as int);
        let ghost next = all.take(p + 1);
        let ghost before = refs@;
        let ghost cursors_before = cursors@;
        proof {
            assert(next =~= prefix.push(all[p as int]));
            lemma_word_references_push(prefix, all[p as int], word as int);
            lemma_word_references_prefix(all, p + 1, word as int);
            lemma_count_below_step(all, word as int);
            lemma_count_below_monotone(all, word + 1, n);
            assert(cursors@[word as int] == count_below(all, word as int) + word_references(
                prefix,
                word as int,
            ).len());
        }
        let slot: usize = cursors[word];
        refs.set(slot, visits[p].packed);
        cursors.set(word, slot + 1);
        proof {
            assert forall|w: int| 0 <= w < n implies #[trigger] cursors@[w] == count_below(all, w)
                + word_references(next, w).len() by {
                lemma_word_references_push(prefix, all[p as int], w);
                assert(cursors_before[w] == count_below(all, w) + word_references(
                    prefix,
                    w,
                ).len());
            }
            assert forall|w: int, t: int|
                0 <= w < n && 0 <= t < word_references(next, w).len() implies refs@[count_below(
                all,
                w,
            ) + t].model() == #[trigger] word_references(next, w)[t] by {
                lemma_word_references_push(prefix, all[p as int], w);
                lemma_word_references_prefix(all, p + 1, w);
                lemma_count_below_step(all, w);
                lemma_count_below_monotone(all, w + 1, n);
                if w < word {
                    lemma_count_below_monotone(all, w + 1, word as int);
                    assert(before[count_below(all, w) + t].model() == word_references(prefix, w)[t]);
                } else if w > word {
                    lemma_count_below_monotone(all, word + 1, w);
                    assert(before[count_below(all, w) + t].model() == word_references(prefix, w)[t]);
                } else if t < word_references(prefix, w).len() {
                    assert(before[count_below(all, w) + t].model() == word_references(prefix, w)[t]);
                } else {
                    assert(slot == count_below(all, w) + t);
                    assert(all[p as int] == visits@[p as int].model());
                }
            }
        }
        p += 1;
    }
    proof {
        assert(all.take(p as int) =~= all);
        assert forall|w: int| 0 <= w < n implies packed_model(
            refs@.subrange(offsets@[w] as int, offsets@[w + 1] as int),
        )
            == #[trigger] word_references(all, w) by {
            lemma_count_below_step(all, w);
            lemma_count_below_monotone(all, w + 1, n);
            let part = refs@.subrange(offsets@[w] as int, offsets@[w + 1] as int);
            assert forall|t: int| 0 <= t < part.len() implies packed_model(part)[t]
                == word_references(all, w)[t] by {
                assert(refs@[count_below(all, w) + t].model() == word_references(all, w)[t]);
            }
            assert(packed_model(part) =~= word_references(all, w));
        }
    }
    refs
}

/// The keys of consecutive words, before their ranges are laid over the segment.
struct GroupedKeys {
    /// The key's code and its number of references, word by word in first-appearance order.
    keys: Vec<(u32, u32)>,
    /// The number of keys of each word.
    keys_per_word: Vec<u32>,
    /// The references, laid out key by key.
    constraint_indices: Vec<ConstraintIndex>,
}

/// The code and the number of uses of each group.
spec fn key_counts(groups: Seq<KeyGroup>) -> Seq<(u32, u32)> {
    groups.map_values(|g: KeyGroup| (g.code as u32, g.constraints.len() as u32))
}

/// Whether a list holds, for the codes of some references, the codes and their counts.
spec fn counts_codes(counts: Seq<(u32, u32)>, refs: Seq<KeyedRef>) -> bool {
    &&& counts.len() == first_codes(refs).len()
    &&& forall|k: int|
        0 <= k < counts.len() ==> (#[trigger] counts[k]).0 == first_codes(refs)[k] && counts[k].1
            == key_constraints(refs, first_codes(refs)[k]).len()
}

/// The place of a code in a list of codes and counts, or the list's length where it is not there.
fn find_code(counts: &Vec<(u32, u32)>, code: u32) -> (at: usize)
    ensures
        at <= counts@.len(),
        at < counts@.len() ==> counts@[at as int].0 == code,
        forall|k: int| 0 <= k < at ==> (#[trigger] counts@[k]).0 != code,
{
    let mut at: usize = 0;
    while at < counts.len()
        invariant
            at <= counts@.len(),
            forall|k: int| 0 <= k < at ==> (#[trigger] counts@[k]).0 != code,
        ensures
            at <= counts@.len(),
            at < counts@.len() ==> counts@[at as int].0 == code,
            forall|k: int| 0 <= k < at ==> (#[trigger] counts@[k]).0 != code,
        decreases counts@.len() - at,
    {
        if counts[at].0 == code {
            break;
        }
        at += 1;
    }
    at
}

/// One key's uses are no more than all.
proof fn lemma_key_constraints_len(refs: Seq<KeyedRef>, code: int)
    ensures
        key_constraints(refs, code).len() <= refs.len(),
    decreases refs.len(),
{
    if refs.len() > 0 {
        lemma_key_constraints_len(refs.drop_last(), code);
    }
}

/// Counts a word's references by key, in first-appearance order.
fn count_codes(refs: &[PackedRef], counts: &mut Vec<(u32, u32)>)
    requires
        refs@.len() <= u32::MAX,
    ensures
        counts_codes(final(counts)@, packed_model(refs@)),
{
    let ghost all = packed_model(refs@);
    counts.clear();
    let mut p: usize = 0;
    assert(all.take(0) =~= Seq::empty());
    while p < refs.len()
        invariant
            all == packed_model(refs@),
            refs@.len() <= u32::MAX,
            p <= refs@.len(),
            counts_codes(counts@, all.take(p as int)),
        decreases refs@.len() - p,
    {
        let code: u32 = refs[p].key_code();
        let ghost prefix = all.take(p as int);
        let ghost next = all.take(p + 1);
        let ghost codes = first_codes(prefix);
        proof {
            assert(next.drop_last() =~= prefix);
            assert(next.last() == refs@[p as int].model());
            lemma_first_codes(prefix);
        }
        let at: usize = find_code(counts, code);
        if at < counts.len() {
            proof {
                lemma_key_constraints_len(prefix, code as int);
                assert(codes[at as int] == code);
                assert(codes.contains(code as int));
                assert(first_codes(next) == codes);
            }
            let count: (u32, u32) = counts[at];
            counts.set(at, (count.0, count.1 + 1));
        } else {
            proof {
                assert forall|k: int| 0 <= k < codes.len() implies codes[k] != code by {
                    assert(counts@[k].0 != code);
                }
                assert(!codes.contains(code as int));
                lemma_no_key_constraints(prefix, code as int);
                assert(first_codes(next) == codes.push(code as int));
            }
            counts.push((code, 1));
        }
        p += 1;
    }
    assert(all.take(p as int) =~= all);
}

/// Groups one word's references, which are in walk order, into keys in first-appearance order,
/// keeping walk order inside each key. Appends to `out`; `scratch` is reused across words.
fn group_word(refs: &[PackedRef], out: &mut GroupedKeys, scratch: &mut Vec<(u32, u32)>)
    requires
        refs@.len() <= u32::MAX,
        old(out).constraint_indices@.len() + refs@.len() <= usize::MAX,
    ensures
        final(out).keys@ == old(out).keys@ + key_counts(word_groups(packed_model(refs@))),
        final(out).keys_per_word@ == old(out).keys_per_word@.push(
            word_groups(packed_model(refs@)).len() as u32,
        ),
        final(out).constraint_indices@ == old(out).constraint_indices@ + flat_constraints(
            word_groups(packed_model(refs@)),
        ),
        word_groups(packed_model(refs@)).len() <= refs@.len(),
{
    let ghost all = packed_model(refs@);
    let ghost groups = word_groups(all);
    let ghost codes = first_codes(all);
    count_codes(refs, scratch);
    proof {
        lemma_first_codes(all);
        lemma_word_groups_size(all);
    }
    let n_keys: usize = scratch.len();
    out.keys_per_word.push(n_keys as u32);
    if n_keys == 1 {
        // Every reference belongs to the one key.
        let mut p: usize = 0;
        let ghost base = out.constraint_indices@;
        assert(base =~= base + all.take(0).map_values(|r: KeyedRef| r.constraint));
        while p < refs.len()
            invariant
                all == packed_model(refs@),
                p <= refs@.len(),
                out.keys_per_word@ == old(out).keys_per_word@.push(n_keys as u32),
                out.keys@ == old(out).keys@,
                out.constraint_indices@ == base + all.take(p as int).map_values(
                    |r: KeyedRef| r.constraint,
                ),
            decreases refs@.len() - p,
        {
            out.constraint_indices.push(refs[p].constraint_index());
            assert(out.constraint_indices@ =~= base + all.take(p + 1).map_values(
                |r: KeyedRef| r.constraint,
            ));
            p += 1;
        }
        proof {
            assert(all.take(p as int) =~= all);
            assert forall|i: int| 0 <= i < all.len() implies #[trigger] all[i].code == codes[0] by {
                assert(codes.contains(all[i].code));
            }
            lemma_single_code(all, codes[0]);
            assert(groups.drop_last() =~= Seq::empty());
            assert(flat_constraints(groups) =~= groups.last().constraints);
        }
    } else {
        place_references(refs, scratch, &mut out.constraint_indices);
    }
    // The scratch list holds the codes and the counts of the word's keys.
    let mut k: usize = 0;
    let ghost keys_before = out.keys@;
    assert(keys_before =~= keys_before + scratch@.take(0));
    while k < scratch.len()
        invariant
            k <= scratch@.len(),
            out.keys_per_word@ == old(out).keys_per_word@.push(n_keys as u32),
            out.constraint_indices@ == old(out).constraint_indices@ + flat_constraints(groups),
            out.keys@ == keys_before + scratch@.take(k as int),
        decreases scratch@.len() - k,
    {
        out.keys.push(scratch[k]);
        assert(out.keys@ =~= keys_before + scratch@.take(k + 1));
        k += 1;
    }
    proof {
        assert(scratch@.take(k as int) =~= key_counts(groups)) by {
            assert forall|j: int| 0 <= j < scratch@.len() implies scratch@[j] == key_counts(
                groups,
            )[j] by {
                lemma_key_constraints_len(all, codes[j]);
            }
        }
    }
}

/// Appends a word's references key by key: each goes to its key's next slot, so that walk order is
/// kept inside each key.
fn place_references(
    refs: &[PackedRef],
    counts: &Vec<(u32, u32)>,
    constraint_indices: &mut Vec<ConstraintIndex>,
)
    requires
        refs@.len() <= u32::MAX,
        old(constraint_indices)@.len() + refs@.len() <= usize::MAX,
        counts_codes(counts@, packed_model(refs@)),
    ensures
        final(constraint_indices)@ == old(constraint_indices)@ + flat_constraints(
            word_groups(packed_model(refs@)),
        ),
{
    let ghost all = packed_model(refs@);
    let ghost groups = word_groups(all);
    let ghost codes = first_codes(all);
    let ghost prior = constraint_indices@;
    let base: usize = constraint_indices.len();
    proof {
        lemma_first_codes(all);
        lemma_word_groups_size(all);
    }
    let mut cursors: Vec<u32> = Vec::with_capacity(counts.len());
    let mut start: u32 = 0;
    let mut k: usize = 0;
    assert(groups.take(0) =~= Seq::empty());
    while k < counts.len()
        invariant
            all == packed_model(refs@),
            groups == word_groups(all),
            codes == first_codes(all),
            counts_codes(counts@, all),
            flat_constraints(groups).len() == all.len() <= u32::MAX,
            k <= counts@.len(),
            cursors@.len() == k,
            start == flat_constraints(groups.take(k as int)).len(),
            forall|j: int|
                0 <= j < k ==> #[trigger] cursors@[j] == flat_constraints(groups.take(j)).len(),
        decreases counts@.len() - k,
    {
        proof {
            lemma_flat_constraints_take(groups, k as int);
        }
        cursors.push(start);
        start = start + counts[k].1;
        k += 1;
    }
    let mut filled: usize = 0;
    while filled < refs.len()
        invariant
            filled <= refs@.len(),
            base == prior.len(),
            base + refs@.len() <= usize::MAX,
            constraint_indices@.len() == base + filled,
            constraint_indices@.take(base as int) == prior,
        decreases refs@.len() - filled,
    {
        constraint_indices.push(ConstraintIndex { operand_index: 0, constraint_index: 0 });
        assert(constraint_indices@.take(base as int) =~= prior);
        filled += 1;
    }
    let mut p: usize = 0;
    assert(all.take(0) =~= Seq::empty());
    while p < refs.len()
        invariant
            all == packed_model(refs@),
            groups == word_groups(all),
            codes == first_codes(all),
            codes.no_duplicates(),
            counts_codes(counts@, all),
            forall|i: int| 0 <= i < all.len() ==> codes.contains(#[trigger] all[i].code),
            flat_constraints(groups).len() == all.len() <= u32::MAX,
            p <= refs@.len(),
            base == prior.len(),
            base + refs@.len() <= usize::MAX,
            constraint_indices@.len() == base + refs@.len(),
            constraint_indices@.take(base as int) == prior,
            cursors@.len() == codes.len(),
            forall|j: int|
                0 <= j < codes.len() ==> #[trigger] cursors@[j] == flat_constraints(
                    groups.take(j),
                ).len() + key_constraints(all.take(p as int), codes[j]).len(),
            forall|j: int, t: int|
                0 <= j < codes.len() && 0 <= t < key_constraints(
                    all.take(p as int),
                    codes[j],
                ).len() ==> constraint_indices@[base + flat_constraints(groups.take(j)).len() + t]
                    == #[trigger] key_constraints(all.take(p as int), codes[j])[t],
        decreases refs@.len() - p,
    {
        let code: u32 = refs[p].key_code();
        let at: usize = find_code(counts, code);
        let ghost prefix = all.take(p as int);
        let ghost next = all.take(p + 1);
        let ghost before = constraint_indices@;
        let ghost cursors_before = cursors@;
        proof {
            assert(next.drop_last() =~= prefix);
            assert(next.last() == all[p as int]);
            assert(all[p as int].code == code);
            let j = choose|j: int| 0 <= j < codes.len() && codes[j] == code;
            assert(counts@[j].0 == code);
            assert(at < counts@.len());
            assert(codes[at as int] == code);
            lemma_key_constraints_prefix(all, p + 1, code as int);
            lemma_flat_constraints_take(groups, at as int);
            assert(cursors@[at as int] == flat_constraints(groups.take(at as int)).len()
                + key_constraints(prefix, codes[at as int]).len());
        }
        let slot: usize = base + cursors[at] as usize;
        constraint_indices.set(slot, refs[p].constraint_index());
        cursors.set(at, cursors[at] + 1);
        proof {
            assert(constraint_indices@.take(base as int) =~= prior);
            assert forall|j: int| 0 <= j < codes.len() implies #[trigger] cursors@[j]
                == flat_constraints(groups.take(j)).len() + key_constraints(next, codes[j]).len() by {
                assert(cursors_before[j] == flat_constraints(groups.take(j)).len()
                    + key_constraints(prefix, codes[j]).len());
                if j != at {
                    assert(codes[j] != code);
                }
            }
            assert forall|j: int, t: int|
                0 <= j < codes.len() && 0 <= t < key_constraints(
                    next,
                    codes[j],
                ).len() implies constraint_indices@[base + flat_constraints(groups.take(j)).len()
                + t] == #[trigger] key_constraints(next, codes[j])[t] by {
                lemma_key_constraints_prefix(all, p + 1, codes[j]);
                lemma_flat_constraints_take(groups, j);
                if j < at {
                    assert(codes[j] != code);
                    lemma_flat_constraints_monotone(groups, j + 1, at as int);
                    assert(before[base + flat_constraints(groups.take(j)).len() + t]
                        == key_constraints(prefix, codes[j])[t]);
                } else if j > at {
                    assert(codes[j] != code);
                    lemma_flat_constraints_monotone(groups, at + 1, j);
                    assert(before[base + flat_constraints(groups.take(j)).len() + t]
                        == key_constraints(prefix, codes[j])[t]);
                } else if t < key_constraints(prefix, codes[j]).len() {
                    assert(before[base + flat_constraints(groups.take(j)).len() + t]
                        == key_constraints(prefix, codes[j])[t]);
                }
            }
        }
        p += 1;
    }
    proof {
        assert(all.take(p as int) =~= all);
        let placed = constraint_indices@.skip(base as int);
        assert forall|j: int, t: int|
            0 <= j < groups.len() && 0 <= t
                < groups[j].constraints.len() implies placed[flat_constraints(
            groups.take(j),
        ).len() + t] == #[trigger] groups[j].constraints[t] by {
            lemma_flat_constraints_take(groups, j);
            assert(constraint_indices@[base + flat_constraints(groups.take(j)).len() + t]
                == key_constraints(all, codes[j])[t]);
        }
        lemma_flat_constraints_pointwise(groups, placed);
        assert(constraint_indices@ =~= prior + placed);
    }
}

/// A prefix has no more uses under a code than the whole.
proof fn lemma_key_constraints_prefix(refs: Seq<KeyedRef>, n: int, code: int)
    requires
        0 <= n <= refs.len(),
    ensures
        key_constraints(refs.take(n), code).len() <= key_constraints(refs, code).len(),
    decreases refs.len() - n,
{
    if n < refs.len() {
        lemma_key_constraints_prefix(refs, n + 1, code);
        assert(refs.take(n + 1).drop_last() =~= refs.take(n));
    } else {
        assert(refs.take(n) =~= refs);
    }
}

/// Whether a key's code has an operation, and a shift sequence that was seen.
spec fn code_known(code: int, seqs: SeqTable) -> bool {
    0 <= code < 4 * 262144 && seqs.noted(code % 262144)
}

/// The groups of the words `first..last`, from their slots.
pub open spec fn slot_groups(
    offsets: Seq<usize>,
    first: int,
    last: int,
    refs: Seq<PackedRef>,
) -> Seq<Seq<KeyGroup>> {
    Seq::new(
        (last - first) as nat,
        |w: int|
            word_groups(
                packed_model(
                    refs.subrange(offsets[first + w] as int, offsets[first + w + 1] as int),
                ),
            ),
    )
}

/// Groups the references of the words `first..last`.
fn group_words(
    offsets: &Vec<usize>,
    first: usize,
    last: usize,
    refs: &Vec<PackedRef>,
    seqs: &SeqTable,
) -> (out: GroupedKeys)
    requires
        first <= last < offsets@.len(),
        forall|w: int|
            first <= w < last ==> #[trigger] offsets@[w] <= offsets@[w + 1] <= refs@.len(),
        refs@.len() <= u32::MAX,
        forall|i: int|
            0 <= i < refs@.len() ==> code_known((#[trigger] refs@[i]).model().code, *seqs),
    ensures
        ({
            let words = slot_groups(offsets@, first as int, last as int, refs@);
            let groups = words.flatten();
            &&& out.keys@ == key_counts(groups)
            &&& out.keys_per_word@ == words.map_values(|g: Seq<KeyGroup>| g.len() as u32)
            &&& out.constraint_indices@ == flat_constraints(groups)
            &&& groups.len() <= u32::MAX
            &&& flat_constraints(groups).len() <= u32::MAX
            &&& forall|k: int| 0 <= k < groups.len() ==> code_known((#[trigger] groups[k]).code, *seqs)
            &&& forall|w: int| 0 <= w < words.len() ==> (#[trigger] words[w]).len() <= u32::MAX
        }),
{
    let ghost words = slot_groups(offsets@, first as int, last as int, refs@);
    let mut out = GroupedKeys {
        keys: Vec::new(),
        keys_per_word: Vec::with_capacity(last - first),
        constraint_indices: Vec::new(),
    };
    let mut scratch: Vec<(u32, u32)> = Vec::with_capacity(32);
    let mut w: usize = first;
    proof {
        assert(words.take(0) =~= Seq::empty());
        assert(out.keys@ =~= key_counts(words.take(0).flatten()));
        assert(out.keys_per_word@ =~= words.take(0).map_values(|g: Seq<KeyGroup>| g.len() as u32));
        assert(out.constraint_indices@ =~= flat_constraints(words.take(0).flatten()));
    }
    while w < last
        invariant
            first <= w <= last < offsets@.len(),
            forall|w: int|
                first <= w < last ==> #[trigger] offsets@[w] <= offsets@[w + 1] <= refs@.len(),
            refs@.len() <= u32::MAX,
            forall|i: int|
                0 <= i < refs@.len() ==> code_known((#[trigger] refs@[i]).model().code, *seqs),
            words == slot_groups(offsets@, first as int, last as int, refs@),
            out.keys@ == key_counts(words.take(w - first).flatten()),
            out.keys_per_word@ == words.take(w - first).map_values(
                |g: Seq<KeyGroup>| g.len() as u32,
            ),
            out.constraint_indices@ == flat_constraints(words.take(w - first).flatten()),
            words.take(w - first).flatten().len() + offsets@[first as int] <= offsets@[w as int],
            flat_constraints(words.take(w - first).flatten()).len() + offsets@[first as int]
                == offsets@[w as int],
            w > first ==> offsets@[w as int] <= refs@.len(),
            forall|k: int|
                0 <= k < words.take(w - first).flatten().len() ==> code_known(
                    (#[trigger] words.take(w - first).flatten()[k]).code,
                    *seqs,
                ),
            forall|v: int| 0 <= v < w - first ==> (#[trigger] words[v]).len() <= u32::MAX,
        decreases last - w,
    {
        let ghost i = w - first;
        let ghost part = refs@.subrange(offsets@[w as int] as int, offsets@[w + 1] as int);
        assert(offsets@[w as int] <= offsets@[w + 1] <= refs@.len());
        assert(words[i] == word_groups(packed_model(part)));
        let ghost before = words.take(i).flatten();
        proof {
            assert(words.take(i + 1) =~= words.take(i).push(words[i]));
            words.take(i).lemma_flatten_push(words[i]);
            lemma_flat_constraints_add(before, words[i]);
            lemma_word_groups_size(packed_model(part));
            lemma_first_codes(packed_model(part));
        }
        group_word(
            vstd::slice::slice_subrange(refs.as_slice(), offsets[w], offsets[w + 1]),
            &mut out,
            &mut scratch,
        );
        proof {
            let after = words.take(i + 1).flatten();
            assert(after == before + words[i]);
            assert(out.keys@ =~= key_counts(after));
            assert(out.keys_per_word@ =~= words.take(i + 1).map_values(
                |g: Seq<KeyGroup>| g.len() as u32,
            ));
            assert forall|k: int| 0 <= k < after.len() implies code_known(
                (#[trigger] after[k]).code,
                *seqs,
            ) by {
                if k < before.len() {
                    assert(after[k] == before[k]);
                } else {
                    let codes = first_codes(packed_model(part));
                    let code = codes[k - before.len()];
                    assert(after[k].code == code);
                    assert(codes.contains(code));
                    let j = choose|j: int|
                        0 <= j < packed_model(part).len() && #[trigger] packed_model(part)[j].code
                            == code;
                    assert(refs@[offsets@[w as int] + j] == part[j]);
                }
            }
        }
        w += 1;
    }
    assert(words.take(last - first) =~= words);
    out
}

/// Builds one segment from the slots of the words `first..last`.
fn build_segment(
    offsets: &Vec<usize>,
    first: usize,
    last: usize,
    refs: &Vec<PackedRef>,
    seqs: &SeqTable,
) -> (segment: KeySegment)
    requires
        first <= last < offsets@.len(),
        forall|w: int|
            first <= w < last ==> #[trigger] offsets@[w] <= offsets@[w + 1] <= refs@.len(),
        refs@.len() <= u32::MAX,
        seqs.wf(),
        forall|i: int|
            0 <= i < refs@.len() ==> code_known((#[trigger] refs@[i]).model().code, *seqs),
    ensures
        segment.represents(slot_groups(offsets@, first as int, last as int, refs@)),
{
    let ghost words = slot_groups(offsets@, first as int, last as int, refs@);
    let ghost groups = words.flatten();
    let grouped = group_words(offsets, first, last, refs, seqs);

    // The shift sequences that the segment's keys name.
    let mut shift_seqs: Vec<[Shift; 2]> = Vec::with_capacity(grouped.keys.len());
    let mut k: usize = 0;
    while k < grouped.keys.len()
        invariant
            k <= grouped.keys@.len(),
            grouped.keys@ == key_counts(groups),
            seqs.wf(),
            forall|k: int|
                0 <= k < groups.len() ==> code_known((#[trigger] groups[k]).code, *seqs),
            shift_seqs@.len() == k,
            forall|j: int|
                0 <= j < k ==> seq_wf(#[trigger] shift_seqs@[j]) && seq_code_model(shift_seqs@[j])
                    == groups[j].code % 262144,
        decreases grouped.keys@.len() - k,
    {
        let code: u32 = grouped.keys[k].0;
        assert(code_known(groups[k as int].code, *seqs));
        match seqs.get(code % 262144) {
            Some(shift_seq) => {
                shift_seqs.push(shift_seq);
            },
            None => {
                assert(false);
            },
        }
        k += 1;
    }
    let dense_shift_enc = DenseShiftEncoding::new(&shift_seqs);
    proof {
        assert forall|s: [Shift; 2]| #[trigger]
            dense_shift_enc.seqs().contains(s) implies exists|k: int|
            0 <= k < groups.len() && #[trigger] groups[k].code % 262144 == seq_code_model(s) by {
            assert(shift_seqs@.contains(s));
            let j = choose|j: int| 0 <= j < shift_seqs@.len() && shift_seqs@[j] == s;
            assert(groups[j].code % 262144 == seq_code_model(s));
        }
    }

    // Lay the keys and the words' ranges over the segment.
    let mut keys: Vec<Key> = Vec::with_capacity(grouped.keys.len());
    let mut key_ranges: Vec<Range<u32>> = Vec::with_capacity(grouped.keys_per_word.len());
    let mut ref_offset: u32 = 0;
    let mut w: usize = 0;
    proof {
        assert(words.take(0) =~= Seq::empty());
        assert(groups.take(0) =~= Seq::empty());
    }
    while w < grouped.keys_per_word.len()
        invariant
            words == slot_groups(offsets@, first as int, last as int, refs@),
            groups == words.flatten(),
            grouped.keys@ == key_counts(groups),
            grouped.keys_per_word@ == words.map_values(|g: Seq<KeyGroup>| g.len() as u32),
            groups.len() <= u32::MAX,
            flat_constraints(groups).len() <= u32::MAX,
            forall|k: int|
                0 <= k < groups.len() ==> code_known((#[trigger] groups[k]).code, *seqs),
            forall|v: int| 0 <= v < words.len() ==> (#[trigger] words[v]).len() <= u32::MAX,
            shift_seqs@.len() == groups.len(),
            forall|j: int|
                0 <= j < groups.len() ==> seq_wf(#[trigger] shift_seqs@[j]) && seq_code_model(
                    shift_seqs@[j],
                ) == groups[j].code % 262144,
            dense_shift_enc.wf(),
            dense_shift_enc.seqs().len() <= 262144,
            forall|s: [Shift; 2]| #[trigger]
                dense_shift_enc.seqs().contains(s) <==> shift_seqs@.contains(s),
            w <= words.len(),
            keys@.len() == words.take(w as int).flatten().len(),
            keys@.len() <= groups.len(),
            ref_offset == flat_constraints(groups.take(keys@.len() as int)).len(),
            forall|k: int|
                0 <= k < keys@.len() ==> key_represents(
                    #[trigger] keys@[k],
                    dense_shift_enc,
                    groups,
                    k,
                ),
            key_ranges@.len() == w,
            forall|v: int|
                0 <= v < w ==> (#[trigger] key_ranges@[v]).start == words.take(v).flatten().len()
                    && key_ranges@[v].end == words.take(v + 1).flatten().len(),
        decreases words.len() - w,
    {
        let start: u32 = keys.len() as u32;
        let n: u32 = grouped.keys_per_word[w];
        proof {
            assert(words.take(w + 1) =~= words.take(w as int).push(words[w as int]));
            words.take(w as int).lemma_flatten_push(words[w as int]);
            assert(words =~= words.take(w + 1) + words.skip(w + 1));
            vstd::seq_lib::lemma_flatten_concat(words.take(w + 1), words.skip(w + 1));
            assert(words[w as int].len() <= u32::MAX);
            assert(n == words[w as int].len());
        }
        let mut done: u32 = 0;
        while done < n
            invariant
                groups == words.flatten(),
                grouped.keys@ == key_counts(groups),
                groups.len() <= u32::MAX,
                flat_constraints(groups).len() <= u32::MAX,
                forall|k: int|
                    0 <= k < groups.len() ==> code_known((#[trigger] groups[k]).code, *seqs),
                shift_seqs@.len() == groups.len(),
                forall|j: int|
                    0 <= j < groups.len() ==> seq_wf(#[trigger] shift_seqs@[j]) && seq_code_model(
                        shift_seqs@[j],
                    ) == groups[j].code % 262144,
                dense_shift_enc.wf(),
                dense_shift_enc.seqs().len() <= 262144,
                forall|s: [Shift; 2]| #[trigger]
                    dense_shift_enc.seqs().contains(s) <==> shift_seqs@.contains(s),
                done <= n,
                start + n <= groups.len(),
                keys@.len() == start + done,
                ref_offset == flat_constraints(groups.take(keys@.len() as int)).len(),
                forall|k: int|
                    0 <= k < keys@.len() ==> key_represents(
                        #[trigger] keys@[k],
                        dense_shift_enc,
                        groups,
                        k,
                    ),
            decreases n - done,
        {
            let k: usize = keys.len();
            let (code, count) = grouped.keys[k];
            proof {
                assert(code_known(groups[k as int].code, *seqs));
                lemma_flat_constraints_take(groups, k as int);
                assert(shift_seqs@.contains(shift_seqs@[k as int]));
            }
            let key = Key {
                operation: operation_from_code((code / 262144) as u8),
                dense_shift_idx: dense_shift_enc.dense_idx(shift_seqs[k]),
                range: ref_offset..ref_offset + count,
            };
            assert(key_represents(key, dense_shift_enc, groups, k as int));
            keys.push(key);
            ref_offset = ref_offset + count;
            done += 1;
        }
        key_ranges.push(start..start + n);
        w += 1;
    }
    assert(words.take(w as int) =~= words);
    KeySegment { keys, key_ranges, constraint_indices: grouped.constraint_indices, dense_shift_enc }
}

/// A segment rests on the references in its own slots alone, and is laid out from the start: the one
/// of the words `first..last` is that of the same references taken out, with their slots counted
/// from zero.
pub proof fn law_segment_of_own_references(
    a: KeySegment,
    b: KeySegment,
    offsets: Seq<usize>,
    first: int,
    last: int,
    refs: Seq<PackedRef>,
    own_offsets: Seq<usize>,
)
    requires
        0 <= first <= last < offsets.len(),
        forall|i: int, j: int|
            first <= i <= j <= last ==> #[trigger] offsets[i] <= #[trigger] offsets[j]
                <= refs.len(),
        own_offsets.len() == last - first + 1,
        forall|w: int|
            0 <= w <= last - first ==> #[trigger] own_offsets[w] == offsets[first + w]
                - offsets[first],
        a.represents(slot_groups(offsets, first, last, refs)),
        b.represents(
            slot_groups(
                own_offsets,
                0,
                last - first,
                refs.subrange(offsets[first] as int, offsets[last] as int),
            ),
        ),
    ensures
        a.deep_view() == b.deep_view(),
{
    let own = refs.subrange(offsets[first] as int, offsets[last] as int);
    let words = slot_groups(offsets, first, last, refs);
    let own_words = slot_groups(own_offsets, 0, last - first, own);
    assert forall|w: int| 0 <= w < last - first implies #[trigger] words[w] == own_words[w] by {
        assert(offsets[first] <= offsets[first + w] && offsets[first + w] <= offsets[first + w + 1]
            && offsets[first + w + 1] <= offsets[last]);
        assert(own_offsets[w] == offsets[first + w] - offsets[first]);
        assert(own_offsets[w + 1] == offsets[first + (w + 1)] - offsets[first]);
        assert(own.subrange(own_offsets[0 + w] as int, own_offsets[0 + w + 1] as int)
            =~= refs.subrange(offsets[first + w] as int, offsets[first + w + 1] as int));
    }
    assert(words =~= own_words);
    lemma_segment_unique(a, b, words);
}

/// Walks a constraint system and builds the prover's dense key collection.
///
/// `inout` is the split point between the public and the hidden key segments. The number of
/// shifted references has to fit the 32 bits in which the keys count them.
pub fn build_key_collection(cs: &ConstraintSystem, inout: InoutSegment) -> (collection:
    KeyCollection)
    requires
        cs.deep_view().valid(),
        cs.deep_view().value_vec_len() < usize::MAX,
        references(cs.deep_view()).len() <= u32::MAX,
    ensures
        collection.represents(cs.deep_view(), inout),
{
    let n_words: usize = cs.value_vec_len();
    let n_public: usize = cs.n_public_words(inout);

    let visits = visit_references(cs);
    let offsets = word_offsets(&visits, n_words);
    let seqs = note_sequences(&visits, Ghost(n_words as int));
    let refs = scatter(&visits, &offsets, n_words);
    proof {
        let all = references(cs.deep_view());
        assert forall|k: int| 0 <= k < all.len() implies 0 <= (#[trigger] all[k]).word < n_words by {
            assert(all[k] == visits@[k].model());
            assert(visits@[k].wf(n_words as int));
        }
        lemma_count_below_ends(all, n_words as int);
        assert forall|w: int| 0 <= w < n_words implies #[trigger] offsets@[w] <= offsets@[w + 1]
            <= refs@.len() by {
            lemma_count_below_monotone(all, w, w + 1);
            lemma_count_below_monotone(all, w + 1, n_words as int);
        }
        assert forall|i: int| 0 <= i < refs@.len() implies code_known(
            (#[trigger] refs@[i]).model().code,
            seqs,
        ) by {
            let w = lemma_slot_word(all, n_words as int, i);
            let part = refs@.subrange(offsets@[w] as int, offsets@[w + 1] as int);
            let t = i - offsets@[w];
            assert(packed_model(part) == word_references(all, w));
            assert(packed_model(part)[t] == refs@[i].model());
            let k = lemma_word_reference_source(all, w, t);
            assert(all[k] == visits@[k].model());
            assert(visits@[k].wf(n_words as int));
        }
        assert(slot_groups(offsets@, 0, n_public as int, refs@) =~= public_groups(
            cs.deep_view(),
            inout,
        )) by {
            assert forall|w: int| 0 <= w < n_public implies #[trigger] slot_groups(
                offsets@,
                0,
                n_public as int,
                refs@,
            )[w] == public_groups(cs.deep_view(), inout)[w] by {
                assert(packed_model(
                    refs@.subrange(offsets@[0 + w] as int, offsets@[0 + w + 1] as int),
                ) == word_references(all, w));
            }
        }
        assert(slot_groups(offsets@, n_public as int, n_words as int, refs@) =~= hidden_groups(
            cs.deep_view(),
            inout,
        )) by {
            assert forall|w: int| 0 <= w < n_words - n_public implies #[trigger] slot_groups(
                offsets@,
                n_public as int,
                n_words as int,
                refs@,
            )[w] == hidden_groups(cs.deep_view(), inout)[w] by {
                assert(packed_model(
                    refs@.subrange(
                        offsets@[n_public + w] as int,
                        offsets@[n_public + w + 1] as int,
                    ),
                ) == word_references(all, n_public + w));
            }
        }
    }
    KeyCollection {
        public: build_segment(&offsets, 0, n_public, &refs, &seqs),
        hidden: build_segment(&offsets, n_public, n_words, &refs, &seqs),
    }
}

/// Every slot belongs to a word.
proof fn lemma_slot_word(references: Seq<Reference>, n_words: int, slot: int) -> (word: int)
    requires
        0 <= n_words,
        0 <= slot < count_below(references, n_words),
        count_below(references, 0) == 0,
    ensures
        0 <= word < n_words,
        count_below(references, word) <= slot < count_below(references, word + 1),
    decreases n_words,
{
    if count_below(references, n_words - 1) <= slot {
        n_words - 1
    } else {
        lemma_slot_word(references, n_words - 1, slot)
    }
}

/// Every use of a word is a use.
proof fn lemma_word_reference_source(references: Seq<Reference>, word: int, t: int) -> (i: int)
    requires
        0 <= t < word_references(references, word).len(),
    ensures
        0 <= i < references.len(),
        references[i].keyed == word_references(references, word)[t],
{
    let pred = |r: Reference| r.word == word;
    let kept = references.filter(pred);
    assert(kept.contains(kept[t]));
    references.lemma_filter_contains_rev(pred, kept[t]);
    choose|i: int| 0 <= i < references.len() && references[i] == kept[t]
}

} // verus!
