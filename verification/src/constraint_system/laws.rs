//! What a valid constraint system is, field by field, and which defect is found first.

use vstd::prelude::*;

use crate::constraint_system::validate::{
    constraint_error, first_error, law_no_error_iff_valid, lemma_constraint_error,
    lemma_constraint_error_stays, lemma_list_error, lemma_list_error_stays, lemma_operand_error,
    lemma_operand_error_stays, list_error, operand_error, ConstraintSystemError,
};
use crate::constraint_system::{
    seq_code_model, seq_wf, ConstraintSystem, ConstraintSystemModel, InoutSegment, Shift,
    ShiftVariant, Term, ValueIndex,
};

verus! {

/// A term is valid if it names a constant, a word of the public interface or a private word below
/// the number of those, under shifts by less than 64; those of half words by less than 32.
proof fn lemma_term(cs: ConstraintSystem, term: Term)
    ensures
        cs.deep_view().term_valid(term) <==> (match term.value_index {
            ValueIndex::Constant(i) => i < cs.constants@.len(),
            ValueIndex::Inout(i) => i < cs.n_inout,
            ValueIndex::Private(i) => i < cs.n_private,
            ValueIndex::Scratch(_) => false,
        }) && (term.inner.amount < 32 || (term.inner.amount < 64 && (term.inner.variant is Sll
            || term.inner.variant is Slr || term.inner.variant is Sar
            || term.inner.variant is Rotr))) && (term.outer.amount < 32 || (term.outer.amount < 64
            && (term.outer.variant is Sll || term.outer.variant is Slr || term.outer.variant is Sar
            || term.outer.variant is Rotr))),
{
}

proof fn lemma_zero_valid(cs: ConstraintSystem)
    ensures
        cs.deep_view().constraints_valid(cs.deep_view().zero_constraints) <==> (forall|c: int,
            p: int, t: int|
            0 <= c < cs.zero_constraints@.len() && 0 <= p < 1
                && 0 <= t < cs.zero_constraints@[c].0@[p]@.len() ==> {
                let term = #[trigger] cs.zero_constraints@[c].0@[p]@[t];
                (match term.value_index {
                ValueIndex::Constant(i) => i < cs.constants@.len(),
                ValueIndex::Inout(i) => i < cs.n_inout,
                ValueIndex::Private(i) => i < cs.n_private,
                ValueIndex::Scratch(_) => false,
            }) && (term.shift_seq[0].amount < 32 || (term.shift_seq[0].amount < 64
                && (term.shift_seq[0].variant is Sll || term.shift_seq[0].variant is Slr
                || term.shift_seq[0].variant is Sar || term.shift_seq[0].variant is Rotr)))
                    && (term.shift_seq[1].amount < 32 || (term.shift_seq[1].amount < 64
                    && (term.shift_seq[1].variant is Sll || term.shift_seq[1].variant is Slr
                || term.shift_seq[1].variant is Sar || term.shift_seq[1].variant is Rotr)))
            }),
{
    let m = cs.deep_view().zero_constraints;
    assert forall|c: int, p: int, t: int|
        0 <= c < cs.zero_constraints@.len() && 0 <= p < 1
            && 0 <= t < cs.zero_constraints@[c].0@[p]@.len() implies
        (#[trigger] cs.zero_constraints@[c].0@[p]@[t]).deep_view() == m[c][p][t] by {}
    if cs.deep_view().constraints_valid(m) {
        assert forall|c: int, p: int, t: int|
            0 <= c < cs.zero_constraints@.len() && 0 <= p < 1
                && 0 <= t < cs.zero_constraints@[c].0@[p]@.len() implies {
                let term = #[trigger] cs.zero_constraints@[c].0@[p]@[t];
                (match term.value_index {
                ValueIndex::Constant(i) => i < cs.constants@.len(),
                ValueIndex::Inout(i) => i < cs.n_inout,
                ValueIndex::Private(i) => i < cs.n_private,
                ValueIndex::Scratch(_) => false,
            }) && (term.shift_seq[0].amount < 32 || (term.shift_seq[0].amount < 64
                && (term.shift_seq[0].variant is Sll || term.shift_seq[0].variant is Slr
                || term.shift_seq[0].variant is Sar || term.shift_seq[0].variant is Rotr)))
                    && (term.shift_seq[1].amount < 32 || (term.shift_seq[1].amount < 64
                    && (term.shift_seq[1].variant is Sll || term.shift_seq[1].variant is Slr
                || term.shift_seq[1].variant is Sar || term.shift_seq[1].variant is Rotr)))
            } by {
            let term = cs.zero_constraints@[c].0@[p]@[t];
            assert(m[c][p][t] == term.deep_view());
            assert(cs.deep_view().term_valid(m[c][p][t]));
            lemma_term(cs, term.deep_view());
        }
    }
    if forall|c: int, p: int, t: int|
            0 <= c < cs.zero_constraints@.len() && 0 <= p < 1
                && 0 <= t < cs.zero_constraints@[c].0@[p]@.len() ==> {
                let term = #[trigger] cs.zero_constraints@[c].0@[p]@[t];
                (match term.value_index {
                ValueIndex::Constant(i) => i < cs.constants@.len(),
                ValueIndex::Inout(i) => i < cs.n_inout,
                ValueIndex::Private(i) => i < cs.n_private,
                ValueIndex::Scratch(_) => false,
            }) && (term.shift_seq[0].amount < 32 || (term.shift_seq[0].amount < 64
                && (term.shift_seq[0].variant is Sll || term.shift_seq[0].variant is Slr
                || term.shift_seq[0].variant is Sar || term.shift_seq[0].variant is Rotr)))
                    && (term.shift_seq[1].amount < 32 || (term.shift_seq[1].amount < 64
                    && (term.shift_seq[1].variant is Sll || term.shift_seq[1].variant is Slr
                || term.shift_seq[1].variant is Sar || term.shift_seq[1].variant is Rotr)))
            } {
        assert forall|c: int, p: int, t: int|
            0 <= c < m.len() && 0 <= p < m[c].len() && 0 <= t < m[c][p].len() implies
            cs.deep_view().term_valid(#[trigger] m[c][p][t]) by {
            let term = cs.zero_constraints@[c].0@[p]@[t];
            assert(m[c][p][t] == term.deep_view());
            lemma_term(cs, term.deep_view());
        }
    }
}

proof fn lemma_and_valid(cs: ConstraintSystem)
    ensures
        cs.deep_view().constraints_valid(cs.deep_view().and_constraints) <==> (forall|c: int,
            p: int, t: int|
            0 <= c < cs.and_constraints@.len() && 0 <= p < 3
                && 0 <= t < cs.and_constraints@[c].0@[p]@.len() ==> {
                let term = #[trigger] cs.and_constraints@[c].0@[p]@[t];
                (match term.value_index {
                ValueIndex::Constant(i) => i < cs.constants@.len(),
                ValueIndex::Inout(i) => i < cs.n_inout,
                ValueIndex::Private(i) => i < cs.n_private,
                ValueIndex::Scratch(_) => false,
            }) && (term.shift_seq[0].amount < 32 || (term.shift_seq[0].amount < 64
                && (term.shift_seq[0].variant is Sll || term.shift_seq[0].variant is Slr
                || term.shift_seq[0].variant is Sar || term.shift_seq[0].variant is Rotr)))
                    && (term.shift_seq[1].amount < 32 || (term.shift_seq[1].amount < 64
                    && (term.shift_seq[1].variant is Sll || term.shift_seq[1].variant is Slr
                || term.shift_seq[1].variant is Sar || term.shift_seq[1].variant is Rotr)))
            }),
{
    let m = cs.deep_view().and_constraints;
    assert forall|c: int, p: int, t: int|
        0 <= c < cs.and_constraints@.len() && 0 <= p < 3
            && 0 <= t < cs.and_constraints@[c].0@[p]@.len() implies
        (#[trigger] cs.and_constraints@[c].0@[p]@[t]).deep_view() == m[c][p][t] by {}
    if cs.deep_view().constraints_valid(m) {
        assert forall|c: int, p: int, t: int|
            0 <= c < cs.and_constraints@.len() && 0 <= p < 3
                && 0 <= t < cs.and_constraints@[c].0@[p]@.len() implies {
                let term = #[trigger] cs.and_constraints@[c].0@[p]@[t];
                (match term.value_index {
                ValueIndex::Constant(i) => i < cs.constants@.len(),
                ValueIndex::Inout(i) => i < cs.n_inout,
                ValueIndex::Private(i) => i < cs.n_private,
                ValueIndex::Scratch(_) => false,
            }) && (term.shift_seq[0].amount < 32 || (term.shift_seq[0].amount < 64
                && (term.shift_seq[0].variant is Sll || term.shift_seq[0].variant is Slr
                || term.shift_seq[0].variant is Sar || term.shift_seq[0].variant is Rotr)))
                    && (term.shift_seq[1].amount < 32 || (term.shift_seq[1].amount < 64
                    && (term.shift_seq[1].variant is Sll || term.shift_seq[1].variant is Slr
                || term.shift_seq[1].variant is Sar || term.shift_seq[1].variant is Rotr)))
            } by {
            let term = cs.and_constraints@[c].0@[p]@[t];
            assert(m[c][p][t] == term.deep_view());
            assert(cs.deep_view().term_valid(m[c][p][t]));
            lemma_term(cs, term.deep_view());
        }
    }
    if forall|c: int, p: int, t: int|
            0 <= c < cs.and_constraints@.len() && 0 <= p < 3
                && 0 <= t < cs.and_constraints@[c].0@[p]@.len() ==> {
                let term = #[trigger] cs.and_constraints@[c].0@[p]@[t];
                (match term.value_index {
                ValueIndex::Constant(i) => i < cs.constants@.len(),
                ValueIndex::Inout(i) => i < cs.n_inout,
                ValueIndex::Private(i) => i < cs.n_private,
                ValueIndex::Scratch(_) => false,
            }) && (term.shift_seq[0].amount < 32 || (term.shift_seq[0].amount < 64
                && (term.shift_seq[0].variant is Sll || term.shift_seq[0].variant is Slr
                || term.shift_seq[0].variant is Sar || term.shift_seq[0].variant is Rotr)))
                    && (term.shift_seq[1].amount < 32 || (term.shift_seq[1].amount < 64
                    && (term.shift_seq[1].variant is Sll || term.shift_seq[1].variant is Slr
                || term.shift_seq[1].variant is Sar || term.shift_seq[1].variant is Rotr)))
            } {
        assert forall|c: int, p: int, t: int|
            0 <= c < m.len() && 0 <= p < m[c].len() && 0 <= t < m[c][p].len() implies
            cs.deep_view().term_valid(#[trigger] m[c][p][t]) by {
            let term = cs.and_constraints@[c].0@[p]@[t];
            assert(m[c][p][t] == term.deep_view());
            lemma_term(cs, term.deep_view());
        }
    }
}

proof fn lemma_imul_valid(cs: ConstraintSystem)
    ensures
        cs.deep_view().constraints_valid(cs.deep_view().imul_constraints) <==> (forall|c: int,
            p: int, t: int|
            0 <= c < cs.imul_constraints@.len() && 0 <= p < 4
                && 0 <= t < cs.imul_constraints@[c].0@[p]@.len() ==> {
                let term = #[trigger] cs.imul_constraints@[c].0@[p]@[t];
                (match term.value_index {
                ValueIndex::Constant(i) => i < cs.constants@.len(),
                ValueIndex::Inout(i) => i < cs.n_inout,
                ValueIndex::Private(i) => i < cs.n_private,
                ValueIndex::Scratch(_) => false,
            }) && (term.shift_seq[0].amount < 32 || (term.shift_seq[0].amount < 64
                && (term.shift_seq[0].variant is Sll || term.shift_seq[0].variant is Slr
                || term.shift_seq[0].variant is Sar || term.shift_seq[0].variant is Rotr)))
                    && (term.shift_seq[1].amount < 32 || (term.shift_seq[1].amount < 64
                    && (term.shift_seq[1].variant is Sll || term.shift_seq[1].variant is Slr
                || term.shift_seq[1].variant is Sar || term.shift_seq[1].variant is Rotr)))
            }),
{
    let m = cs.deep_view().imul_constraints;
    assert forall|c: int, p: int, t: int|
        0 <= c < cs.imul_constraints@.len() && 0 <= p < 4
            && 0 <= t < cs.imul_constraints@[c].0@[p]@.len() implies
        (#[trigger] cs.imul_constraints@[c].0@[p]@[t]).deep_view() == m[c][p][t] by {}
    if cs.deep_view().constraints_valid(m) {
        assert forall|c: int, p: int, t: int|
            0 <= c < cs.imul_constraints@.len() && 0 <= p < 4
                && 0 <= t < cs.imul_constraints@[c].0@[p]@.len() implies {
                let term = #[trigger] cs.imul_constraints@[c].0@[p]@[t];
                (match term.value_index {
                ValueIndex::Constant(i) => i < cs.constants@.len(),
                ValueIndex::Inout(i) => i < cs.n_inout,
                ValueIndex::Private(i) => i < cs.n_private,
                ValueIndex::Scratch(_) => false,
            }) && (term.shift_seq[0].amount < 32 || (term.shift_seq[0].amount < 64
                && (term.shift_seq[0].variant is Sll || term.shift_seq[0].variant is Slr
                || term.shift_seq[0].variant is Sar || term.shift_seq[0].variant is Rotr)))
                    && (term.shift_seq[1].amount < 32 || (term.shift_seq[1].amount < 64
                    && (term.shift_seq[1].variant is Sll || term.shift_seq[1].variant is Slr
                || term.shift_seq[1].variant is Sar || term.shift_seq[1].variant is Rotr)))
            } by {
            let term = cs.imul_constraints@[c].0@[p]@[t];
            assert(m[c][p][t] == term.deep_view());
            assert(cs.deep_view().term_valid(m[c][p][t]));
            lemma_term(cs, term.deep_view());
        }
    }
    if forall|c: int, p: int, t: int|
            0 <= c < cs.imul_constraints@.len() && 0 <= p < 4
                && 0 <= t < cs.imul_constraints@[c].0@[p]@.len() ==> {
                let term = #[trigger] cs.imul_constraints@[c].0@[p]@[t];
                (match term.value_index {
                ValueIndex::Constant(i) => i < cs.constants@.len(),
                ValueIndex::Inout(i) => i < cs.n_inout,
                ValueIndex::Private(i) => i < cs.n_private,
                ValueIndex::Scratch(_) => false,
            }) && (term.shift_seq[0].amount < 32 || (term.shift_seq[0].amount < 64
                && (term.shift_seq[0].variant is Sll || term.shift_seq[0].variant is Slr
                || term.shift_seq[0].variant is Sar || term.shift_seq[0].variant is Rotr)))
                    && (term.shift_seq[1].amount < 32 || (term.shift_seq[1].amount < 64
                    && (term.shift_seq[1].variant is Sll || term.shift_seq[1].variant is Slr
                || term.shift_seq[1].variant is Sar || term.shift_seq[1].variant is Rotr)))
            } {
        assert forall|c: int, p: int, t: int|
            0 <= c < m.len() && 0 <= p < m[c].len() && 0 <= t < m[c][p].len() implies
            cs.deep_view().term_valid(#[trigger] m[c][p][t]) by {
            let term = cs.imul_constraints@[c].0@[p]@[t];
            assert(m[c][p][t] == term.deep_view());
            lemma_term(cs, term.deep_view());
        }
    }
}

proof fn lemma_bmul_valid(cs: ConstraintSystem)
    ensures
        cs.deep_view().constraints_valid(cs.deep_view().bmul_constraints) <==> (forall|c: int,
            p: int, t: int|
            0 <= c < cs.bmul_constraints@.len() && 0 <= p < 6
                && 0 <= t < cs.bmul_constraints@[c].0@[p]@.len() ==> {
                let term = #[trigger] cs.bmul_constraints@[c].0@[p]@[t];
                (match term.value_index {
                ValueIndex::Constant(i) => i < cs.constants@.len(),
                ValueIndex::Inout(i) => i < cs.n_inout,
                ValueIndex::Private(i) => i < cs.n_private,
                ValueIndex::Scratch(_) => false,
            }) && (term.shift_seq[0].amount < 32 || (term.shift_seq[0].amount < 64
                && (term.shift_seq[0].variant is Sll || term.shift_seq[0].variant is Slr
                || term.shift_seq[0].variant is Sar || term.shift_seq[0].variant is Rotr)))
                    && (term.shift_seq[1].amount < 32 || (term.shift_seq[1].amount < 64
                    && (term.shift_seq[1].variant is Sll || term.shift_seq[1].variant is Slr
                || term.shift_seq[1].variant is Sar || term.shift_seq[1].variant is Rotr)))
            }),
{
    let m = cs.deep_view().bmul_constraints;
    assert forall|c: int, p: int, t: int|
        0 <= c < cs.bmul_constraints@.len() && 0 <= p < 6
            && 0 <= t < cs.bmul_constraints@[c].0@[p]@.len() implies
        (#[trigger] cs.bmul_constraints@[c].0@[p]@[t]).deep_view() == m[c][p][t] by {}
    if cs.deep_view().constraints_valid(m) {
        assert forall|c: int, p: int, t: int|
            0 <= c < cs.bmul_constraints@.len() && 0 <= p < 6
                && 0 <= t < cs.bmul_constraints@[c].0@[p]@.len() implies {
                let term = #[trigger] cs.bmul_constraints@[c].0@[p]@[t];
                (match term.value_index {
                ValueIndex::Constant(i) => i < cs.constants@.len(),
                ValueIndex::Inout(i) => i < cs.n_inout,
                ValueIndex::Private(i) => i < cs.n_private,
                ValueIndex::Scratch(_) => false,
            }) && (term.shift_seq[0].amount < 32 || (term.shift_seq[0].amount < 64
                && (term.shift_seq[0].variant is Sll || term.shift_seq[0].variant is Slr
                || term.shift_seq[0].variant is Sar || term.shift_seq[0].variant is Rotr)))
                    && (term.shift_seq[1].amount < 32 || (term.shift_seq[1].amount < 64
                    && (term.shift_seq[1].variant is Sll || term.shift_seq[1].variant is Slr
                || term.shift_seq[1].variant is Sar || term.shift_seq[1].variant is Rotr)))
            } by {
            let term = cs.bmul_constraints@[c].0@[p]@[t];
            assert(m[c][p][t] == term.deep_view());
            assert(cs.deep_view().term_valid(m[c][p][t]));
            lemma_term(cs, term.deep_view());
        }
    }
    if forall|c: int, p: int, t: int|
            0 <= c < cs.bmul_constraints@.len() && 0 <= p < 6
                && 0 <= t < cs.bmul_constraints@[c].0@[p]@.len() ==> {
                let term = #[trigger] cs.bmul_constraints@[c].0@[p]@[t];
                (match term.value_index {
                ValueIndex::Constant(i) => i < cs.constants@.len(),
                ValueIndex::Inout(i) => i < cs.n_inout,
                ValueIndex::Private(i) => i < cs.n_private,
                ValueIndex::Scratch(_) => false,
            }) && (term.shift_seq[0].amount < 32 || (term.shift_seq[0].amount < 64
                && (term.shift_seq[0].variant is Sll || term.shift_seq[0].variant is Slr
                || term.shift_seq[0].variant is Sar || term.shift_seq[0].variant is Rotr)))
                    && (term.shift_seq[1].amount < 32 || (term.shift_seq[1].amount < 64
                    && (term.shift_seq[1].variant is Sll || term.shift_seq[1].variant is Slr
                || term.shift_seq[1].variant is Sar || term.shift_seq[1].variant is Rotr)))
            } {
        assert forall|c: int, p: int, t: int|
            0 <= c < m.len() && 0 <= p < m[c].len() && 0 <= t < m[c][p].len() implies
            cs.deep_view().term_valid(#[trigger] m[c][p][t]) by {
            let term = cs.bmul_constraints@[c].0@[p]@[t];
            assert(m[c][p][t] == term.deep_view());
            lemma_term(cs, term.deep_view());
        }
    }
}

/// A constraint system is valid if and only if its value vector's length is a machine number and every
/// term of every constraint names a constant, a word of the public interface or a private word
/// below the number of those, under two shifts by less than 64, and by less than 32 where the
/// variant is one of half words. Then it has no defect.
pub proof fn law_valid_in_plain_bounds(cs: ConstraintSystem)
    ensures
        cs.deep_view().valid() <==> {
            &&& cs.constants@.len() + cs.n_inout + cs.n_private <= usize::MAX
            &&& forall|c: int, p: int, t: int|
            0 <= c < cs.zero_constraints@.len() && 0 <= p < 1
                && 0 <= t < cs.zero_constraints@[c].0@[p]@.len() ==> {
                let term = #[trigger] cs.zero_constraints@[c].0@[p]@[t];
                (match term.value_index {
                ValueIndex::Constant(i) => i < cs.constants@.len(),
                ValueIndex::Inout(i) => i < cs.n_inout,
                ValueIndex::Private(i) => i < cs.n_private,
                ValueIndex::Scratch(_) => false,
            }) && (term.shift_seq[0].amount < 32 || (term.shift_seq[0].amount < 64
                && (term.shift_seq[0].variant is Sll || term.shift_seq[0].variant is Slr
                || term.shift_seq[0].variant is Sar || term.shift_seq[0].variant is Rotr)))
                    && (term.shift_seq[1].amount < 32 || (term.shift_seq[1].amount < 64
                    && (term.shift_seq[1].variant is Sll || term.shift_seq[1].variant is Slr
                || term.shift_seq[1].variant is Sar || term.shift_seq[1].variant is Rotr)))
            }
            &&& forall|c: int, p: int, t: int|
            0 <= c < cs.and_constraints@.len() && 0 <= p < 3
                && 0 <= t < cs.and_constraints@[c].0@[p]@.len() ==> {
                let term = #[trigger] cs.and_constraints@[c].0@[p]@[t];
                (match term.value_index {
                ValueIndex::Constant(i) => i < cs.constants@.len(),
                ValueIndex::Inout(i) => i < cs.n_inout,
                ValueIndex::Private(i) => i < cs.n_private,
                ValueIndex::Scratch(_) => false,
            }) && (term.shift_seq[0].amount < 32 || (term.shift_seq[0].amount < 64
                && (term.shift_seq[0].variant is Sll || term.shift_seq[0].variant is Slr
                || term.shift_seq[0].variant is Sar || term.shift_seq[0].variant is Rotr)))
                    && (term.shift_seq[1].amount < 32 || (term.shift_seq[1].amount < 64
                    && (term.shift_seq[1].variant is Sll || term.shift_seq[1].variant is Slr
                || term.shift_seq[1].variant is Sar || term.shift_seq[1].variant is Rotr)))
            }
            &&& forall|c: int, p: int, t: int|
            0 <= c < cs.imul_constraints@.len() && 0 <= p < 4
                && 0 <= t < cs.imul_constraints@[c].0@[p]@.len() ==> {
                let term = #[trigger] cs.imul_constraints@[c].0@[p]@[t];
                (match term.value_index {
                ValueIndex::Constant(i) => i < cs.constants@.len(),
                ValueIndex::Inout(i) => i < cs.n_inout,
                ValueIndex::Private(i) => i < cs.n_private,
                ValueIndex::Scratch(_) => false,
            }) && (term.shift_seq[0].amount < 32 || (term.shift_seq[0].amount < 64
                && (term.shift_seq[0].variant is Sll || term.shift_seq[0].variant is Slr
                || term.shift_seq[0].variant is Sar || term.shift_seq[0].variant is Rotr)))
                    && (term.shift_seq[1].amount < 32 || (term.shift_seq[1].amount < 64
                    && (term.shift_seq[1].variant is Sll || term.shift_seq[1].variant is Slr
                || term.shift_seq[1].variant is Sar || term.shift_seq[1].variant is Rotr)))
            }
            &&& forall|c: int, p: int, t: int|
            0 <= c < cs.bmul_constraints@.len() && 0 <= p < 6
                && 0 <= t < cs.bmul_constraints@[c].0@[p]@.len() ==> {
                let term = #[trigger] cs.bmul_constraints@[c].0@[p]@[t];
                (match term.value_index {
                ValueIndex::Constant(i) => i < cs.constants@.len(),
                ValueIndex::Inout(i) => i < cs.n_inout,
                ValueIndex::Private(i) => i < cs.n_private,
                ValueIndex::Scratch(_) => false,
            }) && (term.shift_seq[0].amount < 32 || (term.shift_seq[0].amount < 64
                && (term.shift_seq[0].variant is Sll || term.shift_seq[0].variant is Slr
                || term.shift_seq[0].variant is Sar || term.shift_seq[0].variant is Rotr)))
                    && (term.shift_seq[1].amount < 32 || (term.shift_seq[1].amount < 64
                    && (term.shift_seq[1].variant is Sll || term.shift_seq[1].variant is Slr
                || term.shift_seq[1].variant is Sar || term.shift_seq[1].variant is Rotr)))
            }
        },
        first_error(cs.deep_view()) is None <==> cs.deep_view().valid(),
        first_error(cs.deep_view()) == Some(ConstraintSystemError::ValueVecTooLong)
            <==> cs.constants@.len() + cs.n_inout + cs.n_private > usize::MAX,
{
    law_no_error_iff_valid(cs.deep_view());
    lemma_never_too_long(cs.deep_view());
    lemma_zero_valid(cs);
    lemma_and_valid(cs);
    lemma_imul_valid(cs);
    lemma_bmul_valid(cs);
}

proof fn lemma_operand_is_term(
    cs: ConstraintSystemModel,
    constraint_type: &'static str,
    c: int,
    p: int,
    operand: Seq<Term>,
    n: int,
)
    ensures
        operand_error(cs, constraint_type, c, p, operand, n) != Some(
            ConstraintSystemError::ValueVecTooLong,
        ),
    decreases n,
{
    if n > 0 {
        lemma_operand_is_term(cs, constraint_type, c, p, operand, n - 1);
    }
}

proof fn lemma_constraint_is_term(
    cs: ConstraintSystemModel,
    constraint_type: &'static str,
    c: int,
    operands: Seq<Seq<Term>>,
    n: int,
)
    ensures
        constraint_error(cs, constraint_type, c, operands, n) != Some(
            ConstraintSystemError::ValueVecTooLong,
        ),
    decreases n,
{
    if n > 0 {
        lemma_constraint_is_term(cs, constraint_type, c, operands, n - 1);
        let last = operands[n - 1];
        lemma_operand_is_term(cs, constraint_type, c, n - 1, last, last.len() as int);
    }
}

proof fn lemma_list_is_term(
    cs: ConstraintSystemModel,
    constraint_type: &'static str,
    constraints: Seq<Seq<Seq<Term>>>,
    n: int,
)
    ensures
        list_error(cs, constraint_type, constraints, n) != Some(
            ConstraintSystemError::ValueVecTooLong,
        ),
    decreases n,
{
    if n > 0 {
        lemma_list_is_term(cs, constraint_type, constraints, n - 1);
        let last = constraints[n - 1];
        lemma_constraint_is_term(cs, constraint_type, n - 1, last, last.len() as int);
    }
}

/// Too many words are the defect only where there are too many.
proof fn lemma_never_too_long(cs: ConstraintSystemModel)
    ensures
        first_error(cs) == Some(ConstraintSystemError::ValueVecTooLong) <==> cs.value_vec_len()
            > usize::MAX,
{
    lemma_list_is_term(cs, "zero", cs.zero_constraints, cs.zero_constraints.len() as int);
    lemma_list_is_term(cs, "and", cs.and_constraints, cs.and_constraints.len() as int);
    lemma_list_is_term(cs, "imul", cs.imul_constraints, cs.imul_constraints.len() as int);
    lemma_list_is_term(cs, "bmul", cs.bmul_constraints, cs.bmul_constraints.len() as int);
}

/// The first invalid term of a list is the one that is named.
proof fn lemma_first_of_list(
    cs: ConstraintSystemModel,
    constraint_type: &'static str,
    constraints: Seq<Seq<Seq<Term>>>,
    c: int,
    p: int,
    t: int,
)
    requires
        0 <= c < constraints.len(),
        0 <= p < constraints[c].len(),
        0 <= t < constraints[c][p].len(),
        !cs.term_valid(constraints[c][p][t]),
        forall|i: int, j: int, k: int|
            0 <= i < constraints.len() && 0 <= j < constraints[i].len() && 0 <= k
                < constraints[i][j].len() && (i < c || (i == c && (j < p || (j == p && k < t))))
                ==> cs.term_valid(#[trigger] constraints[i][j][k]),
    ensures
        list_error(cs, constraint_type, constraints, constraints.len() as int) == Some(
            ConstraintSystemError::InvalidTerm {
                constraint_type,
                constraint_index: c as usize,
                operand_index: p as usize,
                term_index: t as usize,
            },
        ),
{
    let before = constraints.take(c);
    let operands = constraints[c];
    let operand = operands[p];
    lemma_list_error(cs, constraint_type, constraints, c);
    assert forall|i: int, j: int, k: int|
        0 <= i < before.len() && 0 <= j < before[i].len() && 0 <= k < before[i][j].len() implies
        cs.term_valid(#[trigger] before[i][j][k]) by {
        assert(before[i] == constraints[i]);
        assert(cs.term_valid(constraints[i][j][k]));
    }
    lemma_constraint_error(cs, constraint_type, c, operands, p);
    assert forall|j: int, k: int| 0 <= j < p && 0 <= k < operands[j].len() implies cs.term_valid(
        #[trigger] operands[j][k],
    ) by {
        assert(cs.term_valid(constraints[c][j][k]));
    }
    lemma_operand_error(cs, constraint_type, c, p, operand, t);
    assert forall|k: int| 0 <= k < t implies cs.term_valid(#[trigger] operand[k]) by {
        assert(cs.term_valid(constraints[c][p][k]));
    }
    lemma_operand_error_stays(
        cs,
        constraint_type,
        c,
        p,
        operand,
        t + 1,
        operand.len() as int,
    );
    lemma_constraint_error_stays(
        cs,
        constraint_type,
        c,
        operands,
        p + 1,
        operands.len() as int,
    );
    lemma_list_error_stays(cs, constraint_type, constraints, c + 1, constraints.len() as int);
}

/// The defect that is found is the first invalid term of the zero constraints: terms come constraint by constraint, operand by operand.
pub proof fn law_first_defect_zero(cs: ConstraintSystemModel, c: int, p: int, t: int)
    requires
        cs.constants.len() + cs.n_inout + cs.n_private <= usize::MAX,
        0 <= c < cs.zero_constraints.len(),
        0 <= p < cs.zero_constraints[c].len(),
        0 <= t < cs.zero_constraints[c][p].len(),
        !cs.term_valid(cs.zero_constraints[c][p][t]),
        forall|i: int, j: int, k: int|
            0 <= i < cs.zero_constraints.len() && 0 <= j < cs.zero_constraints[i].len()
                && 0 <= k < cs.zero_constraints[i][j].len() && (i < c || (i
                == c && (j < p || (j == p && k < t)))) ==> cs.term_valid(
                #[trigger] cs.zero_constraints[i][j][k],
            ),
    ensures
        first_error(cs) == Some(
            ConstraintSystemError::InvalidTerm {
                constraint_type: "zero",
                constraint_index: c as usize,
                operand_index: p as usize,
                term_index: t as usize,
            },
        ),
{
    lemma_first_of_list(cs, "zero", cs.zero_constraints, c, p, t);
}

/// The defect that is found is the first invalid term of the and constraints, where the zero constraints are
/// valid: terms come constraint by constraint, operand by operand.
pub proof fn law_first_defect_and(cs: ConstraintSystemModel, c: int, p: int, t: int)
    requires
        cs.constants.len() + cs.n_inout + cs.n_private <= usize::MAX,
        cs.constraints_valid(cs.zero_constraints),
        0 <= c < cs.and_constraints.len(),
        0 <= p < cs.and_constraints[c].len(),
        0 <= t < cs.and_constraints[c][p].len(),
        !cs.term_valid(cs.and_constraints[c][p][t]),
        forall|i: int, j: int, k: int|
            0 <= i < cs.and_constraints.len() && 0 <= j < cs.and_constraints[i].len()
                && 0 <= k < cs.and_constraints[i][j].len() && (i < c || (i
                == c && (j < p || (j == p && k < t)))) ==> cs.term_valid(
                #[trigger] cs.and_constraints[i][j][k],
            ),
    ensures
        first_error(cs) == Some(
            ConstraintSystemError::InvalidTerm {
                constraint_type: "and",
                constraint_index: c as usize,
                operand_index: p as usize,
                term_index: t as usize,
            },
        ),
{
    let zero = cs.zero_constraints;
    lemma_list_error(cs, "zero", zero, zero.len() as int);
    assert(zero.take(zero.len() as int) =~= zero);
    lemma_first_of_list(cs, "and", cs.and_constraints, c, p, t);
}

/// The defect that is found is the first invalid term of the imul constraints, where the zero and the and
/// constraints are valid: terms come constraint by constraint, operand by operand.
pub proof fn law_first_defect_imul(cs: ConstraintSystemModel, c: int, p: int, t: int)
    requires
        cs.constants.len() + cs.n_inout + cs.n_private <= usize::MAX,
        cs.constraints_valid(cs.zero_constraints),
        cs.constraints_valid(cs.and_constraints),
        0 <= c < cs.imul_constraints.len(),
        0 <= p < cs.imul_constraints[c].len(),
        0 <= t < cs.imul_constraints[c][p].len(),
        !cs.term_valid(cs.imul_constraints[c][p][t]),
        forall|i: int, j: int, k: int|
            0 <= i < cs.imul_constraints.len() && 0 <= j < cs.imul_constraints[i].len()
                && 0 <= k < cs.imul_constraints[i][j].len() && (i < c || (i
                == c && (j < p || (j == p && k < t)))) ==> cs.term_valid(
                #[trigger] cs.imul_constraints[i][j][k],
            ),
    ensures
        first_error(cs) == Some(
            ConstraintSystemError::InvalidTerm {
                constraint_type: "imul",
                constraint_index: c as usize,
                operand_index: p as usize,
                term_index: t as usize,
            },
        ),
{
    let zero = cs.zero_constraints;
    lemma_list_error(cs, "zero", zero, zero.len() as int);
    assert(zero.take(zero.len() as int) =~= zero);
    let and = cs.and_constraints;
    lemma_list_error(cs, "and", and, and.len() as int);
    assert(and.take(and.len() as int) =~= and);
    lemma_first_of_list(cs, "imul", cs.imul_constraints, c, p, t);
}

/// The defect that is found is the first invalid term of the bmul constraints, where all others are valid: terms come constraint by constraint, operand by operand.
pub proof fn law_first_defect_bmul(cs: ConstraintSystemModel, c: int, p: int, t: int)
    requires
        cs.constants.len() + cs.n_inout + cs.n_private <= usize::MAX,
        cs.constraints_valid(cs.zero_constraints),
        cs.constraints_valid(cs.and_constraints),
        cs.constraints_valid(cs.imul_constraints),
        0 <= c < cs.bmul_constraints.len(),
        0 <= p < cs.bmul_constraints[c].len(),
        0 <= t < cs.bmul_constraints[c][p].len(),
        !cs.term_valid(cs.bmul_constraints[c][p][t]),
        forall|i: int, j: int, k: int|
            0 <= i < cs.bmul_constraints.len() && 0 <= j < cs.bmul_constraints[i].len()
                && 0 <= k < cs.bmul_constraints[i][j].len() && (i < c || (i
                == c && (j < p || (j == p && k < t)))) ==> cs.term_valid(
                #[trigger] cs.bmul_constraints[i][j][k],
            ),
    ensures
        first_error(cs) == Some(
            ConstraintSystemError::InvalidTerm {
                constraint_type: "bmul",
                constraint_index: c as usize,
                operand_index: p as usize,
                term_index: t as usize,
            },
        ),
{
    let zero = cs.zero_constraints;
    lemma_list_error(cs, "zero", zero, zero.len() as int);
    assert(zero.take(zero.len() as int) =~= zero);
    let and = cs.and_constraints;
    lemma_list_error(cs, "and", and, and.len() as int);
    assert(and.take(and.len() as int) =~= and);
    let imul = cs.imul_constraints;
    lemma_list_error(cs, "imul", imul, imul.len() as int);
    assert(imul.take(imul.len() as int) =~= imul);
    lemma_first_of_list(cs, "bmul", cs.bmul_constraints, c, p, t);
}

/// Shifts are numbered by variant, 64 numbers to each, then by amount; and sequences by the outer
/// shift, 512 numbers to each, then by the inner.
pub proof fn law_shift_numbers(shift_seq: [Shift; 2])
    ensures
        forall|i: int|
            0 <= i < 2 ==> (#[trigger] shift_seq[i]).index_model() == shift_seq[i].amount + 64 * (
            match shift_seq[i].variant {
                ShiftVariant::Sll => 0int,
                ShiftVariant::Slr => 1,
                ShiftVariant::Sar => 2,
                ShiftVariant::Rotr => 3,
                ShiftVariant::Sll32 => 4,
                ShiftVariant::Srl32 => 5,
                ShiftVariant::Sra32 => 6,
                ShiftVariant::Rotr32 => 7,
            }),
        seq_code_model(shift_seq) == 512 * shift_seq[1].index_model() + shift_seq[0].index_model(),
        seq_wf(shift_seq) <==> shift_seq[0].wf() && shift_seq[1].wf(),
{
}

/// A shift is in range if it moves by less than 64, or by less than 32 where it moves half words;
/// those are the last four variants.
pub proof fn law_shift_ranges(shift: Shift)
    ensures
        shift.variant.ordinal_model() >= 4 <==> shift.variant is Sll32 || shift.variant is Srl32
            || shift.variant is Sra32 || shift.variant is Rotr32,
        shift.variant.ordinal_model() >= 4 ==> (shift.wf() <==> shift.amount < 32),
        shift.variant.ordinal_model() < 4 ==> (shift.wf() <==> shift.amount < 64),
{
}

/// The value vector holds the constants, then the words of the public interface, then the private
/// words; the public half ends behind the constants, or behind the interface where that is public.
pub proof fn law_places(cs: ConstraintSystem, i: u32)
    ensures
        cs.deep_view().value_vec_len() == cs.constants@.len() + cs.n_inout + cs.n_private,
        cs.deep_view().n_public_words(InoutSegment::Public) == cs.constants@.len() + cs.n_inout,
        cs.deep_view().n_public_words(InoutSegment::Hidden) == cs.constants@.len(),
        cs.deep_view().word_offset(ValueIndex::Constant(i)) == i,
        cs.deep_view().word_offset(ValueIndex::Inout(i)) == cs.constants@.len() + i,
        cs.deep_view().word_offset(ValueIndex::Private(i)) == cs.constants@.len() + cs.n_inout + i,
        cs.deep_view().in_range(ValueIndex::Constant(i)) <==> i < cs.constants@.len(),
        cs.deep_view().in_range(ValueIndex::Inout(i)) <==> i < cs.n_inout,
        cs.deep_view().in_range(ValueIndex::Private(i)) <==> i < cs.n_private,
        !cs.deep_view().in_range(ValueIndex::Scratch(i)),
{
}

} // verus!
