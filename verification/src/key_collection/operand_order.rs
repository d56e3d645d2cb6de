//! The order of the uses inside a key: by operand position.

use vstd::prelude::*;

use crate::constraint_system::{ConstraintSystem, ConstraintSystemModel, Term};
use crate::key_collection::key::{ConstraintIndex, Operation};
use crate::key_collection::model::{
    key_constraints, lemma_key_code_parts, lemma_word_references_push, operation_references,
    position_references, references, term_reference, word_references, KeyedRef, Reference,
};

verus! {

/// Whether operand positions do not fall.
pub open spec fn operands_ascend(uses: Seq<ConstraintIndex>) -> bool {
    forall|i: int, j: int|
        0 <= i < j < uses.len() ==> (#[trigger] uses[i]).operand_index <= (
        #[trigger] uses[j]).operand_index
}

/// Whether, under every code, operand positions do not fall.
pub open spec fn codes_ascend(refs: Seq<KeyedRef>) -> bool {
    forall|i: int, j: int|
        0 <= i < j < refs.len() && (#[trigger] refs[i]).code == (#[trigger] refs[j]).code
            ==> refs[i].constraint.operand_index <= refs[j].constraint.operand_index
}

/// The uses of a list of references.
pub open spec fn keyed(references: Seq<Reference>) -> Seq<KeyedRef> {
    references.map_values(|r: Reference| r.keyed)
}

/// Every use under a code is a use with that code.
pub proof fn lemma_key_constraint_source(refs: Seq<KeyedRef>, code: int, t: int) -> (i: int)
    requires
        0 <= t < key_constraints(refs, code).len(),
    ensures
        0 <= i < refs.len(),
        refs[i].code == code,
        refs[i].constraint == key_constraints(refs, code)[t],
    decreases refs.len(),
{
    let prefix = refs.drop_last();
    if t < key_constraints(prefix, code).len() {
        let i = lemma_key_constraint_source(prefix, code, t);
        assert(prefix[i] == refs[i]);
        i
    } else {
        refs.len() - 1
    }
}

/// Where operand positions do not fall under any code, they do not fall in any key.
pub proof fn lemma_key_constraints_ascend(refs: Seq<KeyedRef>, code: int)
    requires
        codes_ascend(refs),
    ensures
        operands_ascend(key_constraints(refs, code)),
    decreases refs.len(),
{
    if refs.len() > 0 {
        let prefix = refs.drop_last();
        assert forall|i: int, j: int|
            0 <= i < j < prefix.len() && (#[trigger] prefix[i]).code == (
            #[trigger] prefix[j]).code implies prefix[i].constraint.operand_index
            <= prefix[j].constraint.operand_index by {
            assert(prefix[i] == refs[i] && prefix[j] == refs[j]);
        }
        lemma_key_constraints_ascend(prefix, code);
        let before = key_constraints(prefix, code);
        let after = key_constraints(refs, code);
        assert forall|i: int, j: int| 0 <= i < j < after.len() implies (
        #[trigger] after[i]).operand_index <= (#[trigger] after[j]).operand_index by {
            if j < before.len() {
                assert(after[i] == before[i] && after[j] == before[j]);
            } else {
                assert(after[i] == before[i]);
                let k = lemma_key_constraint_source(prefix, code, i);
                assert(prefix[k] == refs[k]);
                assert(refs[refs.len() - 1].code == code);
            }
        }
    }
}

/// Every word's part of a list whose operand positions do not fall under any code is such a list.
pub proof fn lemma_word_references_ascend(references: Seq<Reference>, word: int)
    requires
        codes_ascend(keyed(references)),
    ensures
        codes_ascend(word_references(references, word)),
        forall|t: int|
            0 <= t < word_references(references, word).len() ==> keyed(references).contains(
                #[trigger] word_references(references, word)[t],
            ),
    decreases references.len(),
{
    let all = keyed(references);
    if references.len() == 0 {
        references.lemma_filter_len(|r: Reference| r.word == word);
    } else {
        let prefix = references.drop_last();
        let last = references.last();
        let shorter = keyed(prefix);
        assert forall|i: int, j: int|
            0 <= i < j < shorter.len() && (#[trigger] shorter[i]).code == (
            #[trigger] shorter[j]).code implies shorter[i].constraint.operand_index
            <= shorter[j].constraint.operand_index by {
            assert(shorter[i] == all[i] && shorter[j] == all[j]);
        }
        lemma_word_references_ascend(prefix, word);
        lemma_word_references_push(prefix, last, word);
        assert(prefix.push(last) =~= references);
        let before = word_references(prefix, word);
        let after = word_references(references, word);
        assert(all[all.len() - 1] == last.keyed);
        assert forall|t: int| 0 <= t < after.len() implies all.contains(#[trigger] after[t]) by {
            if t < before.len() {
                assert(after[t] == before[t]);
                let i = choose|i: int| 0 <= i < shorter.len() && shorter[i] == before[t];
                assert(all[i] == shorter[i]);
            }
        }
        assert forall|i: int, j: int|
            0 <= i < j < after.len() && (#[trigger] after[i]).code == (
            #[trigger] after[j]).code implies after[i].constraint.operand_index
            <= after[j].constraint.operand_index by {
            assert(after[i] == before[i]);
            if j < before.len() {
                assert(after[j] == before[j]);
            } else {
                let k = choose|k: int| 0 <= k < shorter.len() && shorter[k] == before[i];
                assert(all[k] == shorter[k]);
            }
        }
    }
}

/// All references of one position have that operand position and a code of the operation.
proof fn lemma_position_references(
    cs: ConstraintSystemModel,
    operation: Operation,
    operand_index: int,
    constraints: Seq<Seq<Seq<Term>>>,
    n: int,
)
    requires
        0 <= n <= constraints.len(),
        0 <= operand_index < 256,
        forall|i: int| 0 <= i < constraints.len() ==> operand_index < (#[trigger] constraints[i]).len(),
        cs.constraints_valid(constraints),
    ensures
        forall|i: int|
            0 <= i < position_references(cs, operation, operand_index, constraints, n).len() ==> (
            #[trigger] position_references(
                cs,
                operation,
                operand_index,
                constraints,
                n,
            )[i]).keyed.constraint.operand_index == operand_index && position_references(
                cs,
                operation,
                operand_index,
                constraints,
                n,
            )[i].keyed.code / 262144 == operation.code_model(),
    decreases n,
{
    if n > 0 {
        lemma_position_references(cs, operation, operand_index, constraints, n - 1);
        let before = position_references(cs, operation, operand_index, constraints, n - 1);
        let after = position_references(cs, operation, operand_index, constraints, n);
        assert(operand_index < constraints[n - 1].len());
        assert forall|i: int| 0 <= i < after.len() implies (
        #[trigger] after[i]).keyed.constraint.operand_index == operand_index && after[i].keyed.code
            / 262144 == operation.code_model() by {
            if i < before.len() {
                assert(after[i] == before[i]);
            } else {
                let t = i - before.len();
                let term = constraints[n - 1][operand_index][t];
                assert(cs.term_valid(constraints[n - 1][operand_index][t]));
                assert(after[i] == term_reference(cs, operation, operand_index, n - 1, term));
                lemma_key_code_parts(operation, term.seq_code());
            }
        }
    }
}

/// Along one operation's references operand positions do not fall.
proof fn lemma_operation_references(
    cs: ConstraintSystemModel,
    operation: Operation,
    constraints: Seq<Seq<Seq<Term>>>,
    n: int,
)
    requires
        0 <= n <= 256,
        forall|i: int| 0 <= i < constraints.len() ==> n <= (#[trigger] constraints[i]).len(),
        cs.constraints_valid(constraints),
    ensures
        ({
            let refs = keyed(operation_references(cs, operation, constraints, n));
            &&& codes_ascend(refs)
            &&& forall|i: int|
                0 <= i < refs.len() ==> (#[trigger] refs[i]).code / 262144
                    == operation.code_model() && refs[i].constraint.operand_index < n
        }),
    decreases n,
{
    if n > 0 {
        lemma_operation_references(cs, operation, constraints, n - 1);
        assert forall|i: int| 0 <= i < constraints.len() implies n - 1 < (
        #[trigger] constraints[i]).len() by {}
        lemma_position_references(
            cs,
            operation,
            n - 1,
            constraints,
            constraints.len() as int,
        );
        let before = operation_references(cs, operation, constraints, n - 1);
        let added = position_references(
            cs,
            operation,
            n - 1,
            constraints,
            constraints.len() as int,
        );
        let refs = keyed(before + added);
        assert forall|i: int| 0 <= i < refs.len() implies (#[trigger] refs[i]).code / 262144
            == operation.code_model() && refs[i].constraint.operand_index < n && (i < before.len()
            ==> refs[i] == keyed(before)[i] && refs[i].constraint.operand_index < n - 1) && (i
            >= before.len() ==> refs[i].constraint.operand_index == n - 1) by {
            if i < before.len() {
                assert(refs[i] == keyed(before)[i]);
            } else {
                assert(refs[i] == added[i - before.len()].keyed);
            }
        }
    }
}

/// Two lists under different operations do not mix.
proof fn lemma_codes_ascend_add(a: Seq<Reference>, b: Seq<Reference>, bound: int)
    requires
        codes_ascend(keyed(a)),
        codes_ascend(keyed(b)),
        forall|i: int| 0 <= i < a.len() ==> (#[trigger] keyed(a)[i]).code / 262144 < bound,
        forall|i: int| 0 <= i < b.len() ==> (#[trigger] keyed(b)[i]).code / 262144 == bound,
    ensures
        codes_ascend(keyed(a + b)),
        forall|i: int|
            0 <= i < (a + b).len() ==> (#[trigger] keyed(a + b)[i]).code / 262144 < bound + 1,
{
    let refs = keyed(a + b);
    assert forall|i: int| 0 <= i < refs.len() implies (#[trigger] refs[i]).code / 262144 < bound + 1
        && (i < a.len() ==> refs[i] == keyed(a)[i] && refs[i].code / 262144 < bound) && (i
        >= a.len() ==> refs[i] == keyed(b)[i - a.len()] && refs[i].code / 262144 == bound) by {
        if i < a.len() {
            assert(refs[i] == keyed(a)[i]);
        } else {
            assert(refs[i] == keyed(b)[i - a.len()]);
        }
    }
}

/// Under every code, walk order is by operand position.
pub proof fn lemma_references_ascend(cs: ConstraintSystem)
    requires
        cs.deep_view().valid(),
    ensures
        codes_ascend(keyed(references(cs.deep_view()))),
{
    let csm = cs.deep_view();
    let zero = operation_references(csm, Operation::Zero, csm.zero_constraints, 1);
    let and = operation_references(csm, Operation::BitwiseAnd, csm.and_constraints, 3);
    let imul = operation_references(csm, Operation::IntegerMul, csm.imul_constraints, 4);
    let bmul = operation_references(csm, Operation::BinMul, csm.bmul_constraints, 6);
    lemma_operation_references(csm, Operation::Zero, csm.zero_constraints, 1);
    lemma_operation_references(csm, Operation::BitwiseAnd, csm.and_constraints, 3);
    lemma_operation_references(csm, Operation::IntegerMul, csm.imul_constraints, 4);
    lemma_operation_references(csm, Operation::BinMul, csm.bmul_constraints, 6);
    lemma_codes_ascend_add(zero, and, 1);
    lemma_codes_ascend_add(zero + and, imul, 2);
    lemma_codes_ascend_add(zero + and + imul, bmul, 3);
}

/// Inside a key, operand positions do not fall: a linear scan meets each operand once.
pub proof fn law_operands_ascend(cs: ConstraintSystem, word: int, code: int)
    requires
        cs.deep_view().valid(),
    ensures
        operands_ascend(key_constraints(word_references(references(cs.deep_view()), word), code)),
{
    lemma_references_ascend(cs);
    lemma_word_references_ascend(references(cs.deep_view()), word);
    lemma_key_constraints_ascend(word_references(references(cs.deep_view()), word), code);
}

} // verus!
