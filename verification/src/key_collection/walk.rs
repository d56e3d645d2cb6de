//! The walk over a constraint system's references, use by use: in which order they come, how often
//! each comes, and where the keys hold them.

use vstd::prelude::*;

use crate::constraint_system::{
    lemma_seq_code_injective, seq_code_model, seq_wf, ConstraintSystem, ConstraintSystemModel,
    InoutSegment, Shift, ShiftedValueIndex, Term, ValueIndex,
};
use crate::key_collection::collection::KeyCollection;
use crate::key_collection::key::{ConstraintIndex, Operation};
use crate::key_collection::key_segment::{
    key_represents, law_word_keys, lemma_word_ranges, KeySegment,
};
use crate::key_collection::model::{
    first_codes, hidden_groups, key_code, key_constraints, lemma_first_codes, lemma_flatten_index,
    lemma_key_code_parts, lemma_no_key_constraints, lemma_word_references_push, operand_references,
    operation_references, position_references, public_groups, references, term_reference,
    word_groups, word_references, KeyGroup, KeyedRef, Reference,
};
use crate::key_collection::operand_order::{keyed, lemma_key_constraint_source};
use crate::key_collection::reference::by_operand;

verus! {

/// Whether one use comes no later in the walk than another: by operation, then by operand position,
/// then by constraint.
pub open spec fn no_later(a: KeyedRef, b: KeyedRef) -> bool {
    ||| a.code / 262144 < b.code / 262144
    ||| a.code / 262144 == b.code / 262144 && (a.constraint.operand_index
        < b.constraint.operand_index || (a.constraint.operand_index == b.constraint.operand_index
        && a.constraint.constraint_index <= b.constraint.constraint_index))
}

pub open spec fn in_walk_order(refs: Seq<KeyedRef>) -> bool {
    forall|i: int, j: int|
        0 <= i < j < refs.len() ==> no_later(#[trigger] refs[i], #[trigger] refs[j])
}

/// The references of one position come by constraint.
pub proof fn lemma_position_order(
    cs: ConstraintSystemModel,
    operation: Operation,
    p: int,
    constraints: Seq<Seq<Seq<Term>>>,
    n: int,
)
    requires
        0 <= n <= constraints.len() <= u32::MAX + 1,
        0 <= p < 256,
        forall|i: int| 0 <= i < constraints.len() ==> p < (#[trigger] constraints[i]).len(),
        cs.constraints_valid(constraints),
    ensures
        ({
            let refs = keyed(position_references(cs, operation, p, constraints, n));
            &&& in_walk_order(refs)
            &&& forall|i: int|
                0 <= i < refs.len() ==> (#[trigger] refs[i]).code / 262144 == operation.code_model()
                    && refs[i].constraint.operand_index == p && refs[i].constraint.constraint_index
                    < n
        }),
    decreases n,
{
    if n > 0 {
        lemma_position_order(cs, operation, p, constraints, n - 1);
        let before = position_references(cs, operation, p, constraints, n - 1);
        let operand = constraints[n - 1][p];
        let added = operand_references(cs, operation, p, n - 1, operand);
        let refs = keyed(before + added);
        assert(p < constraints[n - 1].len());
        assert forall|i: int| 0 <= i < refs.len() implies (#[trigger] refs[i]).code / 262144
            == operation.code_model() && refs[i].constraint.operand_index == p
            && refs[i].constraint.constraint_index < n && (i < before.len() ==> refs[i] == keyed(
            before,
        )[i] && refs[i].constraint.constraint_index < n - 1) && (i >= before.len()
            ==> refs[i].constraint.constraint_index == n - 1) by {
            if i < before.len() {
                assert(refs[i] == keyed(before)[i]);
            } else {
                let t = i - before.len();
                assert(cs.term_valid(constraints[n - 1][p][t]));
                assert(refs[i] == term_reference(cs, operation, p, n - 1, operand[t]).keyed);
                lemma_key_code_parts(operation, operand[t].seq_code());
            }
        }
    }
}

/// The references of one operation come by operand position, then by constraint.
pub proof fn lemma_operation_order(
    cs: ConstraintSystemModel,
    operation: Operation,
    constraints: Seq<Seq<Seq<Term>>>,
    n: int,
)
    requires
        0 <= n <= 256,
        constraints.len() <= u32::MAX + 1,
        forall|i: int| 0 <= i < constraints.len() ==> n <= (#[trigger] constraints[i]).len(),
        cs.constraints_valid(constraints),
    ensures
        ({
            let refs = keyed(operation_references(cs, operation, constraints, n));
            &&& in_walk_order(refs)
            &&& forall|i: int|
                0 <= i < refs.len() ==> (#[trigger] refs[i]).code / 262144 == operation.code_model()
                    && refs[i].constraint.operand_index < n && refs[i].constraint.constraint_index
                    < constraints.len()
        }),
    decreases n,
{
    if n > 0 {
        lemma_operation_order(cs, operation, constraints, n - 1);
        assert forall|i: int| 0 <= i < constraints.len() implies n - 1 < (
        #[trigger] constraints[i]).len() by {}
        let m = constraints.len() as int;
        lemma_position_order(cs, operation, n - 1, constraints, m);
        let before = operation_references(cs, operation, constraints, n - 1);
        let added = position_references(cs, operation, n - 1, constraints, m);
        let refs = keyed(before + added);
        assert forall|i: int| 0 <= i < refs.len() implies (#[trigger] refs[i]).code / 262144
            == operation.code_model() && refs[i].constraint.operand_index < n
            && refs[i].constraint.constraint_index < m && (i < before.len() ==> refs[i] == keyed(
            before,
        )[i] && refs[i].constraint.operand_index < n - 1) && (i >= before.len() ==> refs[i]
            == keyed(added)[i - before.len()] && refs[i].constraint.operand_index == n - 1) by {
            if i < before.len() {
                assert(refs[i] == keyed(before)[i]);
            } else {
                assert(refs[i] == keyed(added)[i - before.len()]);
            }
        }
    }
}

/// What comes in walk order comes so behind what has earlier operations.
pub proof fn lemma_order_add(a: Seq<Reference>, b: Seq<Reference>, bound: int)
    requires
        in_walk_order(keyed(a)),
        in_walk_order(keyed(b)),
        forall|i: int| 0 <= i < a.len() ==> (#[trigger] keyed(a)[i]).code / 262144 < bound,
        forall|i: int| 0 <= i < b.len() ==> (#[trigger] keyed(b)[i]).code / 262144 == bound,
    ensures
        in_walk_order(keyed(a + b)),
        forall|i: int|
            0 <= i < (a + b).len() ==> (#[trigger] keyed(a + b)[i]).code / 262144 < bound + 1,
{
    let refs = keyed(a + b);
    assert forall|i: int| 0 <= i < refs.len() implies (#[trigger] refs[i]).code / 262144 < bound + 1
        && (i < a.len() ==> refs[i] == keyed(a)[i] && refs[i].code / 262144 < bound) && (i
        >= a.len() ==> refs[i] == keyed(b)[i - a.len()] && refs[i].code / 262144 == bound) by {
        if i < a.len() {
            assert(refs[i] == keyed(a)[i]);
        } else {
            assert(refs[i] == keyed(b)[i - a.len()]);
        }
    }
}

/// All references come in walk order.
pub proof fn lemma_references_order(cs: ConstraintSystem)
    requires
        cs.deep_view().valid(),
        cs.zero_constraints@.len() <= u32::MAX + 1,
        cs.and_constraints@.len() <= u32::MAX + 1,
        cs.imul_constraints@.len() <= u32::MAX + 1,
        cs.bmul_constraints@.len() <= u32::MAX + 1,
    ensures
        in_walk_order(keyed(references(cs.deep_view()))),
{
    let csm = cs.deep_view();
    let zero = operation_references(csm, Operation::Zero, csm.zero_constraints, 1);
    let and = operation_references(csm, Operation::BitwiseAnd, csm.and_constraints, 3);
    let imul = operation_references(csm, Operation::IntegerMul, csm.imul_constraints, 4);
    let bmul = operation_references(csm, Operation::BinMul, csm.bmul_constraints, 6);
    lemma_operation_order(csm, Operation::Zero, csm.zero_constraints, 1);
    lemma_operation_order(csm, Operation::BitwiseAnd, csm.and_constraints, 3);
    lemma_operation_order(csm, Operation::IntegerMul, csm.imul_constraints, 4);
    lemma_operation_order(csm, Operation::BinMul, csm.bmul_constraints, 6);
    lemma_order_add(zero, and, 1);
    lemma_order_add(zero + and, imul, 2);
    lemma_order_add(zero + and + imul, bmul, 3);
}

/// A word's uses come in walk order.
pub proof fn lemma_word_order(references: Seq<Reference>, word: int)
    requires
        in_walk_order(keyed(references)),
    ensures
        in_walk_order(word_references(references, word)),
        forall|t: int|
            0 <= t < word_references(references, word).len() ==> keyed(references).contains(
                #[trigger] word_references(references, word)[t],
            ),
    decreases references.len(),
{
    let all = keyed(references);
    if references.len() == 0 {
        references.lemma_filter_len(|r: Reference| r.word == word);
    } else {
        let prefix = references.drop_last();
        let last = references.last();
        let shorter = keyed(prefix);
        assert forall|i: int, j: int| 0 <= i < j < shorter.len() implies no_later(
            #[trigger] shorter[i],
            #[trigger] shorter[j],
        ) by {
            assert(shorter[i] == all[i] && shorter[j] == all[j]);
        }
        lemma_word_order(prefix, word);
        lemma_word_references_push(prefix, last, word);
        assert(prefix.push(last) =~= references);
        let before = word_references(prefix, word);
        let after = word_references(references, word);
        assert(all[all.len() - 1] == last.keyed);
        assert forall|t: int| 0 <= t < after.len() implies all.contains(#[trigger] after[t]) by {
            if t < before.len() {
                assert(after[t] == before[t]);
                let i = choose|i: int| 0 <= i < shorter.len() && shorter[i] == before[t];
                assert(all[i] == shorter[i]);
            }
        }
        assert forall|i: int, j: int| 0 <= i < j < after.len() implies no_later(
            #[trigger] after[i],
            #[trigger] after[j],
        ) by {
            assert(after[i] == before[i]);
            if j < before.len() {
                assert(after[j] == before[j]);
            } else {
                let k = choose|k: int| 0 <= k < shorter.len() && shorter[k] == before[i];
                assert(all[k] == shorter[k]);
                assert(no_later(all[k], all[all.len() - 1]));
            }
        }
    }
}

/// The uses under a code come in walk order.
pub proof fn lemma_key_order(refs: Seq<KeyedRef>, code: int)
    requires
        in_walk_order(refs),
    ensures
        forall|i: int, j: int|
            0 <= i < j < key_constraints(refs, code).len() ==> no_later(
                KeyedRef { code, constraint: #[trigger] key_constraints(refs, code)[i] },
                KeyedRef { code, constraint: #[trigger] key_constraints(refs, code)[j] },
            ),
    decreases refs.len(),
{
    if refs.len() > 0 {
        let prefix = refs.drop_last();
        assert forall|i: int, j: int| 0 <= i < j < prefix.len() implies no_later(
            #[trigger] prefix[i],
            #[trigger] prefix[j],
        ) by {
            assert(prefix[i] == refs[i] && prefix[j] == refs[j]);
        }
        lemma_key_order(prefix, code);
        let before = key_constraints(prefix, code);
        let after = key_constraints(refs, code);
        assert forall|i: int, j: int| 0 <= i < j < after.len() implies no_later(
            KeyedRef { code, constraint: #[trigger] after[i] },
            KeyedRef { code, constraint: #[trigger] after[j] },
        ) by {
            assert(after[i] == before[i]);
            if j < before.len() {
                assert(after[j] == before[j]);
            } else {
                let k = lemma_key_constraint_source(prefix, code, i);
                assert(prefix[k] == refs[k]);
                assert(no_later(refs[k], refs[refs.len() - 1]));
            }
        }
    }
}

/// Codes come in the order of their first uses, and each has one.
pub proof fn lemma_code_order(refs: Seq<KeyedRef>)
    requires
        in_walk_order(refs),
    ensures
        ({
            let codes = first_codes(refs);
            &&& forall|k: int|
                0 <= k < codes.len() ==> key_constraints(refs, #[trigger] codes[k]).len() > 0
            &&& forall|k: int, l: int|
                0 <= k < l < codes.len() ==> no_later(
                    KeyedRef {
                        code: #[trigger] codes[k],
                        constraint: key_constraints(refs, codes[k])[0],
                    },
                    KeyedRef {
                        code: #[trigger] codes[l],
                        constraint: key_constraints(refs, codes[l])[0],
                    },
                )
        }),
    decreases refs.len(),
{
    if refs.len() > 0 {
        let prefix = refs.drop_last();
        assert forall|i: int, j: int| 0 <= i < j < prefix.len() implies no_later(
            #[trigger] prefix[i],
            #[trigger] prefix[j],
        ) by {
            assert(prefix[i] == refs[i] && prefix[j] == refs[j]);
        }
        lemma_code_order(prefix);
        lemma_first_codes(prefix);
        let before = first_codes(prefix);
        let codes = first_codes(refs);
        let last = refs.last();
        assert forall|k: int| 0 <= k < codes.len() implies key_constraints(
            refs,
            #[trigger] codes[k],
        ).len() > 0 && (k < before.len() ==> codes[k] == before[k] && key_constraints(
            refs,
            codes[k],
        )[0] == key_constraints(prefix, before[k])[0]) && (k >= before.len() ==> codes[k]
            == last.code && key_constraints(refs, codes[k])[0] == last.constraint) by {
            if k < before.len() {
                assert(codes[k] == before[k]);
                assert(key_constraints(prefix, before[k]).len() > 0);
            } else {
                lemma_no_key_constraints(prefix, last.code);
            }
        }
        assert forall|k: int, l: int| 0 <= k < l < codes.len() implies no_later(
            KeyedRef {
                code: #[trigger] codes[k],
                constraint: key_constraints(refs, codes[k])[0],
            },
            KeyedRef {
                code: #[trigger] codes[l],
                constraint: key_constraints(refs, codes[l])[0],
            },
        ) by {
            if l < before.len() {
                assert(codes[k] == before[k] && codes[l] == before[l]);
            } else {
                assert(codes[k] == before[k]);
                let i = lemma_key_constraint_source(prefix, before[k], 0);
                assert(prefix[i] == refs[i]);
                assert(no_later(refs[i], refs[refs.len() - 1]));
            }
        }
    }
}

/// How often a use occurs in a list.
pub open spec fn times(references: Seq<Reference>, r: Reference) -> nat
    decreases references.len(),
{
    if references.len() == 0 {
        0
    } else {
        times(references.drop_last(), r) + (if references.last() == r {
            1nat
        } else {
            0nat
        })
    }
}

pub proof fn lemma_times_add(a: Seq<Reference>, b: Seq<Reference>, r: Reference)
    ensures
        times(a + b, r) == times(a, r) + times(b, r),
    decreases b.len(),
{
    if b.len() == 0 {
        assert(a + b =~= a);
    } else {
        assert((a + b).drop_last() =~= a + b.drop_last());
        lemma_times_add(a, b.drop_last(), r);
    }
}

/// A word's key has a use as often as the list has it.
pub proof fn lemma_key_times(references: Seq<Reference>, r: Reference)
    ensures
        key_constraints(word_references(references, r.word), r.keyed.code).filter(
            |u: ConstraintIndex| u == r.keyed.constraint,
        ).len() == times(references, r),
    decreases references.len(),
{
    let pred = |u: ConstraintIndex| u == r.keyed.constraint;
    if references.len() == 0 {
        references.lemma_filter_len(|x: Reference| x.word == r.word);
        Seq::<ConstraintIndex>::empty().lemma_filter_len(pred);
    } else {
        let prefix = references.drop_last();
        let last = references.last();
        lemma_key_times(prefix, r);
        lemma_word_references_push(prefix, last, r.word);
        assert(prefix.push(last) =~= references);
        if last.word == r.word {
            let before = word_references(prefix, r.word);
            assert(before.push(last.keyed).drop_last() =~= before);
            if last.keyed.code == r.keyed.code {
                key_constraints(before, r.keyed.code).lemma_filter_len_push(
                    pred,
                    last.keyed.constraint,
                );
            }
        }
    }
}

/// How many terms of an operand name a word under a shift sequence.
pub open spec fn term_times(cs: ConstraintSystemModel, operand: Seq<Term>, word: int,
    code: int) -> nat
    decreases operand.len(),
{
    if operand.len() == 0 {
        0
    } else {
        term_times(cs, operand.drop_last(), word, code) + (if cs.word_offset(
            operand.last().value_index,
        ) == word && operand.last().seq_code() == code {
            1nat
        } else {
            0nat
        })
    }
}

/// The use of a word by operand `p` of constraint `c` of an operation, under a shift sequence.
pub open spec fn use_of(word: int, operation: Operation, code: int, p: int, c: int) -> Reference {
    Reference {
        word,
        keyed: KeyedRef {
            code: key_code(operation, code),
            constraint: ConstraintIndex { operand_index: p as u8, constraint_index: c as u32 },
        },
    }
}

/// An operand makes a use as often as its terms name the word under the shift sequence, if it is
/// the use's operand, and never otherwise.
pub proof fn lemma_operand_times(
    cs: ConstraintSystemModel,
    op: Operation,
    at: int,
    n: int,
    operand: Seq<Term>,
    word: int,
    operation: Operation,
    code: int,
    p: int,
    c: int,
)
    requires
        forall|t: int| 0 <= t < operand.len() ==> cs.term_valid(#[trigger] operand[t]),
        0 <= code < 262144,
        0 <= at < 256,
        0 <= p < 256,
        0 <= n <= u32::MAX,
        0 <= c <= u32::MAX,
    ensures
        times(operand_references(cs, op, at, n, operand), use_of(word, operation, code, p, c))
            == if op == operation && at == p && n == c {
            term_times(cs, operand, word, code)
        } else {
            0
        },
    decreases operand.len(),
{
    if operand.len() > 0 {
        let prefix = operand.drop_last();
        let last = operand.last();
        assert(last == operand[operand.len() - 1]);
        assert forall|t: int| 0 <= t < prefix.len() implies cs.term_valid(
            #[trigger] prefix[t],
        ) by {
            assert(prefix[t] == operand[t]);
        }
        lemma_operand_times(cs, op, at, n, prefix, word, operation, code, p, c);
        assert(operand_references(cs, op, at, n, operand).drop_last() =~= operand_references(
            cs,
            op,
            at,
            n,
            prefix,
        ));
        lemma_key_code_parts(op, last.seq_code());
        lemma_key_code_parts(operation, code);
    }
}

pub proof fn lemma_position_times(
    cs: ConstraintSystemModel,
    op: Operation,
    at: int,
    constraints: Seq<Seq<Seq<Term>>>,
    n: int,
    word: int,
    operation: Operation,
    code: int,
    p: int,
    c: int,
)
    requires
        0 <= n <= constraints.len() <= u32::MAX + 1,
        0 <= at < 256,
        forall|i: int| 0 <= i < constraints.len() ==> at < (#[trigger] constraints[i]).len(),
        cs.constraints_valid(constraints),
        0 <= code < 262144,
        0 <= p < 256,
        0 <= c <= u32::MAX,
    ensures
        times(position_references(cs, op, at, constraints, n), use_of(word, operation, code, p, c))
            == if op == operation && at == p && c < n {
            term_times(cs, constraints[c][p], word, code)
        } else {
            0
        },
    decreases n,
{
    if n > 0 {
        let r = use_of(word, operation, code, p, c);
        lemma_position_times(cs, op, at, constraints, n - 1, word, operation, code, p, c);
        let operand = constraints[n - 1][at];
        assert(at < constraints[n - 1].len());
        assert forall|t: int| 0 <= t < operand.len() implies cs.term_valid(
            #[trigger] operand[t],
        ) by {
            assert(cs.term_valid(constraints[n - 1][at][t]));
        }
        lemma_operand_times(cs, op, at, n - 1, operand, word, operation, code, p, c);
        lemma_times_add(
            position_references(cs, op, at, constraints, n - 1),
            operand_references(cs, op, at, n - 1, operand),
            r,
        );
    }
}

pub proof fn lemma_operation_times(
    cs: ConstraintSystemModel,
    op: Operation,
    constraints: Seq<Seq<Seq<Term>>>,
    n: int,
    word: int,
    operation: Operation,
    code: int,
    p: int,
    c: int,
)
    requires
        0 <= n <= 256,
        constraints.len() <= u32::MAX + 1,
        forall|i: int| 0 <= i < constraints.len() ==> n <= (#[trigger] constraints[i]).len(),
        cs.constraints_valid(constraints),
        0 <= code < 262144,
        0 <= p < 256,
        0 <= c <= u32::MAX,
    ensures
        times(operation_references(cs, op, constraints, n), use_of(word, operation, code, p, c))
            == if op == operation && p < n && c < constraints.len() {
            term_times(cs, constraints[c][p], word, code)
        } else {
            0
        },
    decreases n,
{
    if n > 0 {
        let r = use_of(word, operation, code, p, c);
        let m = constraints.len() as int;
        lemma_operation_times(cs, op, constraints, n - 1, word, operation, code, p, c);
        assert forall|i: int| 0 <= i < constraints.len() implies n - 1 < (
        #[trigger] constraints[i]).len() by {}
        lemma_position_times(cs, op, n - 1, constraints, m, word, operation, code, p, c);
        lemma_times_add(
            operation_references(cs, op, constraints, n - 1),
            position_references(cs, op, n - 1, constraints, m),
            r,
        );
    }
}

/// A use occurs among all references as often as its operand's terms name the word under the shift
/// sequence.
pub proof fn lemma_references_times(
    cs: ConstraintSystem,
    word: int,
    operation: Operation,
    code: int,
    p: int,
    c: int,
)
    requires
        cs.deep_view().valid(),
        cs.zero_constraints@.len() <= u32::MAX + 1,
        cs.and_constraints@.len() <= u32::MAX + 1,
        cs.imul_constraints@.len() <= u32::MAX + 1,
        cs.bmul_constraints@.len() <= u32::MAX + 1,
        0 <= code < 262144,
        0 <= p < 256,
        0 <= c <= u32::MAX,
    ensures
        ({
            let csm = cs.deep_view();
            let n = times(references(csm), use_of(word, operation, code, p, c));
            match operation {
                Operation::Zero => n == if p < 1 && c < cs.zero_constraints@.len() {
                    term_times(csm, csm.zero_constraints[c][p], word, code)
                } else {
                    0
                },
                Operation::BitwiseAnd => n == if p < 3 && c < cs.and_constraints@.len() {
                    term_times(csm, csm.and_constraints[c][p], word, code)
                } else {
                    0
                },
                Operation::IntegerMul => n == if p < 4 && c < cs.imul_constraints@.len() {
                    term_times(csm, csm.imul_constraints[c][p], word, code)
                } else {
                    0
                },
                Operation::BinMul => n == if p < 6 && c < cs.bmul_constraints@.len() {
                    term_times(csm, csm.bmul_constraints[c][p], word, code)
                } else {
                    0
                },
            }
        }),
{
    let csm = cs.deep_view();
    let r = use_of(word, operation, code, p, c);
    let zero = operation_references(csm, Operation::Zero, csm.zero_constraints, 1);
    let and = operation_references(csm, Operation::BitwiseAnd, csm.and_constraints, 3);
    let imul = operation_references(csm, Operation::IntegerMul, csm.imul_constraints, 4);
    let bmul = operation_references(csm, Operation::BinMul, csm.bmul_constraints, 6);
    lemma_times_add(zero, and, r);
    lemma_times_add(zero + and, imul, r);
    lemma_times_add(zero + and + imul, bmul, r);
    lemma_operation_times(
        csm, Operation::Zero, csm.zero_constraints, 1, word, operation, code, p, c,
    );
    lemma_operation_times(
        csm, Operation::BitwiseAnd, csm.and_constraints, 3, word, operation, code, p, c,
    );
    lemma_operation_times(
        csm, Operation::IntegerMul, csm.imul_constraints, 4, word, operation, code, p, c,
    );
    lemma_operation_times(
        csm, Operation::BinMul, csm.bmul_constraints, 6, word, operation, code, p, c,
    );
}

/// A choice among an operand's terms that agrees with their place and shift sequence picks as many.
pub proof fn lemma_picked(
    cs: ConstraintSystemModel,
    operand: Seq<ShiftedValueIndex>,
    model: Seq<Term>,
    pick: spec_fn(ShiftedValueIndex) -> bool,
    word: int,
    code: int,
)
    requires
        model.len() == operand.len(),
        forall|t: int|
            0 <= t < operand.len() ==> #[trigger] model[t] == operand[t].deep_view() && (pick(
                operand[t],
            ) <==> cs.word_offset(model[t].value_index) == word && model[t].seq_code() == code),
    ensures
        operand.filter(pick).len() == term_times(cs, model, word, code),
    decreases operand.len(),
{
    if operand.len() == 0 {
        operand.lemma_filter_len(pick);
    } else {
        let n = operand.len() - 1;
        let prefix = operand.drop_last();
        assert forall|t: int| 0 <= t < prefix.len() implies #[trigger] model.drop_last()[t]
            == prefix[t].deep_view() && (pick(prefix[t]) <==> cs.word_offset(
            model.drop_last()[t].value_index,
        ) == word && model.drop_last()[t].seq_code() == code) by {
            assert(model[t] == operand[t].deep_view());
        }
        lemma_picked(cs, prefix, model.drop_last(), pick, word, code);
        assert(model[n] == operand[n].deep_view());
        assert(prefix.push(operand[n]) =~= operand);
        prefix.lemma_filter_len_push(pick, operand[n]);
    }
}

pub proof fn lemma_same_choice<A>(s: Seq<A>, f: spec_fn(A) -> bool, g: spec_fn(A) -> bool)
    requires
        forall|i: int| 0 <= i < s.len() ==> (f(#[trigger] s[i]) <==> g(s[i])),
    ensures
        s.filter(f).len() == s.filter(g).len(),
    decreases s.len(),
{
    if s.len() == 0 {
        s.lemma_filter_len(f);
        s.lemma_filter_len(g);
    } else {
        let n = s.len() - 1;
        let prefix = s.drop_last();
        assert forall|i: int| 0 <= i < prefix.len() implies (f(#[trigger] prefix[i]) <==> g(
            prefix[i],
        )) by {
            assert(prefix[i] == s[i]);
        }
        lemma_same_choice(prefix, f, g);
        assert(prefix.push(s[n]) =~= s);
        prefix.lemma_filter_len_push(f, s[n]);
        prefix.lemma_filter_len_push(g, s[n]);
    }
}

pub proof fn lemma_no_choice<A>(s: Seq<A>, f: spec_fn(A) -> bool)
    requires
        forall|i: int| 0 <= i < s.len() ==> !f(#[trigger] s[i]),
    ensures
        s.filter(f).len() == 0,
    decreases s.len(),
{
    if s.len() == 0 {
        s.lemma_filter_len(f);
    } else {
        let n = s.len() - 1;
        let prefix = s.drop_last();
        assert forall|i: int| 0 <= i < prefix.len() implies !f(#[trigger] prefix[i]) by {
            assert(prefix[i] == s[i]);
        }
        lemma_no_choice(prefix, f);
        assert(prefix.push(s[n]) =~= s);
        prefix.lemma_filter_len_push(f, s[n]);
    }
}

/// The half that holds a word, its groups of uses, and the word's place in it.
pub proof fn lemma_half(
    collection: KeyCollection,
    cs: ConstraintSystem,
    inout: InoutSegment,
    word: int,
) -> (half: (KeySegment, Seq<Seq<KeyGroup>>, int))
    requires
        collection.represents(cs.deep_view(), inout),
        0 <= word < cs.constants@.len() + cs.n_inout + cs.n_private,
    ensures
        ({
            let n_public = cs.constants@.len() + if inout is Public {
                cs.n_inout as int
            } else {
                0
            };
            let segment = if word < n_public {
                collection.public
            } else {
                collection.hidden
            };
            let w = if word < n_public {
                word
            } else {
                word - n_public
            };
            let range = segment.key_ranges@[w];
            &&& half.0 == segment
            &&& half.2 == w
            &&& half.0.represents(half.1)
            &&& 0 <= half.2 < half.1.len()
            &&& half.1[half.2] == word_groups(word_references(references(cs.deep_view()), word))
            &&& 0 <= w < segment.key_ranges@.len()
            &&& range.start <= range.end <= segment.keys@.len()
            &&& range.end - range.start == half.1[half.2].len()
        }),
{
    let csm = cs.deep_view();
    let n_public = csm.n_public_words(inout);
    let half = if word < n_public {
        (collection.public, public_groups(csm, inout), word)
    } else {
        (collection.hidden, hidden_groups(csm, inout), word - n_public)
    };
    lemma_word_ranges(half.0, half.1, half.2);
    lemma_flatten_index(half.1, half.2);
    half
}

/// The operation and the shift sequence of a word's key make up its code, and its range holds the
/// uses under that code.
pub proof fn lemma_key(segment: KeySegment, words: Seq<Seq<KeyGroup>>, w: int, k: int)
    requires
        segment.represents(words),
        0 <= w < words.len(),
        0 <= k < words[w].len(),
    ensures
        ({
            let key = segment.keys@[segment.key_ranges@[w].start + k];
            let seq = segment.dense_shift_enc.seqs()[key.dense_shift_idx as int];
            &&& key.dense_shift_idx < segment.dense_shift_enc.seqs().len()
            &&& key.range.start <= key.range.end <= segment.constraint_indices@.len()
            &&& seq_wf(seq)
            &&& 0 <= seq_code_model(seq) < 262144
            &&& words[w][k].code == key_code(key.operation, seq_code_model(seq))
            &&& segment.constraint_indices@.subrange(key.range.start as int, key.range.end as int)
                == words[w][k].constraints
        }),
{
    law_word_keys(segment, words, w, k);
}

/// As many terms name a word under a shift sequence as the model counts.
pub proof fn lemma_terms_picked(
    cs: ConstraintSystem,
    operand: Seq<ShiftedValueIndex>,
    model: Seq<Term>,
    seq: [Shift; 2],
    word: int,
)
    requires
        model.len() == operand.len(),
        forall|t: int|
            0 <= t < operand.len() ==> #[trigger] model[t] == operand[t].deep_view()
                && cs.deep_view().term_valid(model[t]),
        seq_wf(seq),
    ensures
        operand.filter(
            |term: ShiftedValueIndex|
                term.shift_seq == seq && (match term.value_index {
                    ValueIndex::Constant(i) => i as int,
                    ValueIndex::Inout(i) => cs.constants@.len() + i,
                    ValueIndex::Private(i) => cs.constants@.len() + cs.n_inout + i,
                    ValueIndex::Scratch(_) => -1,
                }) == word,
        ).len() == term_times(cs.deep_view(), model, word, seq_code_model(seq)),
{
    let csm = cs.deep_view();
    let pick = |term: ShiftedValueIndex|
        term.shift_seq == seq && (match term.value_index {
            ValueIndex::Constant(i) => i as int,
            ValueIndex::Inout(i) => cs.constants@.len() + i,
            ValueIndex::Private(i) => cs.constants@.len() + cs.n_inout + i,
            ValueIndex::Scratch(_) => -1,
        }) == word;
    assert forall|t: int| 0 <= t < operand.len() implies #[trigger] model[t]
        == operand[t].deep_view() && (pick(operand[t]) <==> csm.word_offset(model[t].value_index)
        == word && model[t].seq_code() == seq_code_model(seq)) by {
        let term = operand[t];
        assert(model[t] == term.deep_view() && csm.term_valid(model[t]));
        assert(model[t].seq_code() == seq_code_model(term.shift_seq));
        if model[t].seq_code() == seq_code_model(seq) {
            lemma_seq_code_injective(term.shift_seq, seq);
        }
    }
    lemma_picked(csm, operand, model, pick, word, seq_code_model(seq));
}

/// A term that names a word under a shift sequence is counted.
pub proof fn lemma_term_counts(
    cs: ConstraintSystemModel,
    operand: Seq<Term>,
    t: int,
    word: int,
    code: int,
)
    requires
        0 <= t < operand.len(),
        cs.word_offset(operand[t].value_index) == word,
        operand[t].seq_code() == code,
    ensures
        term_times(cs, operand, word, code) > 0,
    decreases operand.len(),
{
    if t < operand.len() - 1 {
        lemma_term_counts(cs, operand.drop_last(), t, word, code);
    }
}

/// A use that occurs has a key: it stands among the uses under its code.
pub proof fn lemma_use_found(references: Seq<Reference>, r: Reference) -> (at: (int, int))
    requires
        times(references, r) > 0,
    ensures
        ({
            let groups = word_groups(word_references(references, r.word));
            &&& 0 <= at.0 < groups.len()
            &&& groups[at.0].code == r.keyed.code
            &&& 0 <= at.1 < groups[at.0].constraints.len()
            &&& groups[at.0].constraints[at.1] == r.keyed.constraint
        }),
{
    let refs = word_references(references, r.word);
    let uses = key_constraints(refs, r.keyed.code);
    let chosen = |u: ConstraintIndex| u == r.keyed.constraint;
    lemma_key_times(references, r);
    if forall|i: int| 0 <= i < uses.len() ==> !chosen(#[trigger] uses[i]) {
        lemma_no_choice(uses, chosen);
    }
    let i = choose|i: int| 0 <= i < uses.len() && chosen(#[trigger] uses[i]);
    if !first_codes(refs).contains(r.keyed.code) {
        lemma_no_key_constraints(refs, r.keyed.code);
    }
    let k = choose|k: int|
        0 <= k < first_codes(refs).len() && first_codes(refs)[k] == r.keyed.code;
    (k, i)
}

/// A use that occurs stands in the half of its word, in the range of a key of the word.
pub proof fn lemma_use_located(
    collection: KeyCollection,
    cs: ConstraintSystem,
    inout: InoutSegment,
    word: int,
    operation: Operation,
    shift_seq: [Shift; 2],
    p: int,
    c: int,
) -> (at: (int, int))
    requires
        collection.represents(cs.deep_view(), inout),
        0 <= word < cs.constants@.len() + cs.n_inout + cs.n_private,
        seq_wf(shift_seq),
        0 <= p < 256,
        0 <= c <= u32::MAX,
        times(
            references(cs.deep_view()),
            use_of(word, operation, seq_code_model(shift_seq), p, c),
        ) > 0,
    ensures
        ({
            let n_public = cs.constants@.len() + if inout is Public {
                cs.n_inout as int
            } else {
                0
            };
            let segment = if word < n_public {
                collection.public
            } else {
                collection.hidden
            };
            let w = if word < n_public {
                word
            } else {
                word - n_public
            };
            let range = segment.key_ranges@[w];
            let key = segment.keys@[at.0];
            &&& 0 <= w < segment.key_ranges@.len()
            &&& range.start <= range.end <= segment.keys@.len()
            &&& range.start <= at.0 < range.end
            &&& key.operation == operation
            &&& key.dense_shift_idx < segment.dense_shift_enc.seqs().len()
            &&& segment.dense_shift_enc.seqs()[key.dense_shift_idx as int] == shift_seq
            &&& key.range.start <= at.1 < key.range.end
            &&& key.range.end <= segment.constraint_indices@.len()
            &&& segment.constraint_indices@[at.1].operand_index == p
            &&& segment.constraint_indices@[at.1].constraint_index == c
        }),
{
    let code = seq_code_model(shift_seq);
    let (k, i) = lemma_use_found(
        references(cs.deep_view()),
        use_of(word, operation, code, p, c),
    );
    let (segment, words, w) = lemma_half(collection, cs, inout, word);
    lemma_key(segment, words, w, k);
    let at = segment.key_ranges@[w].start + k;
    let key = segment.keys@[at];
    let seq = segment.dense_shift_enc.seqs()[key.dense_shift_idx as int];
    lemma_key_code_parts(key.operation, seq_code_model(seq));
    lemma_key_code_parts(operation, code);
    lemma_seq_code_injective(seq, shift_seq);
    assert(segment.constraint_indices@.subrange(key.range.start as int, key.range.end as int)[i]
        == segment.constraint_indices@[key.range.start + i]);
    (at, key.range.start + i)
}

/// A word's groups have codes that differ, and come in the order of their first uses.
pub proof fn lemma_groups_in_order(cs: ConstraintSystem, word: int, k: int, l: int)
    requires
        cs.deep_view().valid(),
        cs.zero_constraints@.len() <= u32::MAX + 1,
        cs.and_constraints@.len() <= u32::MAX + 1,
        cs.imul_constraints@.len() <= u32::MAX + 1,
        cs.bmul_constraints@.len() <= u32::MAX + 1,
        0 <= k < l < word_groups(word_references(references(cs.deep_view()), word)).len(),
    ensures
        ({
            let groups = word_groups(word_references(references(cs.deep_view()), word));
            &&& groups[k].code != groups[l].code
            &&& groups[k].constraints.len() > 0
            &&& groups[l].constraints.len() > 0
            &&& no_later(
                KeyedRef { code: groups[k].code, constraint: groups[k].constraints[0] },
                KeyedRef { code: groups[l].code, constraint: groups[l].constraints[0] },
            )
        }),
{
    let all = references(cs.deep_view());
    let refs = word_references(all, word);
    lemma_references_order(cs);
    lemma_word_order(all, word);
    lemma_code_order(refs);
    lemma_first_codes(refs);
    let codes = first_codes(refs);
    assert(codes[k] != codes[l]);
    assert(key_constraints(refs, codes[k]).len() > 0);
    assert(key_constraints(refs, codes[l]).len() > 0);
}

/// The number of terms of the first `n` operands of a constraint.
pub open spec fn row_size(operands: Seq<Seq<Term>>, n: int) -> int
    decreases n,
{
    if n <= 0 {
        0
    } else {
        row_size(operands, n - 1) + operands[n - 1].len()
    }
}

/// The number of terms of the first `n` operands of the first `m` constraints.
pub open spec fn total_size(constraints: Seq<Seq<Seq<Term>>>, n: int, m: int) -> int
    decreases m,
{
    if m <= 0 {
        0
    } else {
        total_size(constraints, n, m - 1) + row_size(constraints[m - 1], n)
    }
}

/// The terms of one more position are those of the position.
pub proof fn lemma_total_position(
    cs: ConstraintSystemModel,
    operation: Operation,
    constraints: Seq<Seq<Seq<Term>>>,
    n: int,
    m: int,
)
    requires
        0 < n,
        0 <= m <= constraints.len(),
    ensures
        total_size(constraints, n, m) == total_size(constraints, n - 1, m) + position_references(
            cs,
            operation,
            n - 1,
            constraints,
            m,
        ).len(),
    decreases m,
{
    if m > 0 {
        lemma_total_position(cs, operation, constraints, n, m - 1);
    }
}

pub proof fn lemma_no_positions(constraints: Seq<Seq<Seq<Term>>>, m: int)
    ensures
        total_size(constraints, 0, m) == 0,
    decreases m,
{
    if m > 0 {
        lemma_no_positions(constraints, m - 1);
    }
}

/// An operation's references are as many as the terms of its constraints.
pub proof fn lemma_operation_size(
    cs: ConstraintSystemModel,
    operation: Operation,
    constraints: Seq<Seq<Seq<Term>>>,
    n: int,
)
    requires
        0 <= n,
    ensures
        operation_references(cs, operation, constraints, n).len() == total_size(
            constraints,
            n,
            constraints.len() as int,
        ),
    decreases n,
{
    let m = constraints.len() as int;
    if n > 0 {
        lemma_operation_size(cs, operation, constraints, n - 1);
        lemma_total_position(cs, operation, constraints, n, m);
    } else {
        lemma_no_positions(constraints, m);
    }
}

/// Adding up the sizes of the constraints one after the other gives the number of terms.
pub proof fn lemma_folded<A>(
    list: Seq<A>,
    f: spec_fn(int, A) -> int,
    model: Seq<Seq<Seq<Term>>>,
    n: int,
    m: int,
)
    requires
        0 <= m <= list.len(),
        forall|sum: int, i: int|
            0 <= i < list.len() ==> #[trigger] f(sum, list[i]) == sum + row_size(model[i], n),
    ensures
        list.take(m).fold_left(0, f) == total_size(model, n, m),
    decreases m,
{
    if m > 0 {
        lemma_folded(list, f, model, n, m - 1);
        assert(list.take(m).drop_last() =~= list.take(m - 1));
        assert(list.take(m).last() == list[m - 1]);
    }
}

pub proof fn lemma_tiled(segment: KeySegment, words: Seq<Seq<KeyGroup>>)
    requires
        segment.represents(words),
    ensures
        segment.key_ranges@.len() == 0 ==> segment.keys@.len() == 0,
        segment.key_ranges@.len() > 0 ==> segment.key_ranges@[0].start == 0
            && segment.key_ranges@.last().end == segment.keys@.len(),
        forall|w: int, v: int|
            0 <= w && v == w + 1 && v < segment.key_ranges@.len() ==> (
            #[trigger] segment.key_ranges@[w]).end == (#[trigger] segment.key_ranges@[v]).start,
        segment.keys@.len() == 0 ==> segment.constraint_indices@.len() == 0,
        segment.keys@.len() > 0 ==> segment.keys@[0].range.start == 0
            && segment.keys@.last().range.end == segment.constraint_indices@.len(),
        forall|k: int, l: int|
            0 <= k && l == k + 1 && l < segment.keys@.len() ==> (
            #[trigger] segment.keys@[k]).range.end == (#[trigger] segment.keys@[l]).range.start,
        forall|k: int|
            0 <= k < segment.keys@.len() ==> (#[trigger] segment.keys@[k]).dense_shift_idx
                < segment.dense_shift_enc.seqs().len(),
        forall|seq: [Shift; 2]| #[trigger]
            segment.dense_shift_enc.seqs().contains(seq) ==> exists|k: int|
                0 <= k < segment.keys@.len() && segment.dense_shift_enc.seqs()[(
                #[trigger] segment.keys@[k]).dense_shift_idx as int] == seq,
        forall|i: int, j: int|
            0 <= i < j < segment.dense_shift_enc.seqs().len() ==> ({
                let a = #[trigger] segment.dense_shift_enc.seqs()[i];
                let b = #[trigger] segment.dense_shift_enc.seqs()[j];
                a[1].index_model() * 512 + a[0].index_model() < b[1].index_model() * 512
                    + b[0].index_model()
            }),
{
    let groups = words.flatten();
    assert(words.take(words.len() as int) =~= words);
    assert(groups.take(groups.len() as int) =~= groups);
    assert(words.take(0) =~= Seq::empty());
    assert(groups.take(0) =~= Seq::empty());
    assert(words.take(0).flatten().len() == 0) by {
        if words.len() == 0 {
        }
    }
    let seqs = segment.dense_shift_enc.seqs();
    assert forall|seq: [Shift; 2]| #[trigger] seqs.contains(seq) implies exists|k: int|
        0 <= k < segment.keys@.len() && seqs[(#[trigger] segment.keys@[k]).dense_shift_idx as int]
            == seq by {
        let k = choose|k: int|
            0 <= k < groups.len() && #[trigger] groups[k].code % 262144 == seq_code_model(seq);
        assert(key_represents(segment.keys@[k], segment.dense_shift_enc, groups, k));
        let i = choose|i: int| 0 <= i < seqs.len() && seqs[i] == seq;
        assert(seq_wf(seqs[i]));
        let at = segment.keys@[k].dense_shift_idx as int;
        assert(seq_wf(seqs[at]));
        lemma_seq_code_injective(seqs[at], seq);
    }
    assert forall|k: int| 0 <= k < segment.keys@.len() implies (
    #[trigger] segment.keys@[k]).dense_shift_idx < seqs.len() by {
        assert(key_represents(segment.keys@[k], segment.dense_shift_enc, groups, k));
    }
    assert forall|k: int, l: int| 0 <= k && l == k + 1 && l < segment.keys@.len() implies (
    #[trigger] segment.keys@[k]).range.end == (#[trigger] segment.keys@[l]).range.start by {
        assert(key_represents(segment.keys@[k], segment.dense_shift_enc, groups, k));
        assert(key_represents(segment.keys@[l], segment.dense_shift_enc, groups, l));
    }
    if groups.len() > 0 {
        let n = groups.len() - 1;
        assert(key_represents(segment.keys@[0], segment.dense_shift_enc, groups, 0));
        assert(key_represents(segment.keys@[n], segment.dense_shift_enc, groups, n));
    }
}

/// Choosing twice is choosing once, or nothing where the choices are of two positions.
pub proof fn lemma_chosen_twice(uses: Seq<ConstraintIndex>, p: int, q: int)
    ensures
        uses.filter(|u: ConstraintIndex| u.operand_index == q).filter(
            |u: ConstraintIndex| u.operand_index == p,
        ) == if p == q {
            uses.filter(|u: ConstraintIndex| u.operand_index == p)
        } else {
            Seq::empty()
        },
    decreases uses.len(),
{
    let at_p = |u: ConstraintIndex| u.operand_index == p;
    let at_q = |u: ConstraintIndex| u.operand_index == q;
    if uses.len() == 0 {
        uses.lemma_filter_len(at_q);
        uses.lemma_filter_len(at_p);
        uses.filter(at_q).lemma_filter_len(at_p);
    } else {
        let prefix = uses.drop_last();
        let last = uses.last();
        lemma_chosen_twice(prefix, p, q);
        assert(uses =~= prefix.push(last));
        prefix.lemma_filter_push(last, at_q);
        prefix.lemma_filter_push(last, at_p);
        if at_q(last) {
            prefix.filter(at_q).lemma_filter_push(last, at_p);
        }
    }
}

/// Every use that is chosen is one of the uses, and as chosen.
pub proof fn lemma_chosen(uses: Seq<ConstraintIndex>, p: int, i: int)
    requires
        0 <= i < uses.filter(|u: ConstraintIndex| u.operand_index == p).len(),
    ensures
        uses.filter(|u: ConstraintIndex| u.operand_index == p)[i].operand_index == p,
    decreases uses.len(),
{
    let at_p = |u: ConstraintIndex| u.operand_index == p;
    if uses.len() == 0 {
        uses.lemma_filter_len(at_p);
    } else {
        let prefix = uses.drop_last();
        let last = uses.last();
        assert(uses =~= prefix.push(last));
        prefix.lemma_filter_push(last, at_p);
        if i < prefix.filter(at_p).len() {
            lemma_chosen(prefix, p, i);
        }
    }
}

/// Uses by operand position ascend in it, and keep the order of those of each position.
pub proof fn lemma_by_operand(uses: Seq<ConstraintIndex>, n: int, p: int)
    requires
        0 <= n,
    ensures
        by_operand(uses, n).filter(|u: ConstraintIndex| u.operand_index == p) == if 0 <= p < n {
            uses.filter(|u: ConstraintIndex| u.operand_index == p)
        } else {
            Seq::empty()
        },
        forall|i: int|
            0 <= i < by_operand(uses, n).len() ==> (#[trigger] by_operand(
                uses,
                n,
            )[i]).operand_index < n,
        forall|i: int, j: int|
            0 <= i < j < by_operand(uses, n).len() ==> (#[trigger] by_operand(
                uses,
                n,
            )[i]).operand_index <= (#[trigger] by_operand(uses, n)[j]).operand_index,
    decreases n,
{
    let at_p = |u: ConstraintIndex| u.operand_index == p;
    if n == 0 {
        by_operand(uses, n).lemma_filter_len(at_p);
    } else {
        let before = by_operand(uses, n - 1);
        let added = uses.filter(|u: ConstraintIndex| u.operand_index == n - 1);
        lemma_by_operand(uses, n - 1, p);
        lemma_chosen_twice(uses, p, n - 1);
        Seq::filter_distributes_over_add(before, added, at_p);
        assert forall|i: int| 0 <= i < added.len() implies (#[trigger] added[i]).operand_index == n
            - 1 by {
            lemma_chosen(uses, n - 1, i);
        }
        let all = by_operand(uses, n);
        assert(all == before + added);
        assert forall|i: int| 0 <= i < all.len() implies (#[trigger] all[i]).operand_index < n && (i
            < before.len() ==> all[i] == before[i] && all[i].operand_index < n - 1) && (i
            >= before.len() ==> all[i].operand_index == n - 1) by {
            if i < before.len() {
                assert(all[i] == before[i]);
            } else {
                assert(all[i] == added[i - before.len()]);
            }
        }
        if 0 <= p < n - 1 {
            assert(before.filter(at_p) + Seq::<ConstraintIndex>::empty() =~= before.filter(at_p));
        } else {
            assert(Seq::<ConstraintIndex>::empty() + added.filter(at_p) =~= added.filter(at_p));
        }
    }
}

/// The codes that occur first in a part of a list from its start come first in all of it.
pub proof fn lemma_codes_of_a_prefix(refs: Seq<KeyedRef>, n: int)
    requires
        0 <= n <= refs.len(),
    ensures
        first_codes(refs.take(n)).len() <= first_codes(refs).len(),
        forall|k: int|
            0 <= k < first_codes(refs.take(n)).len() ==> first_codes(refs)[k]
                == #[trigger] first_codes(refs.take(n))[k],
    decreases refs.len() - n,
{
    if n < refs.len() {
        lemma_codes_of_a_prefix(refs, n + 1);
        assert(refs.take(n + 1).drop_last() =~= refs.take(n));
        let a = first_codes(refs.take(n));
        let b = first_codes(refs.take(n + 1));
        assert forall|k: int| 0 <= k < a.len() implies first_codes(refs)[k] == #[trigger] a[k] by {
            assert(b[k] == a[k]);
        }
    } else {
        assert(refs.take(n) =~= refs);
    }
}

/// A code that comes first before another occurs before every occurrence of it.
pub proof fn lemma_earlier_code(refs: Seq<KeyedRef>, k: int, l: int, j: int) -> (i: int)
    requires
        0 <= k < l < first_codes(refs).len(),
        0 <= j < refs.len(),
        refs[j].code == first_codes(refs)[l],
    ensures
        0 <= i < j,
        refs[i].code == first_codes(refs)[k],
{
    let codes = first_codes(refs);
    let front = refs.take(j + 1);
    let front_codes = first_codes(front);
    lemma_first_codes(refs);
    lemma_first_codes(front);
    lemma_codes_of_a_prefix(refs, j + 1);
    assert(front_codes.contains(front[j].code));
    let m = choose|m: int| 0 <= m < front_codes.len() && front_codes[m] == front[j].code;
    assert(codes[m] == front_codes[m]);
    assert(m == l);
    assert(codes[k] == front_codes[k]);
    assert(front_codes.contains(codes[k]));
    let i = choose|i: int| 0 <= i < front.len() && #[trigger] front[i].code == codes[k];
    assert(refs[i] == front[i]);
    assert(codes[k] != codes[l]);
    i
}

/// The references of a position: those of the constraints before one, its operand's, and the rest.
pub proof fn lemma_position_parts(
    cs: ConstraintSystemModel,
    operation: Operation,
    p: int,
    constraints: Seq<Seq<Seq<Term>>>,
    c: int,
    n: int,
) -> (rest: Seq<Reference>)
    requires
        0 <= c < n <= constraints.len(),
    ensures
        position_references(cs, operation, p, constraints, n) == position_references(
            cs,
            operation,
            p,
            constraints,
            c,
        ) + (operand_references(cs, operation, p, c, constraints[c][p]) + rest),
    decreases n - c,
{
    let before = position_references(cs, operation, p, constraints, c);
    let own = operand_references(cs, operation, p, c, constraints[c][p]);
    if n == c + 1 {
        assert(own + Seq::<Reference>::empty() =~= own);
        Seq::empty()
    } else {
        let rest = lemma_position_parts(cs, operation, p, constraints, c, n - 1);
        let last = operand_references(cs, operation, p, n - 1, constraints[n - 1][p]);
        assert((before + (own + rest)) + last =~= before + (own + (rest + last)));
        rest + last
    }
}

/// The references of an operation: those before an operand, its own, and the rest.
pub proof fn lemma_operation_parts(
    cs: ConstraintSystemModel,
    operation: Operation,
    constraints: Seq<Seq<Seq<Term>>>,
    n: int,
    p: int,
    c: int,
) -> (parts: (Seq<Reference>, Seq<Reference>))
    requires
        0 <= p < n <= 256,
        0 <= c < constraints.len() <= u32::MAX + 1,
        forall|i: int| 0 <= i < constraints.len() ==> n <= (#[trigger] constraints[i]).len(),
        cs.constraints_valid(constraints),
    ensures
        operation_references(cs, operation, constraints, n) == parts.0 + (operand_references(
            cs,
            operation,
            p,
            c,
            constraints[c][p],
        ) + parts.1),
        forall|i: int|
            0 <= i < parts.0.len() ==> (#[trigger] parts.0[i]).keyed.code / 262144
                == operation.code_model() && (parts.0[i].keyed.constraint.operand_index < p || (
            parts.0[i].keyed.constraint.operand_index == p
                && parts.0[i].keyed.constraint.constraint_index < c)),
    decreases n,
{
    let m = constraints.len() as int;
    let own = operand_references(cs, operation, p, c, constraints[c][p]);
    let before = operation_references(cs, operation, constraints, n - 1);
    if p == n - 1 {
        assert forall|i: int| 0 <= i < m implies p < (#[trigger] constraints[i]).len() by {}
        let rest = lemma_position_parts(cs, operation, p, constraints, c, m);
        let front = position_references(cs, operation, p, constraints, c);
        lemma_operation_order(cs, operation, constraints, n - 1);
        lemma_position_order(cs, operation, p, constraints, c);
        let all = before + front;
        assert forall|i: int| 0 <= i < all.len() implies (#[trigger] all[i]).keyed.code / 262144
            == operation.code_model() && (all[i].keyed.constraint.operand_index < p || (
        all[i].keyed.constraint.operand_index == p && all[i].keyed.constraint.constraint_index
            < c)) by {
            if i < before.len() {
                assert(keyed(before)[i] == all[i].keyed);
            } else {
                assert(keyed(front)[i - before.len()] == all[i].keyed);
            }
        }
        assert(before + (front + (own + rest)) =~= all + (own + rest));
        (all, rest)
    } else {
        let (front, rest) = lemma_operation_parts(cs, operation, constraints, n - 1, p, c);
        let last = position_references(cs, operation, n - 1, constraints, m);
        assert((front + (own + rest)) + last =~= front + (own + (rest + last)));
        (front, rest + last)
    }
}

/// The operand at a position of a constraint of an operation.
pub open spec fn operand_of(cs: ConstraintSystemModel, operation: Operation, c: int,
    p: int) -> Seq<Term> {
    match operation {
        Operation::Zero => cs.zero_constraints[c][p],
        Operation::BitwiseAnd => cs.and_constraints[c][p],
        Operation::IntegerMul => cs.imul_constraints[c][p],
        Operation::BinMul => cs.bmul_constraints[c][p],
    }
}

pub open spec fn has_operand(cs: ConstraintSystem, operation: Operation, c: int, p: int) -> bool {
    match operation {
        Operation::Zero => 0 <= c < cs.zero_constraints@.len() && 0 <= p < 1,
        Operation::BitwiseAnd => 0 <= c < cs.and_constraints@.len() && 0 <= p < 3,
        Operation::IntegerMul => 0 <= c < cs.imul_constraints@.len() && 0 <= p < 4,
        Operation::BinMul => 0 <= c < cs.bmul_constraints@.len() && 0 <= p < 6,
    }
}

/// Whether a use comes before an operand in the walk.
pub open spec fn walked_before(r: Reference, operation: Operation, c: int, p: int) -> bool {
    r.keyed.code / 262144 < operation.code_model() || (r.keyed.code / 262144
        == operation.code_model() && (r.keyed.constraint.operand_index < p || (
    r.keyed.constraint.operand_index == p && r.keyed.constraint.constraint_index < c)))
}

/// All references: those before an operand, its own, and the rest.
pub proof fn lemma_references_parts(cs: ConstraintSystem, operation: Operation, c: int,
    p: int) -> (parts:
    (Seq<Reference>, Seq<Reference>))
    requires
        cs.deep_view().valid(),
        cs.zero_constraints@.len() <= u32::MAX + 1,
        cs.and_constraints@.len() <= u32::MAX + 1,
        cs.imul_constraints@.len() <= u32::MAX + 1,
        cs.bmul_constraints@.len() <= u32::MAX + 1,
        has_operand(cs, operation, c, p),
    ensures
        references(cs.deep_view()) == parts.0 + (operand_references(
            cs.deep_view(),
            operation,
            p,
            c,
            operand_of(cs.deep_view(), operation, c, p),
        ) + parts.1),
        forall|i: int|
            0 <= i < parts.0.len() ==> walked_before(#[trigger] parts.0[i], operation, c, p),
{
    let csm = cs.deep_view();
    let zero = operation_references(csm, Operation::Zero, csm.zero_constraints, 1);
    let and = operation_references(csm, Operation::BitwiseAnd, csm.and_constraints, 3);
    let imul = operation_references(csm, Operation::IntegerMul, csm.imul_constraints, 4);
    let bmul = operation_references(csm, Operation::BinMul, csm.bmul_constraints, 6);
    lemma_operation_order(csm, Operation::Zero, csm.zero_constraints, 1);
    lemma_operation_order(csm, Operation::BitwiseAnd, csm.and_constraints, 3);
    lemma_operation_order(csm, Operation::IntegerMul, csm.imul_constraints, 4);
    lemma_operation_order(csm, Operation::BinMul, csm.bmul_constraints, 6);
    let own = operand_references(csm, operation, p, c, operand_of(csm, operation, c, p));
    let (earlier, (front, rest), later) = match operation {
        Operation::Zero => (
            Seq::empty(),
            lemma_operation_parts(csm, operation, csm.zero_constraints, 1, p, c),
            and + imul + bmul,
        ),
        Operation::BitwiseAnd => (
            zero,
            lemma_operation_parts(csm, operation, csm.and_constraints, 3, p, c),
            imul + bmul,
        ),
        Operation::IntegerMul => (
            zero + and,
            lemma_operation_parts(csm, operation, csm.imul_constraints, 4, p, c),
            bmul,
        ),
        Operation::BinMul => (
            zero + and + imul,
            lemma_operation_parts(csm, operation, csm.bmul_constraints, 6, p, c),
            Seq::empty(),
        ),
    };
    assert(references(csm) =~= earlier + (front + (own + rest)) + later) by {
        match operation {
            Operation::Zero => assert(zero == front + (own + rest)),
            Operation::BitwiseAnd => assert(and == front + (own + rest)),
            Operation::IntegerMul => assert(imul == front + (own + rest)),
            Operation::BinMul => assert(bmul == front + (own + rest)),
        }
    }
    assert(earlier + (front + (own + rest)) + later =~= (earlier + front) + (own + (rest + later)));
    assert forall|i: int| 0 <= i < earlier.len() implies (#[trigger] earlier[i]).keyed.code / 262144
        < operation.code_model() by {
        match operation {
            Operation::Zero => {},
            Operation::BitwiseAnd => {
                assert(keyed(zero)[i] == earlier[i].keyed);
            },
            Operation::IntegerMul => {
                if i < zero.len() {
                    assert(keyed(zero)[i] == earlier[i].keyed);
                } else {
                    assert(keyed(and)[i - zero.len()] == earlier[i].keyed);
                }
            },
            Operation::BinMul => {
                if i < zero.len() {
                    assert(keyed(zero)[i] == earlier[i].keyed);
                } else if i < zero.len() + and.len() {
                    assert(keyed(and)[i - zero.len()] == earlier[i].keyed);
                } else {
                    assert(keyed(imul)[i - zero.len() - and.len()] == earlier[i].keyed);
                }
            },
        }
    }
    (earlier + front, rest + later)
}

/// A word's uses in two lists are those in the first, then those in the second.
pub proof fn lemma_word_references_add(a: Seq<Reference>, b: Seq<Reference>, word: int)
    ensures
        word_references(a + b, word) == word_references(a, word) + word_references(b, word),
{
    Seq::filter_distributes_over_add(a, b, |r: Reference| r.word == word);
    assert(word_references(a + b, word) =~= word_references(a, word) + word_references(b, word));
}

/// A word's use in a list is one of the list's.
pub proof fn lemma_word_use_source(references: Seq<Reference>, word: int, i: int) -> (j: int)
    requires
        0 <= i < word_references(references, word).len(),
    ensures
        0 <= j < references.len(),
        references[j].word == word,
        references[j].keyed == word_references(references, word)[i],
    decreases references.len(),
{
    if references.len() == 0 {
        references.lemma_filter_len(|r: Reference| r.word == word);
        0
    } else {
        let prefix = references.drop_last();
        let last = references.last();
        assert(prefix.push(last) =~= references);
        lemma_word_references_push(prefix, last, word);
        if i < word_references(prefix, word).len() {
            let j = lemma_word_use_source(prefix, word, i);
            assert(prefix[j] == references[j]);
            j
        } else {
            references.len() - 1
        }
    }
}

/// Where two codes of a word come first in one operand, the operand has a term of the first before
/// every term of the second.
pub proof fn lemma_earlier_term(
    cs: ConstraintSystem,
    word: int,
    k: int,
    l: int,
    operation: Operation,
    c: int,
    p: int,
    t: int,
) -> (earlier: int)
    requires
        cs.deep_view().valid(),
        cs.zero_constraints@.len() <= u32::MAX + 1,
        cs.and_constraints@.len() <= u32::MAX + 1,
        cs.imul_constraints@.len() <= u32::MAX + 1,
        cs.bmul_constraints@.len() <= u32::MAX + 1,
        has_operand(cs, operation, c, p),
        ({
            let refs = word_references(references(cs.deep_view()), word);
            let codes = first_codes(refs);
            let operand = operand_of(cs.deep_view(), operation, c, p);
            let uses = key_constraints(refs, codes[k]);
            &&& 0 <= k < l < codes.len()
            &&& codes[k] / 262144 == operation.code_model()
            &&& uses[0].operand_index == p
            &&& uses[0].constraint_index == c
            &&& 0 <= t < operand.len()
            &&& cs.deep_view().word_offset(operand[t].value_index) == word
            &&& key_code(operation, operand[t].seq_code()) == codes[l]
        }),
    ensures
        ({
            let refs = word_references(references(cs.deep_view()), word);
            let operand = operand_of(cs.deep_view(), operation, c, p);
            &&& 0 <= earlier < t
            &&& cs.deep_view().word_offset(operand[earlier].value_index) == word
            &&& key_code(operation, operand[earlier].seq_code()) == first_codes(refs)[k]
        }),
{
    let csm = cs.deep_view();
    let all = references(csm);
    let refs = word_references(all, word);
    let codes = first_codes(refs);
    let operand = operand_of(csm, operation, c, p);
    let own = operand_references(csm, operation, p, c, operand);
    let (front, rest) = lemma_references_parts(cs, operation, c, p);
    let upto = front + own.take(t);
    let after = own.skip(t + 1) + rest;
    assert(all =~= upto + (seq![own[t]] + after));
    assert(all =~= (upto.push(own[t])) + after);
    lemma_word_references_add(upto.push(own[t]), after, word);
    lemma_word_references_push(upto, own[t], word);
    let shown = word_references(upto, word);
    let j = shown.len() as int;
    assert(own[t].word == word);
    assert(refs[j] == own[t].keyed);
    assert(refs[j].code == codes[l]);
    let i = lemma_earlier_code(refs, k, l, j);
    assert(refs[i] == shown[i]);
    let at = lemma_word_use_source(upto, word, i);
    lemma_references_order(cs);
    lemma_word_order(all, word);
    lemma_key_first(refs, codes[k], i);
    if at < front.len() {
        assert(upto[at] == front[at]);
        assert(walked_before(front[at], operation, c, p));
    }
    assert(upto[at] == own[at - front.len()]);
    at - front.len()
}

/// The first use under a code comes no later than any.
pub proof fn lemma_key_first(refs: Seq<KeyedRef>, code: int, i: int)
    requires
        in_walk_order(refs),
        0 <= i < refs.len(),
        refs[i].code == code,
    ensures
        key_constraints(refs, code).len() > 0,
        no_later(KeyedRef { code, constraint: key_constraints(refs, code)[0] }, refs[i]),
    decreases refs.len(),
{
    let prefix = refs.drop_last();
    let before = key_constraints(prefix, code);
    assert forall|a: int, b: int| 0 <= a < b < prefix.len() implies no_later(
        #[trigger] prefix[a],
        #[trigger] prefix[b],
    ) by {
        assert(prefix[a] == refs[a] && prefix[b] == refs[b]);
    }
    if i < prefix.len() {
        assert(prefix[i] == refs[i]);
        lemma_key_first(prefix, code, i);
    } else if before.len() > 0 {
        let j = lemma_key_constraint_source(prefix, code, 0);
        assert(prefix[j] == refs[j]);
        assert(no_later(refs[j], refs[i]));
    }
}

/// The terms of an operand are those of its model, and valid.
pub proof fn lemma_operand_model(cs: ConstraintSystem, operation: Operation, c: int, p: int)
    requires
        cs.deep_view().valid(),
        has_operand(cs, operation, c, p),
    ensures
        ({
            let model = operand_of(cs.deep_view(), operation, c, p);
            let operand = match operation {
                Operation::Zero => cs.zero_constraints@[c].0@[p]@,
                Operation::BitwiseAnd => cs.and_constraints@[c].0@[p]@,
                Operation::IntegerMul => cs.imul_constraints@[c].0@[p]@,
                Operation::BinMul => cs.bmul_constraints@[c].0@[p]@,
            };
            &&& model.len() == operand.len()
            &&& forall|t: int|
                0 <= t < operand.len() ==> #[trigger] model[t] == operand[t].deep_view()
                    && cs.deep_view().term_valid(model[t])
        }),
{
    let csm = cs.deep_view();
    match operation {
        Operation::Zero => {
            assert forall|t: int| 0 <= t < csm.zero_constraints[c][p].len() implies csm.term_valid(
                #[trigger] csm.zero_constraints[c][p][t],
            ) by {}
        },
        Operation::BitwiseAnd => {
            assert forall|t: int| 0 <= t < csm.and_constraints[c][p].len() implies csm.term_valid(
                #[trigger] csm.and_constraints[c][p][t],
            ) by {}
        },
        Operation::IntegerMul => {
            assert forall|t: int| 0 <= t < csm.imul_constraints[c][p].len() implies csm.term_valid(
                #[trigger] csm.imul_constraints[c][p][t],
            ) by {}
        },
        Operation::BinMul => {
            assert forall|t: int| 0 <= t < csm.bmul_constraints[c][p].len() implies csm.term_valid(
                #[trigger] csm.bmul_constraints[c][p][t],
            ) by {}
        },
    }
}

/// A use under a key's code is an operand of the operation.
pub proof fn lemma_use_has_operand(
    cs: ConstraintSystem,
    word: int,
    operation: Operation,
    code: int,
    at: ConstraintIndex,
)
    requires
        cs.deep_view().valid(),
        cs.zero_constraints@.len() <= u32::MAX + 1,
        cs.and_constraints@.len() <= u32::MAX + 1,
        cs.imul_constraints@.len() <= u32::MAX + 1,
        cs.bmul_constraints@.len() <= u32::MAX + 1,
        0 <= code < 262144,
        key_constraints(
            word_references(references(cs.deep_view()), word),
            key_code(operation, code),
        ).len() > 0,
        key_constraints(
            word_references(references(cs.deep_view()), word),
            key_code(operation, code),
        )[0] == at,
    ensures
        has_operand(cs, operation, at.constraint_index as int, at.operand_index as int),
{
    let c = at.constraint_index as int;
    let p = at.operand_index as int;
    let r = use_of(word, operation, code, p, c);
    let uses = key_constraints(
        word_references(references(cs.deep_view()), word),
        key_code(operation, code),
    );
    let chosen = |u: ConstraintIndex| u == r.keyed.constraint;
    lemma_key_times(references(cs.deep_view()), r);
    uses.lemma_filter_contains(chosen, 0);
    lemma_references_times(cs, word, operation, code, p, c);
}

} // verus!
