//! The validation of constraint systems.

use vstd::prelude::*;

use crate::constraint_system::{
    constraints_model, Constraint, ConstraintSystem, ConstraintSystemModel, Operand, Term,
    ValueIndex,
};

verus! {

/// Why a constraint system is not valid.
#[derive(Clone, Copy, Debug, PartialEq, Eq)]
pub enum ConstraintSystemError {
    /// The number of words of the value vector is not a machine number.
    ValueVecTooLong,
    /// A term names no word of the value vector, or a shift is out of range.
    InvalidTerm {
        constraint_type: &'static str,
        constraint_index: usize,
        operand_index: usize,
        term_index: usize,
    },
}

/// The first invalid term among the first `n` of an operand.
pub open spec fn operand_error(
    cs: ConstraintSystemModel,
    constraint_type: &'static str,
    constraint_index: int,
    operand_index: int,
    operand: Seq<Term>,
    n: int,
) -> Option<ConstraintSystemError>
    decreases n,
{
    if n <= 0 {
        None
    } else {
        match operand_error(cs, constraint_type, constraint_index, operand_index, operand, n - 1) {
            Some(e) => Some(e),
            None => if cs.term_valid(operand[n - 1]) {
                None
            } else {
                Some(
                    ConstraintSystemError::InvalidTerm {
                        constraint_type,
                        constraint_index: constraint_index as usize,
                        operand_index: operand_index as usize,
                        term_index: (n - 1) as usize,
                    },
                )
            },
        }
    }
}

/// The first invalid term among the first `n` operands of a constraint.
pub open spec fn constraint_error(
    cs: ConstraintSystemModel,
    constraint_type: &'static str,
    constraint_index: int,
    operands: Seq<Seq<Term>>,
    n: int,
) -> Option<ConstraintSystemError>
    decreases n,
{
    if n <= 0 {
        None
    } else {
        match constraint_error(cs, constraint_type, constraint_index, operands, n - 1) {
            Some(e) => Some(e),
            None => operand_error(
                cs,
                constraint_type,
                constraint_index,
                n - 1,
                operands[n - 1],
                operands[n - 1].len() as int,
            ),
        }
    }
}

/// The first invalid term among the first `n` constraints of a list.
pub open spec fn list_error(
    cs: ConstraintSystemModel,
    constraint_type: &'static str,
    constraints: Seq<Seq<Seq<Term>>>,
    n: int,
) -> Option<ConstraintSystemError>
    decreases n,
{
    if n <= 0 {
        None
    } else {
        match list_error(cs, constraint_type, constraints, n - 1) {
            Some(e) => Some(e),
            None => constraint_error(
                cs,
                constraint_type,
                n - 1,
                constraints[n - 1],
                constraints[n - 1].len() as int,
            ),
        }
    }
}

/// The first defect of a constraint system: too many words, or else the first invalid term of its
/// zero, and, imul and bmul constraints, in this order.
pub open spec fn first_error(cs: ConstraintSystemModel) -> Option<ConstraintSystemError> {
    if cs.value_vec_len() > usize::MAX {
        Some(ConstraintSystemError::ValueVecTooLong)
    } else {
        match list_error(cs, "zero", cs.zero_constraints, cs.zero_constraints.len() as int) {
            Some(e) => Some(e),
            None => match list_error(cs, "and", cs.and_constraints, cs.and_constraints.len() as int) {
                Some(e) => Some(e),
                None => match list_error(
                    cs,
                    "imul",
                    cs.imul_constraints,
                    cs.imul_constraints.len() as int,
                ) {
                    Some(e) => Some(e),
                    None => list_error(
                        cs,
                        "bmul",
                        cs.bmul_constraints,
                        cs.bmul_constraints.len() as int,
                    ),
                },
            },
        }
    }
}

pub proof fn lemma_operand_error(
    cs: ConstraintSystemModel,
    constraint_type: &'static str,
    constraint_index: int,
    operand_index: int,
    operand: Seq<Term>,
    n: int,
)
    requires
        0 <= n <= operand.len(),
    ensures
        operand_error(cs, constraint_type, constraint_index, operand_index, operand, n) is None
            <==> forall|t: int| 0 <= t < n ==> cs.term_valid(#[trigger] operand[t]),
    decreases n,
{
    if n > 0 {
        lemma_operand_error(cs, constraint_type, constraint_index, operand_index, operand, n - 1);
        assert(cs.term_valid(operand[n - 1]) || !cs.term_valid(operand[n - 1]));
    }
}

pub proof fn lemma_constraint_error(
    cs: ConstraintSystemModel,
    constraint_type: &'static str,
    constraint_index: int,
    operands: Seq<Seq<Term>>,
    n: int,
)
    requires
        0 <= n <= operands.len(),
    ensures
        constraint_error(cs, constraint_type, constraint_index, operands, n) is None
            <==> forall|j: int, t: int|
            0 <= j < n && 0 <= t < operands[j].len() ==> cs.term_valid(#[trigger] operands[j][t]),
    decreases n,
{
    if n > 0 {
        let last = operands[n - 1];
        lemma_constraint_error(cs, constraint_type, constraint_index, operands, n - 1);
        lemma_operand_error(
            cs,
            constraint_type,
            constraint_index,
            n - 1,
            last,
            last.len() as int,
        );
        if constraint_error(cs, constraint_type, constraint_index, operands, n) is Some {
            if constraint_error(cs, constraint_type, constraint_index, operands, n - 1) is None {
                let t = choose|t: int| 0 <= t < last.len() && !cs.term_valid(#[trigger] last[t]);
                assert(!cs.term_valid(operands[n - 1][t]));
            }
        } else {
            assert forall|j: int, t: int| 0 <= j < n && 0 <= t < operands[j].len() implies
                cs.term_valid(#[trigger] operands[j][t]) by {
                if j == n - 1 {
                    assert(cs.term_valid(last[t]));
                }
            }
        }
    }
}

pub proof fn lemma_list_error(
    cs: ConstraintSystemModel,
    constraint_type: &'static str,
    constraints: Seq<Seq<Seq<Term>>>,
    n: int,
)
    requires
        0 <= n <= constraints.len(),
    ensures
        list_error(cs, constraint_type, constraints, n) is None <==> cs.constraints_valid(
            constraints.take(n),
        ),
    decreases n,
{
    let now = constraints.take(n);
    if n > 0 {
        let before = constraints.take(n - 1);
        let last = constraints[n - 1];
        lemma_list_error(cs, constraint_type, constraints, n - 1);
        lemma_constraint_error(cs, constraint_type, n - 1, last, last.len() as int);
        if cs.constraints_valid(now) {
            assert forall|i: int, j: int, t: int|
                0 <= i < before.len() && 0 <= j < before[i].len() && 0 <= t
                    < before[i][j].len() implies cs.term_valid(#[trigger] before[i][j][t]) by {
                assert(before[i] == now[i]);
                assert(cs.term_valid(now[i][j][t]));
            }
            assert forall|j: int, t: int| 0 <= j < last.len() && 0 <= t < last[j].len() implies
                cs.term_valid(#[trigger] last[j][t]) by {
                assert(now[n - 1] == last);
                assert(cs.term_valid(now[n - 1][j][t]));
            }
        } else if list_error(cs, constraint_type, constraints, n) is None {
            assert forall|i: int, j: int, t: int|
                0 <= i < now.len() && 0 <= j < now[i].len() && 0 <= t < now[i][j].len() implies
                cs.term_valid(#[trigger] now[i][j][t]) by {
                if i < n - 1 {
                    assert(before[i] == now[i]);
                    assert(cs.term_valid(before[i][j][t]));
                } else {
                    assert(now[i] == last);
                    assert(cs.term_valid(last[j][t]));
                }
            }
        }
    }
}

/// A constraint system has no defect if and only if it is valid.
pub proof fn law_no_error_iff_valid(cs: ConstraintSystemModel)
    ensures
        first_error(cs) is None <==> cs.valid(),
{
    lemma_list_error(cs, "zero", cs.zero_constraints, cs.zero_constraints.len() as int);
    lemma_list_error(cs, "and", cs.and_constraints, cs.and_constraints.len() as int);
    lemma_list_error(cs, "imul", cs.imul_constraints, cs.imul_constraints.len() as int);
    lemma_list_error(cs, "bmul", cs.bmul_constraints, cs.bmul_constraints.len() as int);
    assert(cs.zero_constraints.take(cs.zero_constraints.len() as int) =~= cs.zero_constraints);
    assert(cs.and_constraints.take(cs.and_constraints.len() as int) =~= cs.and_constraints);
    assert(cs.imul_constraints.take(cs.imul_constraints.len() as int) =~= cs.imul_constraints);
    assert(cs.bmul_constraints.take(cs.bmul_constraints.len() as int) =~= cs.bmul_constraints);
}

impl ConstraintSystem {
    /// Whether a value index names a word of the value vector.
    fn in_range(&self, value_index: ValueIndex) -> (in_range: bool)
        ensures
            in_range == self.deep_view().in_range(value_index),
    {
        match value_index {
            ValueIndex::Constant(i) => (i as usize) < self.constants.len(),
            ValueIndex::Inout(i) => (i as usize) < self.n_inout,
            ValueIndex::Private(i) => (i as usize) < self.n_private,
            ValueIndex::Scratch(_) => false,
        }
    }

    fn validate_operand(
        &self,
        constraint_type: &'static str,
        constraint_index: usize,
        operand_index: usize,
        operand: &Operand,
    ) -> (result: Result<(), ConstraintSystemError>)
        ensures
            result.err() == operand_error(
                self.deep_view(),
                constraint_type,
                constraint_index as int,
                operand_index as int,
                operand.deep_view(),
                operand@.len() as int,
            ),
    {
        let ghost cs = self.deep_view();
        let ghost terms = operand.deep_view();
        let mut t: usize = 0;
        while t < operand.len()
            invariant
                cs == self.deep_view(),
                terms == operand.deep_view(),
                t <= operand@.len(),
                operand_error(
                    cs,
                    constraint_type,
                    constraint_index as int,
                    operand_index as int,
                    terms,
                    t as int,
                ) is None,
            decreases operand@.len() - t,
        {
            let term = operand[t];
            assert(terms[t as int] == term.deep_view());
            if !self.in_range(term.value_index) || !term.shift_seq[0].is_valid()
                || !term.shift_seq[1].is_valid() {
                proof {
                    lemma_operand_error_stays(
                        cs,
                        constraint_type,
                        constraint_index as int,
                        operand_index as int,
                        terms,
                        t + 1,
                        terms.len() as int,
                    );
                }
                return Err(
                    ConstraintSystemError::InvalidTerm {
                        constraint_type,
                        constraint_index,
                        operand_index,
                        term_index: t,
                    },
                );
            }
            t += 1;
        }
        Ok(())
    }

    fn validate_constraints<C: Constraint>(
        &self,
        constraint_type: &'static str,
        constraints: &Vec<C>,
    ) -> (result: Result<(), ConstraintSystemError>)
        ensures
            result.err() == list_error(
                self.deep_view(),
                constraint_type,
                constraints_model(constraints@),
                constraints@.len() as int,
            ),
    {
        let ghost cs = self.deep_view();
        let ghost model = constraints_model(constraints@);
        let arity: usize = C::arity();
        let mut i: usize = 0;
        while i < constraints.len()
            invariant
                cs == self.deep_view(),
                model == constraints_model(constraints@),
                arity == C::arity_model(),
                i <= constraints@.len(),
                list_error(cs, constraint_type, model, i as int) is None,
            decreases constraints@.len() - i,
        {
            let mut j: usize = 0;
            while j < arity
                invariant
                    cs == self.deep_view(),
                    model == constraints_model(constraints@),
                    arity == C::arity_model(),
                    i < constraints@.len(),
                    j <= arity,
                    list_error(cs, constraint_type, model, i as int) is None,
                    constraint_error(
                        cs,
                        constraint_type,
                        i as int,
                        model[i as int],
                        j as int,
                    ) is None,
                decreases arity - j,
            {
                let operand = constraints[i].operand(j);
                match self.validate_operand(constraint_type, i, j, operand) {
                    Ok(()) => {},
                    Err(e) => {
                        proof {
                            lemma_constraint_error_stays(
                                cs,
                                constraint_type,
                                i as int,
                                model[i as int],
                                j + 1,
                                model[i as int].len() as int,
                            );
                            lemma_list_error_stays(
                                cs,
                                constraint_type,
                                model,
                                i + 1,
                                model.len() as int,
                            );
                        }
                        return Err(e);
                    },
                }
                j += 1;
            }
            proof {
                C::lemma_arity(&constraints[i as int]);
            }
            i += 1;
        }
        Ok(())
    }

    /// Checks that the value vector's length is a machine number, and that every term names a word
    /// of it under shifts that are in range.
    pub fn validate(&self) -> (result: Result<(), ConstraintSystemError>)
        ensures
            result.err() == first_error(self.deep_view()),
            result is Ok <==> self.deep_view().valid(),
    {
        proof {
            law_no_error_iff_valid(self.deep_view());
        }
        match self.constants.len().checked_add(self.n_inout) {
            None => {
                return Err(ConstraintSystemError::ValueVecTooLong);
            },
            Some(n) => {
                if n.checked_add(self.n_private).is_none() {
                    return Err(ConstraintSystemError::ValueVecTooLong);
                }
            },
        }
        self.validate_constraints("zero", &self.zero_constraints)?;
        self.validate_constraints("and", &self.and_constraints)?;
        self.validate_constraints("imul", &self.imul_constraints)?;
        self.validate_constraints("bmul", &self.bmul_constraints)
    }
}

pub proof fn lemma_operand_error_stays(
    cs: ConstraintSystemModel,
    constraint_type: &'static str,
    constraint_index: int,
    operand_index: int,
    operand: Seq<Term>,
    m: int,
    n: int,
)
    requires
        0 < m <= n,
        operand_error(cs, constraint_type, constraint_index, operand_index, operand, m) is Some,
    ensures
        operand_error(cs, constraint_type, constraint_index, operand_index, operand, n)
            == operand_error(cs, constraint_type, constraint_index, operand_index, operand, m),
    decreases n,
{
    if m < n {
        lemma_operand_error_stays(
            cs,
            constraint_type,
            constraint_index,
            operand_index,
            operand,
            m,
            n - 1,
        );
    }
}

pub proof fn lemma_constraint_error_stays(
    cs: ConstraintSystemModel,
    constraint_type: &'static str,
    constraint_index: int,
    operands: Seq<Seq<Term>>,
    m: int,
    n: int,
)
    requires
        0 < m <= n,
        constraint_error(cs, constraint_type, constraint_index, operands, m) is Some,
    ensures
        constraint_error(cs, constraint_type, constraint_index, operands, n) == constraint_error(
            cs,
            constraint_type,
            constraint_index,
            operands,
            m,
        ),
    decreases n,
{
    if m < n {
        lemma_constraint_error_stays(cs, constraint_type, constraint_index, operands, m, n - 1);
    }
}

pub proof fn lemma_list_error_stays(
    cs: ConstraintSystemModel,
    constraint_type: &'static str,
    constraints: Seq<Seq<Seq<Term>>>,
    m: int,
    n: int,
)
    requires
        0 < m <= n,
        list_error(cs, constraint_type, constraints, m) is Some,
    ensures
        list_error(cs, constraint_type, constraints, n) == list_error(
            cs,
            constraint_type,
            constraints,
            m,
        ),
    decreases n,
{
    if m < n {
        lemma_list_error_stays(cs, constraint_type, constraints, m, n - 1);
    }
}

} // verus!
