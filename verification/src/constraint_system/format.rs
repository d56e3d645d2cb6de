//! The bytes of a constraint system, part by part, and what is read from which bytes.

use vstd::prelude::*;

use crate::constraint_system::{
    AndConstraint, BmulConstraint, ConstraintSystem, ConstraintSystemModel, ImulConstraint,
    Operand, Shift, ShiftVariant, ShiftedValueIndex, Term, ValueIndex, ZeroConstraint,
};
use crate::serialization::format::{
    flat, group_format, sizes_fit, DeserializeBytes, SerializationError, SerializeBytes,
};
use crate::serialization::laws::{law_number_bytes, law_numbers_read, law_pair_bytes};
use crate::serialization::primitives::{items_accepted, items_tokens, parse_items};

verus! {

/// A shift is two bytes: the variant's number and the amount.
pub proof fn law_shift_bytes(shift: Shift)
    ensures
        flat(Shift::tokens(shift)) == seq![
            match shift.variant {
                ShiftVariant::Sll => 0u8,
                ShiftVariant::Slr => 1,
                ShiftVariant::Sar => 2,
                ShiftVariant::Rotr => 3,
                ShiftVariant::Sll32 => 4,
                ShiftVariant::Srl32 => 5,
                ShiftVariant::Sra32 => 6,
                ShiftVariant::Rotr32 => 7,
            },
            shift.amount,
        ],
        sizes_fit(Shift::tokens(shift)),
{
    broadcast use group_format;

}

/// A value index is five bytes: which part of the value vector, and the place in it.
pub proof fn law_value_index_bytes(value_index: ValueIndex)
    ensures
        ({
            let (tag, i) = match value_index {
                ValueIndex::Constant(i) => (0u8, i),
                ValueIndex::Inout(i) => (1u8, i),
                ValueIndex::Private(i) => (2u8, i),
                ValueIndex::Scratch(i) => (3u8, i),
            };
            flat(ValueIndex::tokens(value_index)) == seq![
                tag,
                (i % 256) as u8,
                (i / 0x100 % 256) as u8,
                (i / 0x1_0000 % 256) as u8,
                (i / 0x100_0000) as u8,
            ]
        }),
        sizes_fit(ValueIndex::tokens(value_index)),
{
    let (tag, i) = match value_index {
        ValueIndex::Constant(i) => (0u8, i),
        ValueIndex::Inout(i) => (1u8, i),
        ValueIndex::Private(i) => (2u8, i),
        ValueIndex::Scratch(i) => (3u8, i),
    };
    law_number_bytes(tag, i, 0, false, 0);
    law_pair_bytes::<u8, u32>(tag, i);
    assert(flat(ValueIndex::tokens(value_index)) =~= seq![
        tag,
        (i % 256) as u8,
        (i / 0x100 % 256) as u8,
        (i / 0x1_0000 % 256) as u8,
        (i / 0x100_0000) as u8,
    ]);
}

/// A term is nine bytes: the value index, the inner shift, the outer shift.
pub proof fn law_term_bytes(term: ShiftedValueIndex)
    ensures
        flat(ShiftedValueIndex::tokens(term.deep_view())) == flat(
            ValueIndex::tokens(term.value_index),
        ) + flat(Shift::tokens(term.shift_seq[0])) + flat(Shift::tokens(term.shift_seq[1])),
        flat(ShiftedValueIndex::tokens(term.deep_view())).len() == 9,
        sizes_fit(ShiftedValueIndex::tokens(term.deep_view())),
{
    broadcast use group_format;

    law_value_index_bytes(term.value_index);
    law_shift_bytes(term.shift_seq[0]);
    law_shift_bytes(term.shift_seq[1]);
    assert(flat(ShiftedValueIndex::tokens(term.deep_view())) =~= flat(
        ValueIndex::tokens(term.value_index),
    ) + flat(Shift::tokens(term.shift_seq[0])) + flat(Shift::tokens(term.shift_seq[1])));
}

/// A constraint is its operands, one behind the other, without their number.
pub proof fn law_constraint_bytes(operands: Seq<Seq<Term>>)
    ensures
        flat(ZeroConstraint::tokens(operands)) == flat(items_tokens::<Operand>(operands)),
        flat(AndConstraint::tokens(operands)) == flat(items_tokens::<Operand>(operands)),
        flat(ImulConstraint::tokens(operands)) == flat(items_tokens::<Operand>(operands)),
        flat(BmulConstraint::tokens(operands)) == flat(items_tokens::<Operand>(operands)),
        sizes_fit(ZeroConstraint::tokens(operands)) <==> sizes_fit(
            items_tokens::<Operand>(operands),
        ),
        sizes_fit(AndConstraint::tokens(operands)) <==> sizes_fit(
            items_tokens::<Operand>(operands),
        ),
        sizes_fit(ImulConstraint::tokens(operands)) <==> sizes_fit(
            items_tokens::<Operand>(operands),
        ),
        sizes_fit(BmulConstraint::tokens(operands)) <==> sizes_fit(
            items_tokens::<Operand>(operands),
        ),
{
}

/// A constraint system is its format version, the constants, the numbers of words of the public
/// interface and of private words, and the four lists of constraints.
pub proof fn law_system_bytes(cs: ConstraintSystem)
    ensures
        ({
            let m = cs.deep_view();
            flat(ConstraintSystem::tokens(m)) == flat(u32::tokens(1)) + (flat(
                Vec::<u64>::tokens(cs.constants@),
            ) + (flat(usize::tokens(cs.n_inout)) + (flat(usize::tokens(cs.n_private)) + (flat(
                Vec::<ZeroConstraint>::tokens(m.zero_constraints),
            ) + (flat(Vec::<AndConstraint>::tokens(m.and_constraints)) + (flat(
                Vec::<ImulConstraint>::tokens(m.imul_constraints),
            ) + flat(Vec::<BmulConstraint>::tokens(m.bmul_constraints))))))))
        }),
        ({
            let m = cs.deep_view();
            sizes_fit(ConstraintSystem::tokens(m)) <==> {
                &&& sizes_fit(Vec::<u64>::tokens(cs.constants@))
                &&& cs.n_inout <= u32::MAX
                &&& cs.n_private <= u32::MAX
                &&& sizes_fit(Vec::<ZeroConstraint>::tokens(m.zero_constraints))
                &&& sizes_fit(Vec::<AndConstraint>::tokens(m.and_constraints))
                &&& sizes_fit(Vec::<ImulConstraint>::tokens(m.imul_constraints))
                &&& sizes_fit(Vec::<BmulConstraint>::tokens(m.bmul_constraints))
            }
        }),
{
    broadcast use group_format;

    law_number_bytes(0, 1, 0, false, cs.n_inout);
    law_number_bytes(0, 1, 0, false, cs.n_private);
}

/// The models of the constraints are their operands' terms.
pub proof fn law_operands_of_constraints(cs: ConstraintSystem)
    ensures
        ({
            let m = cs.deep_view();
            &&& m.constants == cs.constants@
            &&& m.n_inout == cs.n_inout
            &&& m.n_private == cs.n_private
            &&& m.zero_constraints.len() == cs.zero_constraints@.len()
            &&& m.and_constraints.len() == cs.and_constraints@.len()
            &&& m.imul_constraints.len() == cs.imul_constraints@.len()
            &&& m.bmul_constraints.len() == cs.bmul_constraints@.len()
            &&& forall|c: int|
                0 <= c < cs.zero_constraints@.len() ==> (#[trigger] m.zero_constraints[c]).len()
                    == 1
            &&& forall|c: int|
                0 <= c < cs.and_constraints@.len() ==> (#[trigger] m.and_constraints[c]).len() == 3
            &&& forall|c: int|
                0 <= c < cs.imul_constraints@.len() ==> (#[trigger] m.imul_constraints[c]).len()
                    == 4
            &&& forall|c: int|
                0 <= c < cs.bmul_constraints@.len() ==> (#[trigger] m.bmul_constraints[c]).len()
                    == 6
            &&& forall|c: int, p: int|
                0 <= c < cs.zero_constraints@.len() && 0 <= p < 1 ==> (
                #[trigger] m.zero_constraints[c][p]).len() == cs.zero_constraints@[c].0@[p]@.len()
            &&& forall|c: int, p: int|
                0 <= c < cs.and_constraints@.len() && 0 <= p < 3 ==> (
                #[trigger] m.and_constraints[c][p]).len() == cs.and_constraints@[c].0@[p]@.len()
            &&& forall|c: int, p: int|
                0 <= c < cs.imul_constraints@.len() && 0 <= p < 4 ==> (
                #[trigger] m.imul_constraints[c][p]).len() == cs.imul_constraints@[c].0@[p]@.len()
            &&& forall|c: int, p: int|
                0 <= c < cs.bmul_constraints@.len() && 0 <= p < 6 ==> (
                #[trigger] m.bmul_constraints[c][p]).len() == cs.bmul_constraints@[c].0@[p]@.len()
            &&& forall|c: int, p: int, t: int|
                0 <= c < cs.zero_constraints@.len() && 0 <= p < 1 && 0 <= t
                    < cs.zero_constraints@[c].0@[p]@.len() ==> {
                    let term = #[trigger] m.zero_constraints[c][p][t];
                    let x = cs.zero_constraints@[c].0@[p]@[t];
                    term.value_index == x.value_index && term.inner == x.shift_seq[0] && term.outer
                        == x.shift_seq[1]
                }
            &&& forall|c: int, p: int, t: int|
                0 <= c < cs.and_constraints@.len() && 0 <= p < 3 && 0 <= t
                    < cs.and_constraints@[c].0@[p]@.len() ==> {
                    let term = #[trigger] m.and_constraints[c][p][t];
                    let x = cs.and_constraints@[c].0@[p]@[t];
                    term.value_index == x.value_index && term.inner == x.shift_seq[0] && term.outer
                        == x.shift_seq[1]
                }
            &&& forall|c: int, p: int, t: int|
                0 <= c < cs.imul_constraints@.len() && 0 <= p < 4 && 0 <= t
                    < cs.imul_constraints@[c].0@[p]@.len() ==> {
                    let term = #[trigger] m.imul_constraints[c][p][t];
                    let x = cs.imul_constraints@[c].0@[p]@[t];
                    term.value_index == x.value_index && term.inner == x.shift_seq[0] && term.outer
                        == x.shift_seq[1]
                }
            &&& forall|c: int, p: int, t: int|
                0 <= c < cs.bmul_constraints@.len() && 0 <= p < 6 && 0 <= t
                    < cs.bmul_constraints@[c].0@[p]@.len() ==> {
                    let term = #[trigger] m.bmul_constraints[c][p][t];
                    let x = cs.bmul_constraints@[c].0@[p]@[t];
                    term.value_index == x.value_index && term.inner == x.shift_seq[0] && term.outer
                        == x.shift_seq[1]
                }
        }),
{
}

/// A shift is read from two bytes, a variant's number and an amount below 64, for those of half
/// words below 32; any other number is no variant, and any other amount no shift.
pub proof fn law_shift_read(s: Seq<u8>)
    ensures
        s.len() < 1 ==> Shift::parse(s) == Err::<(Shift, Seq<u8>), (SerializationError, Seq<u8>)>(
            (SerializationError::NotEnoughData, s),
        ),
        s.len() >= 1 && s[0] >= 8 ==> Shift::parse(s) == Err::<
            (Shift, Seq<u8>),
            (SerializationError, Seq<u8>),
        >(
            (
                SerializationError::UnknownEnumVariant { name: "ShiftVariant", index: s[0] },
                s.skip(1),
            ),
        ),
        s.len() == 1 && s[0] < 8 ==> Shift::parse(s) == Err::<
            (Shift, Seq<u8>),
            (SerializationError, Seq<u8>),
        >((SerializationError::NotEnoughData, s.skip(1))),
        s.len() >= 2 && s[0] < 8 ==> Shift::parse(s) == if s[1] < 32 || (s[1] < 64 && s[0] < 4) {
            Ok::<(Shift, Seq<u8>), (SerializationError, Seq<u8>)>(
                (
                    Shift {
                        variant: match s[0] {
                            0 => ShiftVariant::Sll,
                            1 => ShiftVariant::Slr,
                            2 => ShiftVariant::Sar,
                            3 => ShiftVariant::Rotr,
                            4 => ShiftVariant::Sll32,
                            5 => ShiftVariant::Srl32,
                            6 => ShiftVariant::Sra32,
                            _ => ShiftVariant::Rotr32,
                        },
                        amount: s[1],
                    },
                    s.skip(2),
                ),
            )
        } else {
            Err((SerializationError::InvalidConstruction { name: "Shift::amount" }, s.skip(2)))
        },
{
    if s.len() >= 2 {
        assert(s.skip(1).skip(1) =~= s.skip(2));
    }
}

/// A value index is read from five bytes, the first of which is below four.
pub proof fn law_value_index_read(s: Seq<u8>)
    ensures
        s.len() < 5 ==> ValueIndex::parse(s) == Err::<
            (ValueIndex, Seq<u8>),
            (SerializationError, Seq<u8>),
        >(
            (
                SerializationError::NotEnoughData,
                if s.len() < 1 {
                    s
                } else {
                    s.skip(1)
                },
            ),
        ),
        s.len() >= 5 ==> ({
            let i = (s[1] + 0x100 * s[2] + 0x1_0000 * s[3] + 0x100_0000 * s[4]) as u32;
            ValueIndex::parse(s) == match s[0] {
                0 => Ok::<(ValueIndex, Seq<u8>), (SerializationError, Seq<u8>)>(
                    (ValueIndex::Constant(i), s.skip(5)),
                ),
                1 => Ok((ValueIndex::Inout(i), s.skip(5))),
                2 => Ok((ValueIndex::Private(i), s.skip(5))),
                3 => Ok((ValueIndex::Scratch(i), s.skip(5))),
                index => Err(
                    (
                        SerializationError::UnknownEnumVariant { name: "ValueIndex", index },
                        s.skip(5),
                    ),
                ),
            }
        }),
{
    law_numbers_read(s);
    if s.len() >= 1 {
        law_numbers_read(s.skip(1));
    }
    if s.len() >= 5 {
        assert(s.skip(1).skip(4) =~= s.skip(5));
    }
}

/// A constraint system of another format version is refused, whatever follows it.
pub proof fn law_other_format_is_refused(s: Seq<u8>)
    ensures
        s.len() < 4 ==> ConstraintSystem::parse(s) == Err::<
            (ConstraintSystemModel, Seq<u8>),
            (SerializationError, Seq<u8>),
        >((SerializationError::NotEnoughData, s)),
        s.len() >= 4 && s[0] + 0x100 * s[1] + 0x1_0000 * s[2] + 0x100_0000 * s[3] != 1
            ==> ConstraintSystem::parse(s) == Err::<
            (ConstraintSystemModel, Seq<u8>),
            (SerializationError, Seq<u8>),
        >(
            (
                SerializationError::InvalidConstruction { name: "ConstraintSystem::version" },
                s.skip(4),
            ),
        ),
{
    law_numbers_read(s);
}

/// A constraint system that is read has constraints of one, three, four and six operands, whose
/// terms have shifts by less than 64, for those of half words by less than 32; and one that has is
/// accepted.
pub proof fn law_accepted_systems(m: ConstraintSystemModel)
    ensures
        ConstraintSystem::accepted(m) <==> {
            &&& forall|c: int|
                0 <= c < m.zero_constraints.len() ==> (#[trigger] m.zero_constraints[c]).len() == 1
            &&& forall|c: int|
                0 <= c < m.and_constraints.len() ==> (#[trigger] m.and_constraints[c]).len() == 3
            &&& forall|c: int|
                0 <= c < m.imul_constraints.len() ==> (#[trigger] m.imul_constraints[c]).len() == 4
            &&& forall|c: int|
                0 <= c < m.bmul_constraints.len() ==> (#[trigger] m.bmul_constraints[c]).len() == 6
            &&& (forall|c: int, p: int, t: int|
                0 <= c < m.zero_constraints.len() && 0 <= p < m.zero_constraints[c].len() && 0 <= t
                    < m.zero_constraints[c][p].len() ==> {
                    let term = #[trigger] m.zero_constraints[c][p][t];
                    (term.inner.amount < 32 || (term.inner.amount < 64 && (term.inner.variant is Sll
                        || term.inner.variant is Slr || term.inner.variant is Sar
                        || term.inner.variant is Rotr))) && (term.outer.amount < 32 || (
                    term.outer.amount < 64 && (term.outer.variant is Sll
                        || term.outer.variant is Slr
                        || term.outer.variant is Sar || term.outer.variant is Rotr)))
                })
            &&& (forall|c: int, p: int, t: int|
                0 <= c < m.and_constraints.len() && 0 <= p < m.and_constraints[c].len() && 0 <= t
                    < m.and_constraints[c][p].len() ==> {
                    let term = #[trigger] m.and_constraints[c][p][t];
                    (term.inner.amount < 32 || (term.inner.amount < 64 && (term.inner.variant is Sll
                        || term.inner.variant is Slr || term.inner.variant is Sar
                        || term.inner.variant is Rotr))) && (term.outer.amount < 32 || (
                    term.outer.amount < 64 && (term.outer.variant is Sll
                        || term.outer.variant is Slr
                        || term.outer.variant is Sar || term.outer.variant is Rotr)))
                })
            &&& (forall|c: int, p: int, t: int|
                0 <= c < m.imul_constraints.len() && 0 <= p < m.imul_constraints[c].len() && 0 <= t
                    < m.imul_constraints[c][p].len() ==> {
                    let term = #[trigger] m.imul_constraints[c][p][t];
                    (term.inner.amount < 32 || (term.inner.amount < 64 && (term.inner.variant is Sll
                        || term.inner.variant is Slr || term.inner.variant is Sar
                        || term.inner.variant is Rotr))) && (term.outer.amount < 32 || (
                    term.outer.amount < 64 && (term.outer.variant is Sll
                        || term.outer.variant is Slr
                        || term.outer.variant is Sar || term.outer.variant is Rotr)))
                })
            &&& (forall|c: int, p: int, t: int|
                0 <= c < m.bmul_constraints.len() && 0 <= p < m.bmul_constraints[c].len() && 0 <= t
                    < m.bmul_constraints[c][p].len() ==> {
                    let term = #[trigger] m.bmul_constraints[c][p][t];
                    (term.inner.amount < 32 || (term.inner.amount < 64 && (term.inner.variant is Sll
                        || term.inner.variant is Slr || term.inner.variant is Sar
                        || term.inner.variant is Rotr))) && (term.outer.amount < 32 || (
                    term.outer.amount < 64 && (term.outer.variant is Sll
                        || term.outer.variant is Slr
                        || term.outer.variant is Sar || term.outer.variant is Rotr)))
                })
        },
{
    lemma_accepted_lists(m);
    assert forall|term: Term| #[trigger] ShiftedValueIndex::accepted(term) <==> (term.inner.amount
        < 32 || (term.inner.amount < 64 && (term.inner.variant is Sll || term.inner.variant is Slr
        || term.inner.variant is Sar || term.inner.variant is Rotr))) && (term.outer.amount < 32
        || (term.outer.amount < 64 && (term.outer.variant is Sll || term.outer.variant is Slr
        || term.outer.variant is Sar || term.outer.variant is Rotr))) by {}
}

/// Reading accepts the lists whose terms it accepts.
proof fn lemma_accepted_lists(m: ConstraintSystemModel)
    ensures
        ConstraintSystem::accepted(m) <==> {
            &&& forall|c: int|
                0 <= c < m.zero_constraints.len() ==> (#[trigger] m.zero_constraints[c]).len() == 1
            &&& forall|c: int|
                0 <= c < m.and_constraints.len() ==> (#[trigger] m.and_constraints[c]).len() == 3
            &&& forall|c: int|
                0 <= c < m.imul_constraints.len() ==> (#[trigger] m.imul_constraints[c]).len() == 4
            &&& forall|c: int|
                0 <= c < m.bmul_constraints.len() ==> (#[trigger] m.bmul_constraints[c]).len() == 6
            &&& (forall|c: int, p: int, t: int|
                0 <= c < m.zero_constraints.len() && 0 <= p < m.zero_constraints[c].len() && 0 <= t
                    < m.zero_constraints[c][p].len() ==> ShiftedValueIndex::accepted(
                    #[trigger] m.zero_constraints[c][p][t],
                ))
            &&& (forall|c: int, p: int, t: int|
                0 <= c < m.and_constraints.len() && 0 <= p < m.and_constraints[c].len() && 0 <= t
                    < m.and_constraints[c][p].len() ==> ShiftedValueIndex::accepted(
                    #[trigger] m.and_constraints[c][p][t],
                ))
            &&& (forall|c: int, p: int, t: int|
                0 <= c < m.imul_constraints.len() && 0 <= p < m.imul_constraints[c].len() && 0 <= t
                    < m.imul_constraints[c][p].len() ==> ShiftedValueIndex::accepted(
                    #[trigger] m.imul_constraints[c][p][t],
                ))
            &&& (forall|c: int, p: int, t: int|
                0 <= c < m.bmul_constraints.len() && 0 <= p < m.bmul_constraints[c].len() && 0 <= t
                    < m.bmul_constraints[c][p].len() ==> ShiftedValueIndex::accepted(
                    #[trigger] m.bmul_constraints[c][p][t],
                ))
        },
{
    assert(Vec::<ZeroConstraint>::accepted(m.zero_constraints) <==> (forall|c: int|
        0 <= c < m.zero_constraints.len() ==> (#[trigger] m.zero_constraints[c]).len() == 1)
        && (forall|c: int, p: int, t: int|
                0 <= c < m.zero_constraints.len() && 0 <= p < m.zero_constraints[c].len() && 0 <= t
                    < m.zero_constraints[c][p].len() ==> ShiftedValueIndex::accepted(
                    #[trigger] m.zero_constraints[c][p][t],
                ))) by {
        lemma_terms_accepted(m.zero_constraints);
    }
    assert(Vec::<AndConstraint>::accepted(m.and_constraints) <==> (forall|c: int|
        0 <= c < m.and_constraints.len() ==> (#[trigger] m.and_constraints[c]).len() == 3)
        && (forall|c: int, p: int, t: int|
                0 <= c < m.and_constraints.len() && 0 <= p < m.and_constraints[c].len() && 0 <= t
                    < m.and_constraints[c][p].len() ==> ShiftedValueIndex::accepted(
                    #[trigger] m.and_constraints[c][p][t],
                ))) by {
        lemma_terms_accepted(m.and_constraints);
    }
    assert(Vec::<ImulConstraint>::accepted(m.imul_constraints) <==> (forall|c: int|
        0 <= c < m.imul_constraints.len() ==> (#[trigger] m.imul_constraints[c]).len() == 4)
        && (forall|c: int, p: int, t: int|
                0 <= c < m.imul_constraints.len() && 0 <= p < m.imul_constraints[c].len() && 0 <= t
                    < m.imul_constraints[c][p].len() ==> ShiftedValueIndex::accepted(
                    #[trigger] m.imul_constraints[c][p][t],
                ))) by {
        lemma_terms_accepted(m.imul_constraints);
    }
    assert(Vec::<BmulConstraint>::accepted(m.bmul_constraints) <==> (forall|c: int|
        0 <= c < m.bmul_constraints.len() ==> (#[trigger] m.bmul_constraints[c]).len() == 6)
        && (forall|c: int, p: int, t: int|
                0 <= c < m.bmul_constraints.len() && 0 <= p < m.bmul_constraints[c].len() && 0 <= t
                    < m.bmul_constraints[c][p].len() ==> ShiftedValueIndex::accepted(
                    #[trigger] m.bmul_constraints[c][p][t],
                ))) by {
        lemma_terms_accepted(m.bmul_constraints);
    }
}

/// Reading accepts every operand of every constraint where it accepts every term.
proof fn lemma_terms_accepted(constraints: Seq<Seq<Seq<Term>>>)
    ensures
        (forall|c: int|
            0 <= c < constraints.len() ==> items_accepted::<Operand>(#[trigger] constraints[c]))
            <==> (forall|c: int, p: int, t: int|
            0 <= c < constraints.len() && 0 <= p < constraints[c].len() && 0 <= t
                < constraints[c][p].len() ==> ShiftedValueIndex::accepted(
                #[trigger] constraints[c][p][t],
            )),
{
    if forall|c: int|
        0 <= c < constraints.len() ==> items_accepted::<Operand>(#[trigger] constraints[c]) {
        assert forall|c: int, p: int, t: int|
            0 <= c < constraints.len() && 0 <= p < constraints[c].len() && 0 <= t
                < constraints[c][p].len() implies ShiftedValueIndex::accepted(
            #[trigger] constraints[c][p][t],
        ) by {
            assert(items_accepted::<Operand>(constraints[c]));
            assert(Operand::accepted(constraints[c][p]));
            assert(items_accepted::<ShiftedValueIndex>(constraints[c][p]));
        }
    }
    if forall|c: int, p: int, t: int|
        0 <= c < constraints.len() && 0 <= p < constraints[c].len() && 0 <= t
            < constraints[c][p].len() ==> ShiftedValueIndex::accepted(
            #[trigger] constraints[c][p][t],
        ) {
        assert forall|c: int| 0 <= c < constraints.len() implies items_accepted::<Operand>(
            #[trigger] constraints[c],
        ) by {
            assert forall|p: int| 0 <= p < constraints[c].len() implies Operand::accepted(
                #[trigger] constraints[c][p],
            ) by {
                assert forall|t: int| 0 <= t < constraints[c][p].len() implies
                    ShiftedValueIndex::accepted(#[trigger] constraints[c][p][t]) by {}
            }
        }
    }
}

/// A term is refused for the first of its parts that is not read, and as that part is.
pub proof fn law_term_refused(
    value_index: ValueIndex,
    inner: Shift,
    rest: Seq<u8>,
)
    requires
        ValueIndex::accepted(value_index),
        sizes_fit(ValueIndex::tokens(value_index)),
        Shift::accepted(inner),
        sizes_fit(Shift::tokens(inner)),
    ensures
        ValueIndex::parse(rest) matches Err(e) ==> ShiftedValueIndex::parse(rest) == Err::<
            (Term, Seq<u8>),
            (SerializationError, Seq<u8>),
        >(e),
        Shift::parse(rest) matches Err(e) ==>
            ShiftedValueIndex::parse(flat(ValueIndex::tokens(value_index)) + rest) == Err::<
            (Term, Seq<u8>),
            (SerializationError, Seq<u8>),
        >(e),
        Shift::parse(rest) matches Err(e) ==>
            ShiftedValueIndex::parse(flat(ValueIndex::tokens(value_index))
            + (flat(Shift::tokens(inner)) + rest)) == Err::<
            (Term, Seq<u8>),
            (SerializationError, Seq<u8>),
        >(e),
{
    ValueIndex::law_round_trip(value_index, rest);
    ValueIndex::law_round_trip(value_index, flat(Shift::tokens(inner)) + rest);
    Shift::law_round_trip(inner, rest);
}

/// A constraint system is refused for the first of its parts that is not read, and as that part is.
pub proof fn law_system_refused(
    version: u32,
    constants: Seq<u64>,
    n_inout: usize,
    n_private: usize,
    zero: Seq<Seq<Seq<Term>>>,
    and: Seq<Seq<Seq<Term>>>,
    imul: Seq<Seq<Seq<Term>>>,
    rest: Seq<u8>,
)
    requires
        u32::accepted(version),
        sizes_fit(u32::tokens(version)),
        Vec::<u64>::accepted(constants),
        sizes_fit(Vec::<u64>::tokens(constants)),
        usize::accepted(n_inout),
        sizes_fit(usize::tokens(n_inout)),
        usize::accepted(n_private),
        sizes_fit(usize::tokens(n_private)),
        Vec::<ZeroConstraint>::accepted(zero),
        sizes_fit(Vec::<ZeroConstraint>::tokens(zero)),
        Vec::<AndConstraint>::accepted(and),
        sizes_fit(Vec::<AndConstraint>::tokens(and)),
        Vec::<ImulConstraint>::accepted(imul),
        sizes_fit(Vec::<ImulConstraint>::tokens(imul)),
        version == 1,
    ensures
        u32::parse(rest) matches Err(e) ==> ConstraintSystem::parse(rest) == Err::<
            (ConstraintSystemModel, Seq<u8>),
            (SerializationError, Seq<u8>),
        >(e),
        Vec::<u64>::parse(rest) matches Err(e) ==>
            ConstraintSystem::parse(flat(u32::tokens(version)) + rest) == Err::<
            (ConstraintSystemModel, Seq<u8>),
            (SerializationError, Seq<u8>),
        >(e),
        usize::parse(rest) matches Err(e) ==> ConstraintSystem::parse(flat(u32::tokens(version))
            + (flat(Vec::<u64>::tokens(constants)) + rest)) == Err::<
            (ConstraintSystemModel, Seq<u8>),
            (SerializationError, Seq<u8>),
        >(e),
        usize::parse(rest) matches Err(e) ==> ConstraintSystem::parse(flat(u32::tokens(version))
            + (flat(Vec::<u64>::tokens(constants)) + (flat(usize::tokens(n_inout)) + rest)))
            == Err::<
            (ConstraintSystemModel, Seq<u8>),
            (SerializationError, Seq<u8>),
        >(e),
        Vec::<ZeroConstraint>::parse(rest) matches Err(e) ==>
            ConstraintSystem::parse(flat(u32::tokens(version))
            + (flat(Vec::<u64>::tokens(constants)) + (flat(usize::tokens(n_inout))
            + (flat(usize::tokens(n_private)) + rest)))) == Err::<
            (ConstraintSystemModel, Seq<u8>),
            (SerializationError, Seq<u8>),
        >(e),
        Vec::<AndConstraint>::parse(rest) matches Err(e) ==>
            ConstraintSystem::parse(flat(u32::tokens(version))
            + (flat(Vec::<u64>::tokens(constants)) + (flat(usize::tokens(n_inout))
            + (flat(usize::tokens(n_private)) + (flat(Vec::<ZeroConstraint>::tokens(zero))
            + rest))))) == Err::<
            (ConstraintSystemModel, Seq<u8>),
            (SerializationError, Seq<u8>),
        >(e),
        Vec::<ImulConstraint>::parse(rest) matches Err(e) ==>
            ConstraintSystem::parse(flat(u32::tokens(version))
            + (flat(Vec::<u64>::tokens(constants)) + (flat(usize::tokens(n_inout))
            + (flat(usize::tokens(n_private)) + (flat(Vec::<ZeroConstraint>::tokens(zero))
            + (flat(Vec::<AndConstraint>::tokens(and)) + rest)))))) == Err::<
            (ConstraintSystemModel, Seq<u8>),
            (SerializationError, Seq<u8>),
        >(e),
        Vec::<BmulConstraint>::parse(rest) matches Err(e) ==>
            ConstraintSystem::parse(flat(u32::tokens(version))
            + (flat(Vec::<u64>::tokens(constants)) + (flat(usize::tokens(n_inout))
            + (flat(usize::tokens(n_private)) + (flat(Vec::<ZeroConstraint>::tokens(zero))
            + (flat(Vec::<AndConstraint>::tokens(and)) + (flat(Vec::<ImulConstraint>::tokens(imul))
            + rest))))))) == Err::<
            (ConstraintSystemModel, Seq<u8>),
            (SerializationError, Seq<u8>),
        >(e),
{
    u32::law_round_trip(version, rest);
    u32::law_round_trip(version, flat(Vec::<u64>::tokens(constants)) + rest);
    Vec::<u64>::law_round_trip(constants, rest);
    u32::law_round_trip(version, flat(Vec::<u64>::tokens(constants)) + (flat(usize::tokens(n_inout))
        + rest));
    Vec::<u64>::law_round_trip(constants, flat(usize::tokens(n_inout)) + rest);
    usize::law_round_trip(n_inout, rest);
    u32::law_round_trip(version, flat(Vec::<u64>::tokens(constants)) + (flat(usize::tokens(n_inout))
        + (flat(usize::tokens(n_private)) + rest)));
    Vec::<u64>::law_round_trip(constants, flat(usize::tokens(n_inout))
        + (flat(usize::tokens(n_private)) + rest));
    usize::law_round_trip(n_inout, flat(usize::tokens(n_private)) + rest);
    usize::law_round_trip(n_private, rest);
    u32::law_round_trip(version, flat(Vec::<u64>::tokens(constants)) + (flat(usize::tokens(n_inout))
        + (flat(usize::tokens(n_private)) + (flat(Vec::<ZeroConstraint>::tokens(zero)) + rest))));
    Vec::<u64>::law_round_trip(constants, flat(usize::tokens(n_inout))
        + (flat(usize::tokens(n_private)) + (flat(Vec::<ZeroConstraint>::tokens(zero)) + rest)));
    usize::law_round_trip(n_inout, flat(usize::tokens(n_private))
        + (flat(Vec::<ZeroConstraint>::tokens(zero)) + rest));
    usize::law_round_trip(n_private, flat(Vec::<ZeroConstraint>::tokens(zero)) + rest);
    Vec::<ZeroConstraint>::law_round_trip(zero, rest);
    u32::law_round_trip(version, flat(Vec::<u64>::tokens(constants)) + (flat(usize::tokens(n_inout))
        + (flat(usize::tokens(n_private)) + (flat(Vec::<ZeroConstraint>::tokens(zero))
        + (flat(Vec::<AndConstraint>::tokens(and)) + rest)))));
    Vec::<u64>::law_round_trip(constants, flat(usize::tokens(n_inout))
        + (flat(usize::tokens(n_private)) + (flat(Vec::<ZeroConstraint>::tokens(zero))
        + (flat(Vec::<AndConstraint>::tokens(and)) + rest))));
    usize::law_round_trip(n_inout, flat(usize::tokens(n_private))
        + (flat(Vec::<ZeroConstraint>::tokens(zero)) + (flat(Vec::<AndConstraint>::tokens(and))
        + rest)));
    usize::law_round_trip(n_private, flat(Vec::<ZeroConstraint>::tokens(zero))
        + (flat(Vec::<AndConstraint>::tokens(and)) + rest));
    Vec::<ZeroConstraint>::law_round_trip(zero, flat(Vec::<AndConstraint>::tokens(and)) + rest);
    Vec::<AndConstraint>::law_round_trip(and, rest);
    u32::law_round_trip(version, flat(Vec::<u64>::tokens(constants)) + (flat(usize::tokens(n_inout))
        + (flat(usize::tokens(n_private)) + (flat(Vec::<ZeroConstraint>::tokens(zero))
        + (flat(Vec::<AndConstraint>::tokens(and)) + (flat(Vec::<ImulConstraint>::tokens(imul))
        + rest))))));
    Vec::<u64>::law_round_trip(constants, flat(usize::tokens(n_inout))
        + (flat(usize::tokens(n_private)) + (flat(Vec::<ZeroConstraint>::tokens(zero))
        + (flat(Vec::<AndConstraint>::tokens(and)) + (flat(Vec::<ImulConstraint>::tokens(imul))
        + rest)))));
    usize::law_round_trip(n_inout, flat(usize::tokens(n_private))
        + (flat(Vec::<ZeroConstraint>::tokens(zero)) + (flat(Vec::<AndConstraint>::tokens(and))
        + (flat(Vec::<ImulConstraint>::tokens(imul)) + rest))));
    usize::law_round_trip(n_private, flat(Vec::<ZeroConstraint>::tokens(zero))
        + (flat(Vec::<AndConstraint>::tokens(and)) + (flat(Vec::<ImulConstraint>::tokens(imul))
        + rest)));
    Vec::<ZeroConstraint>::law_round_trip(zero, flat(Vec::<AndConstraint>::tokens(and))
        + (flat(Vec::<ImulConstraint>::tokens(imul)) + rest));
    Vec::<AndConstraint>::law_round_trip(and, flat(Vec::<ImulConstraint>::tokens(imul)) + rest);
    Vec::<ImulConstraint>::law_round_trip(imul, rest);
}

/// A constraint is read as its number of operands, one behind the other.
pub proof fn law_constraint_read(s: Seq<u8>)
    ensures
        ZeroConstraint::parse(s) == parse_items::<Operand>(s, 1),
        AndConstraint::parse(s) == parse_items::<Operand>(s, 3),
        ImulConstraint::parse(s) == parse_items::<Operand>(s, 4),
        BmulConstraint::parse(s) == parse_items::<Operand>(s, 6),
{
}

} // verus!
