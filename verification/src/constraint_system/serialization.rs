//! The byte format of constraint systems.

use vstd::array::array_as_slice;
use vstd::prelude::*;

use crate::constraint_system::{
    constraints_model, AndConstraint, BmulConstraint, Constraint, ConstraintSystem,
    ConstraintSystemModel, ImulConstraint, Operand, Shift, ShiftVariant, ShiftedValueIndex, Term,
    ValueIndex, ZeroConstraint,
};
use crate::serialization::format::{
    flat, group_format, lemma_joined, lemma_split, DeserializeBytes, Parsed, SerializationError,
        SerializeBytes,
    Token,
};
use crate::serialization::primitives::{
    deserialize_items, items_accepted, items_tokens, lemma_items_canonical, lemma_items_round_trip,
    parse_items,
    serialize_items,
};

verus! {

impl DeepView for ShiftVariant {
    type V = ShiftVariant;

    open spec fn deep_view(&self) -> ShiftVariant {
        *self
    }
}

/// A variant is written as its place in the order of the variants.
impl SerializeBytes for ShiftVariant {
    open spec fn tokens(v: ShiftVariant) -> Seq<Token> {
        u8::tokens(v.ordinal_model() as u8)
    }

    fn serialize(&self, out: &mut Vec<u8>) -> (result: Result<(), SerializationError>) {
        self.ordinal().serialize(out)
    }
}

/// The variant at a place in the order of the variants.
pub open spec fn shift_variant_at(ordinal: u8) -> Option<ShiftVariant> {
    match ordinal {
        0 => Some(ShiftVariant::Sll),
        1 => Some(ShiftVariant::Slr),
        2 => Some(ShiftVariant::Sar),
        3 => Some(ShiftVariant::Rotr),
        4 => Some(ShiftVariant::Sll32),
        5 => Some(ShiftVariant::Srl32),
        6 => Some(ShiftVariant::Sra32),
        7 => Some(ShiftVariant::Rotr32),
        _ => None,
    }
}

impl DeserializeBytes for ShiftVariant {
    open spec fn accepted(v: ShiftVariant) -> bool {
        true
    }

    open spec fn parse(s: Seq<u8>) -> Parsed<ShiftVariant> {
        match u8::parse(s) {
            Ok((index, s)) => match shift_variant_at(index) {
                Some(variant) => Ok((variant, s)),
                None => Err(
                    (SerializationError::UnknownEnumVariant { name: "ShiftVariant", index }, s),
                ),
            },
            Err(e) => Err(e),
        }
    }

    fn deserialize(buf: &mut &[u8]) -> (result: Result<ShiftVariant, SerializationError>) {
        let index: u8 = u8::deserialize(buf)?;
        match index {
            0 => Ok(ShiftVariant::Sll),
            1 => Ok(ShiftVariant::Slr),
            2 => Ok(ShiftVariant::Sar),
            3 => Ok(ShiftVariant::Rotr),
            4 => Ok(ShiftVariant::Sll32),
            5 => Ok(ShiftVariant::Srl32),
            6 => Ok(ShiftVariant::Sra32),
            7 => Ok(ShiftVariant::Rotr32),
            _ => Err(SerializationError::UnknownEnumVariant { name: "ShiftVariant", index }),
        }
    }

    proof fn law_canonical(s: Seq<u8>) {
        u8::law_canonical(s);
    }

    proof fn law_round_trip(v: ShiftVariant, rest: Seq<u8>) {
        u8::law_round_trip(v.ordinal_model() as u8, rest);
    }
}

impl DeepView for Shift {
    type V = Shift;

    open spec fn deep_view(&self) -> Shift {
        *self
    }
}

impl SerializeBytes for Shift {
    open spec fn tokens(v: Shift) -> Seq<Token> {
        ShiftVariant::tokens(v.variant) + u8::tokens(v.amount)
    }

    fn serialize(&self, out: &mut Vec<u8>) -> (result: Result<(), SerializationError>) {
        broadcast use group_format;

        self.variant.serialize(out)?;
        self.amount.serialize(out)
    }
}

/// A shift whose amount is out of its variant's range is refused.
impl DeserializeBytes for Shift {
    open spec fn accepted(v: Shift) -> bool {
        v.wf()
    }

    open spec fn parse(s: Seq<u8>) -> Parsed<Shift> {
        match ShiftVariant::parse(s) {
            Ok((variant, s)) => match u8::parse(s) {
                Ok((amount, s)) => if (Shift { variant, amount }).wf() {
                    Ok((Shift { variant, amount }, s))
                } else {
                    Err((SerializationError::InvalidConstruction { name: "Shift::amount" }, s))
                },
                Err(e) => Err(e),
            },
            Err(e) => Err(e),
        }
    }

    fn deserialize(buf: &mut &[u8]) -> (result: Result<Shift, SerializationError>) {
        let variant = ShiftVariant::deserialize(buf)?;
        let amount: u8 = u8::deserialize(buf)?;
        let shift = Shift { variant, amount };
        if !shift.is_valid() {
            return Err(SerializationError::InvalidConstruction { name: "Shift::amount" });
        }
        Ok(shift)
    }

    proof fn law_canonical(s: Seq<u8>) {
        let s0 = s;
        ShiftVariant::law_canonical(s0);
        if let Ok((variant, s1)) = ShiftVariant::parse(s0) {
            u8::law_canonical(s1);
            if let Ok((amount, s2)) = u8::parse(s1) {
                let t0 = u8::tokens(amount);
                lemma_joined(ShiftVariant::tokens(variant), t0, s0, s1, s2);
            }
        }
    }

    proof fn law_round_trip(v: Shift, rest: Seq<u8>) {
        broadcast use group_format;

        let tail = flat(u8::tokens(v.amount)) + rest;
        ShiftVariant::law_round_trip(v.variant, tail);
        u8::law_round_trip(v.amount, rest);
        assert(flat(Self::tokens(v)) + rest =~= flat(ShiftVariant::tokens(v.variant)) + tail);
    }
}

impl DeepView for ValueIndex {
    type V = ValueIndex;

    open spec fn deep_view(&self) -> ValueIndex {
        *self
    }
}

/// The tag of a value index, and its place.
pub open spec fn value_index_parts(v: ValueIndex) -> (u8, u32) {
    match v {
        ValueIndex::Constant(i) => (0, i),
        ValueIndex::Inout(i) => (1, i),
        ValueIndex::Private(i) => (2, i),
        ValueIndex::Scratch(i) => (3, i),
    }
}

/// A value index is written as a tag, then the place.
impl SerializeBytes for ValueIndex {
    open spec fn tokens(v: ValueIndex) -> Seq<Token> {
        <(u8, u32)>::tokens(value_index_parts(v))
    }

    fn serialize(&self, out: &mut Vec<u8>) -> (result: Result<(), SerializationError>) {
        let parts: (u8, u32) = match *self {
            ValueIndex::Constant(i) => (0, i),
            ValueIndex::Inout(i) => (1, i),
            ValueIndex::Private(i) => (2, i),
            ValueIndex::Scratch(i) => (3, i),
        };
        parts.serialize(out)
    }
}

impl DeserializeBytes for ValueIndex {
    open spec fn accepted(v: ValueIndex) -> bool {
        true
    }

    open spec fn parse(s: Seq<u8>) -> Parsed<ValueIndex> {
        match <(u8, u32)>::parse(s) {
            Ok(((index, i), s)) => match index {
                0 => Ok((ValueIndex::Constant(i), s)),
                1 => Ok((ValueIndex::Inout(i), s)),
                2 => Ok((ValueIndex::Private(i), s)),
                3 => Ok((ValueIndex::Scratch(i), s)),
                _ => Err(
                    (SerializationError::UnknownEnumVariant { name: "ValueIndex", index }, s),
                ),
            },
            Err(e) => Err(e),
        }
    }

    fn deserialize(buf: &mut &[u8]) -> (result: Result<ValueIndex, SerializationError>) {
        let parts = <(u8, u32)>::deserialize(buf)?;
        let index: u8 = parts.0;
        match index {
            0 => Ok(ValueIndex::Constant(parts.1)),
            1 => Ok(ValueIndex::Inout(parts.1)),
            2 => Ok(ValueIndex::Private(parts.1)),
            3 => Ok(ValueIndex::Scratch(parts.1)),
            _ => Err(SerializationError::UnknownEnumVariant { name: "ValueIndex", index }),
        }
    }

    proof fn law_canonical(s: Seq<u8>) {
        <(u8, u32)>::law_canonical(s);
    }

    proof fn law_round_trip(v: ValueIndex, rest: Seq<u8>) {
        <(u8, u32)>::law_round_trip(value_index_parts(v), rest);
    }
}

impl SerializeBytes for ShiftedValueIndex {
    open spec fn tokens(v: Term) -> Seq<Token> {
        ValueIndex::tokens(v.value_index) + (Shift::tokens(v.inner) + Shift::tokens(v.outer))
    }

    fn serialize(&self, out: &mut Vec<u8>) -> (result: Result<(), SerializationError>) {
        broadcast use group_format;

        self.value_index.serialize(out)?;
        self.shift_seq[0].serialize(out)?;
        self.shift_seq[1].serialize(out)
    }
}

impl DeserializeBytes for ShiftedValueIndex {
    open spec fn accepted(v: Term) -> bool {
        v.inner.wf() && v.outer.wf()
    }

    open spec fn parse(s: Seq<u8>) -> Parsed<Term> {
        match ValueIndex::parse(s) {
            Ok((value_index, s)) => match Shift::parse(s) {
                Ok((inner, s)) => match Shift::parse(s) {
                    Ok((outer, s)) => Ok((Term { value_index, inner, outer }, s)),
                    Err(e) => Err(e),
                },
                Err(e) => Err(e),
            },
            Err(e) => Err(e),
        }
    }

    fn deserialize(buf: &mut &[u8]) -> (result: Result<ShiftedValueIndex, SerializationError>) {
        let value_index = ValueIndex::deserialize(buf)?;
        let inner = Shift::deserialize(buf)?;
        let outer = Shift::deserialize(buf)?;
        Ok(ShiftedValueIndex { value_index, shift_seq: [inner, outer] })
    }

    proof fn law_canonical(s: Seq<u8>) {
        let s0 = s;
        ValueIndex::law_canonical(s0);
        if let Ok((value_index, s1)) = ValueIndex::parse(s0) {
            Shift::law_canonical(s1);
            if let Ok((inner, s2)) = Shift::parse(s1) {
                Shift::law_canonical(s2);
                if let Ok((outer, s3)) = Shift::parse(s2) {
                    let t1 = Shift::tokens(outer);
                    lemma_joined(Shift::tokens(inner), t1, s1, s2, s3);
                    let t0 = Shift::tokens(inner) + t1;
                    lemma_joined(ValueIndex::tokens(value_index), t0, s0, s1, s3);
                }
            }
        }
    }

    proof fn law_round_trip(v: Term, rest: Seq<u8>) {
        broadcast use group_format;

        let tail = flat(Shift::tokens(v.outer)) + rest;
        let middle = flat(Shift::tokens(v.inner)) + tail;
        ValueIndex::law_round_trip(v.value_index, middle);
        Shift::law_round_trip(v.inner, tail);
        Shift::law_round_trip(v.outer, rest);
        assert(flat(Self::tokens(v)) + rest =~= flat(ValueIndex::tokens(v.value_index)) + middle);
    }
}

impl DeepView for ZeroConstraint {
    type V = Seq<Seq<Term>>;

    open spec fn deep_view(&self) -> Seq<Seq<Term>> {
        self.0.deep_view()
    }
}

impl SerializeBytes for ZeroConstraint {
    open spec fn tokens(v: Seq<Seq<Term>>) -> Seq<Token> {
        items_tokens::<Operand>(v)
    }

    fn serialize(&self, out: &mut Vec<u8>) -> (result: Result<(), SerializationError>) {
        let operands = array_as_slice(&self.0);
        assert(operands.deep_view() =~= self.deep_view());
        serialize_items(operands, out)
    }
}

impl DeserializeBytes for ZeroConstraint {
    open spec fn accepted(v: Seq<Seq<Term>>) -> bool {
        v.len() == 1 && items_accepted::<Operand>(v)
    }

    open spec fn parse(s: Seq<u8>) -> Parsed<Seq<Seq<Term>>> {
        parse_items::<Operand>(s, 1)
    }

    fn deserialize(buf: &mut &[u8]) -> (result: Result<ZeroConstraint, SerializationError>) {
        let mut operands = deserialize_items::<Operand>(buf, 1)?;
        let ghost all = operands;
        let a = operands.pop().unwrap();
        let constraint = ZeroConstraint([a]);
        assert(constraint.deep_view() =~= all.deep_view());
        Ok(constraint)
    }

    proof fn law_canonical(s: Seq<u8>) {
        lemma_items_canonical::<Operand>(s, 1);
    }

    proof fn law_round_trip(v: Seq<Seq<Term>>, rest: Seq<u8>) {
        lemma_items_round_trip::<Operand>(v, rest);
    }
}

impl DeepView for AndConstraint {
    type V = Seq<Seq<Term>>;

    open spec fn deep_view(&self) -> Seq<Seq<Term>> {
        self.0.deep_view()
    }
}

impl SerializeBytes for AndConstraint {
    open spec fn tokens(v: Seq<Seq<Term>>) -> Seq<Token> {
        items_tokens::<Operand>(v)
    }

    fn serialize(&self, out: &mut Vec<u8>) -> (result: Result<(), SerializationError>) {
        let operands = array_as_slice(&self.0);
        assert(operands.deep_view() =~= self.deep_view());
        serialize_items(operands, out)
    }
}

impl DeserializeBytes for AndConstraint {
    open spec fn accepted(v: Seq<Seq<Term>>) -> bool {
        v.len() == 3 && items_accepted::<Operand>(v)
    }

    open spec fn parse(s: Seq<u8>) -> Parsed<Seq<Seq<Term>>> {
        parse_items::<Operand>(s, 3)
    }

    fn deserialize(buf: &mut &[u8]) -> (result: Result<AndConstraint, SerializationError>) {
        let mut operands = deserialize_items::<Operand>(buf, 3)?;
        let ghost all = operands;
        let c = operands.pop().unwrap();
        let b = operands.pop().unwrap();
        let a = operands.pop().unwrap();
        let constraint = AndConstraint([a, b, c]);
        assert(constraint.deep_view() =~= all.deep_view());
        Ok(constraint)
    }

    proof fn law_canonical(s: Seq<u8>) {
        lemma_items_canonical::<Operand>(s, 3);
    }

    proof fn law_round_trip(v: Seq<Seq<Term>>, rest: Seq<u8>) {
        lemma_items_round_trip::<Operand>(v, rest);
    }
}

impl DeepView for ImulConstraint {
    type V = Seq<Seq<Term>>;

    open spec fn deep_view(&self) -> Seq<Seq<Term>> {
        self.0.deep_view()
    }
}

impl SerializeBytes for ImulConstraint {
    open spec fn tokens(v: Seq<Seq<Term>>) -> Seq<Token> {
        items_tokens::<Operand>(v)
    }

    fn serialize(&self, out: &mut Vec<u8>) -> (result: Result<(), SerializationError>) {
        let operands = array_as_slice(&self.0);
        assert(operands.deep_view() =~= self.deep_view());
        serialize_items(operands, out)
    }
}

impl DeserializeBytes for ImulConstraint {
    open spec fn accepted(v: Seq<Seq<Term>>) -> bool {
        v.len() == 4 && items_accepted::<Operand>(v)
    }

    open spec fn parse(s: Seq<u8>) -> Parsed<Seq<Seq<Term>>> {
        parse_items::<Operand>(s, 4)
    }

    fn deserialize(buf: &mut &[u8]) -> (result: Result<ImulConstraint, SerializationError>) {
        let mut operands = deserialize_items::<Operand>(buf, 4)?;
        let ghost all = operands;
        let d = operands.pop().unwrap();
        let c = operands.pop().unwrap();
        let b = operands.pop().unwrap();
        let a = operands.pop().unwrap();
        let constraint = ImulConstraint([a, b, c, d]);
        assert(constraint.deep_view() =~= all.deep_view());
        Ok(constraint)
    }

    proof fn law_canonical(s: Seq<u8>) {
        lemma_items_canonical::<Operand>(s, 4);
    }

    proof fn law_round_trip(v: Seq<Seq<Term>>, rest: Seq<u8>) {
        lemma_items_round_trip::<Operand>(v, rest);
    }
}

impl DeepView for BmulConstraint {
    type V = Seq<Seq<Term>>;

    open spec fn deep_view(&self) -> Seq<Seq<Term>> {
        self.0.deep_view()
    }
}

impl SerializeBytes for BmulConstraint {
    open spec fn tokens(v: Seq<Seq<Term>>) -> Seq<Token> {
        items_tokens::<Operand>(v)
    }

    fn serialize(&self, out: &mut Vec<u8>) -> (result: Result<(), SerializationError>) {
        let operands = array_as_slice(&self.0);
        assert(operands.deep_view() =~= self.deep_view());
        serialize_items(operands, out)
    }
}

impl DeserializeBytes for BmulConstraint {
    open spec fn accepted(v: Seq<Seq<Term>>) -> bool {
        v.len() == 6 && items_accepted::<Operand>(v)
    }

    open spec fn parse(s: Seq<u8>) -> Parsed<Seq<Seq<Term>>> {
        parse_items::<Operand>(s, 6)
    }

    fn deserialize(buf: &mut &[u8]) -> (result: Result<BmulConstraint, SerializationError>) {
        let mut operands = deserialize_items::<Operand>(buf, 6)?;
        let ghost all = operands;
        let f = operands.pop().unwrap();
        let e = operands.pop().unwrap();
        let d = operands.pop().unwrap();
        let c = operands.pop().unwrap();
        let b = operands.pop().unwrap();
        let a = operands.pop().unwrap();
        let constraint = BmulConstraint([a, b, c, d, e, f]);
        assert(constraint.deep_view() =~= all.deep_view());
        Ok(constraint)
    }

    proof fn law_canonical(s: Seq<u8>) {
        lemma_items_canonical::<Operand>(s, 6);
    }

    proof fn law_round_trip(v: Seq<Seq<Term>>, rest: Seq<u8>) {
        lemma_items_round_trip::<Operand>(v, rest);
    }
}

/// The version of the byte format of constraint systems.
pub const SERIALIZATION_VERSION: u32 = 1;

impl SerializeBytes for ConstraintSystem {
    open spec fn tokens(v: ConstraintSystemModel) -> Seq<Token> {
        u32::tokens(SERIALIZATION_VERSION) + (Vec::<u64>::tokens(v.constants) + (usize::tokens(
            v.n_inout,
        ) + (usize::tokens(v.n_private) + (Vec::<ZeroConstraint>::tokens(v.zero_constraints) + (
        Vec::<AndConstraint>::tokens(v.and_constraints) + (Vec::<ImulConstraint>::tokens(
            v.imul_constraints,
        ) + Vec::<BmulConstraint>::tokens(v.bmul_constraints)))))))
    }

    fn serialize(&self, out: &mut Vec<u8>) -> (result: Result<(), SerializationError>) {
        broadcast use group_format;

        proof {
            lemma_constraints_model(self.zero_constraints);
            lemma_constraints_model(self.and_constraints);
            lemma_constraints_model(self.imul_constraints);
            lemma_constraints_model(self.bmul_constraints);
            assert(self.constants.deep_view() =~= self.constants@);
        }
        SERIALIZATION_VERSION.serialize(out)?;
        self.constants.serialize(out)?;
        self.n_inout.serialize(out)?;
        self.n_private.serialize(out)?;
        self.zero_constraints.serialize(out)?;
        self.and_constraints.serialize(out)?;
        self.imul_constraints.serialize(out)?;
        self.bmul_constraints.serialize(out)
    }
}

/// The operands of a list of constraints are what the list holds.
proof fn lemma_constraints_model<C: Constraint + DeepView<V = Seq<Seq<Term>>>>(
    constraints: Vec<C>,
)
    requires
        forall|i: int|
            0 <= i < constraints@.len() ==> (#[trigger] constraints@[i]).operands()
                == constraints@[i].deep_view(),
    ensures
        constraints.deep_view() == constraints_model(constraints@),
{
    assert(constraints.deep_view() =~= constraints_model(constraints@));
}

/// A format of another version is refused.
impl DeserializeBytes for ConstraintSystem {
    open spec fn accepted(v: ConstraintSystemModel) -> bool {
        &&& Vec::<ZeroConstraint>::accepted(v.zero_constraints)
        &&& Vec::<AndConstraint>::accepted(v.and_constraints)
        &&& Vec::<ImulConstraint>::accepted(v.imul_constraints)
        &&& Vec::<BmulConstraint>::accepted(v.bmul_constraints)
    }

    open spec fn parse(s: Seq<u8>) -> Parsed<ConstraintSystemModel> {
        match u32::parse(s) {
            Ok((version, s)) => if version != SERIALIZATION_VERSION {
                Err(
                    (
                        SerializationError::InvalidConstruction {
                            name: "ConstraintSystem::version",
                        },
                        s,
                    ),
                )
            } else {
                parse_constraint_system(s)
            },
            Err(e) => Err(e),
        }
    }

    fn deserialize(buf: &mut &[u8]) -> (result: Result<ConstraintSystem, SerializationError>) {
        let version: u32 = u32::deserialize(buf)?;
        if version != SERIALIZATION_VERSION {
            return Err(
                SerializationError::InvalidConstruction { name: "ConstraintSystem::version" },
            );
        }
        let constants = Vec::<u64>::deserialize(buf)?;
        let n_inout: usize = usize::deserialize(buf)?;
        let n_private: usize = usize::deserialize(buf)?;
        let zero_constraints = Vec::<ZeroConstraint>::deserialize(buf)?;
        let and_constraints = Vec::<AndConstraint>::deserialize(buf)?;
        let imul_constraints = Vec::<ImulConstraint>::deserialize(buf)?;
        let bmul_constraints = Vec::<BmulConstraint>::deserialize(buf)?;
        proof {
            lemma_constraints_model(zero_constraints);
            lemma_constraints_model(and_constraints);
            lemma_constraints_model(imul_constraints);
            lemma_constraints_model(bmul_constraints);
            assert(constants.deep_view() =~= constants@);
        }
        Ok(
            ConstraintSystem {
                constants,
                n_inout,
                n_private,
                zero_constraints,
                and_constraints,
                imul_constraints,
                bmul_constraints,
            },
        )
    }

    proof fn law_canonical(s: Seq<u8>) {
        let s0 = s;
        u32::law_canonical(s0);
        if let Ok((version, s1)) = u32::parse(s0) {
            Vec::<u64>::law_canonical(s1);
            if let Ok((constants, s2)) = Vec::<u64>::parse(s1) {
                usize::law_canonical(s2);
                if let Ok((n_inout, s3)) = usize::parse(s2) {
                    usize::law_canonical(s3);
                    if let Ok((n_private, s4)) = usize::parse(s3) {
                        Vec::<ZeroConstraint>::law_canonical(s4);
                        if let Ok((zero, s5)) = Vec::<ZeroConstraint>::parse(s4) {
                            Vec::<AndConstraint>::law_canonical(s5);
                            if let Ok((and, s6)) = Vec::<AndConstraint>::parse(s5) {
                                Vec::<ImulConstraint>::law_canonical(s6);
                                if let Ok((imul, s7)) = Vec::<ImulConstraint>::parse(s6) {
                                    Vec::<BmulConstraint>::law_canonical(s7);
                                    if let Ok((bmul, s8)) = Vec::<BmulConstraint>::parse(s7) {
                                        let t6 = Vec::<BmulConstraint>::tokens(bmul);
                                        lemma_joined(Vec::<ImulConstraint>::tokens(imul), t6, s6,
                                            s7, s8);
                                        let t5 = Vec::<ImulConstraint>::tokens(imul) + t6;
                                        lemma_joined(Vec::<AndConstraint>::tokens(and), t5, s5, s6,
                                            s8);
                                        let t4 = Vec::<AndConstraint>::tokens(and) + t5;
                                        lemma_joined(Vec::<ZeroConstraint>::tokens(zero), t4, s4,
                                            s5, s8);
                                        let t3 = Vec::<ZeroConstraint>::tokens(zero) + t4;
                                        lemma_joined(usize::tokens(n_private), t3, s3, s4, s8);
                                        let t2 = usize::tokens(n_private) + t3;
                                        lemma_joined(usize::tokens(n_inout), t2, s2, s3, s8);
                                        let t1 = usize::tokens(n_inout) + t2;
                                        lemma_joined(Vec::<u64>::tokens(constants), t1, s1, s2, s8);
                                        let t0 = Vec::<u64>::tokens(constants) + t1;
                                        lemma_joined(u32::tokens(version), t0, s0, s1, s8);
                                    }
                                }
                            }
                        }
                    }
                }
            }
        }
    }

    proof fn law_round_trip(v: ConstraintSystemModel, rest: Seq<u8>) {
        let t7 = Vec::<BmulConstraint>::tokens(v.bmul_constraints);
        let t6 = Vec::<ImulConstraint>::tokens(v.imul_constraints) + t7;
        let t5 = Vec::<AndConstraint>::tokens(v.and_constraints) + t6;
        let t4 = Vec::<ZeroConstraint>::tokens(v.zero_constraints) + t5;
        let t3 = usize::tokens(v.n_private) + t4;
        let t2 = usize::tokens(v.n_inout) + t3;
        let t1 = Vec::<u64>::tokens(v.constants) + t2;
        let t0 = u32::tokens(SERIALIZATION_VERSION) + t1;
        lemma_split(u32::tokens(SERIALIZATION_VERSION), t1, rest);
        u32::law_round_trip(SERIALIZATION_VERSION, flat(t1) + rest);
        lemma_split(Vec::<u64>::tokens(v.constants), t2, rest);
        Vec::<u64>::law_round_trip(v.constants, flat(t2) + rest);
        lemma_split(usize::tokens(v.n_inout), t3, rest);
        usize::law_round_trip(v.n_inout, flat(t3) + rest);
        lemma_split(usize::tokens(v.n_private), t4, rest);
        usize::law_round_trip(v.n_private, flat(t4) + rest);
        lemma_split(Vec::<ZeroConstraint>::tokens(v.zero_constraints), t5, rest);
        Vec::<ZeroConstraint>::law_round_trip(v.zero_constraints, flat(t5) + rest);
        lemma_split(Vec::<AndConstraint>::tokens(v.and_constraints), t6, rest);
        Vec::<AndConstraint>::law_round_trip(v.and_constraints, flat(t6) + rest);
        lemma_split(Vec::<ImulConstraint>::tokens(v.imul_constraints), t7, rest);
        Vec::<ImulConstraint>::law_round_trip(v.imul_constraints, flat(t7) + rest);
        Vec::<BmulConstraint>::law_round_trip(v.bmul_constraints, rest);
    }
}

/// What comes of reading the parts of a constraint system.
pub open spec fn parse_constraint_system(s: Seq<u8>) -> Parsed<ConstraintSystemModel> {
    match Vec::<u64>::parse(s) {
        Ok((constants, s)) => match usize::parse(s) {
            Ok((n_inout, s)) => match usize::parse(s) {
                Ok((n_private, s)) => match Vec::<ZeroConstraint>::parse(s) {
                    Ok((zero_constraints, s)) => match Vec::<AndConstraint>::parse(s) {
                        Ok((and_constraints, s)) => match Vec::<ImulConstraint>::parse(s) {
                            Ok((imul_constraints, s)) => match Vec::<BmulConstraint>::parse(s) {
                                Ok((bmul_constraints, s)) => Ok((
                                    ConstraintSystemModel {
                                        constants,
                                        n_inout,
                                        n_private,
                                        zero_constraints,
                                        and_constraints,
                                        imul_constraints,
                                        bmul_constraints,
                                    },
                                    s,
                                )),
                                Err(e) => Err(e),
                            },
                            Err(e) => Err(e),
                        },
                        Err(e) => Err(e),
                    },
                    Err(e) => Err(e),
                },
                Err(e) => Err(e),
            },
            Err(e) => Err(e),
        },
        Err(e) => Err(e),
    }
}

} // verus!
