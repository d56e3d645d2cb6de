//! Constraint systems over 64-bit words: the value vector, shifted references into it, and the
//! four kinds of constraints that are built from them.

use vstd::prelude::*;

pub mod format;
pub mod laws;
pub mod serialization;
pub mod validate;

verus! {

/// The number of distinct shift indices.
pub const SHIFT_COUNT: usize = 512;

/// The number of distinct shift sequences, and so of sequence codes.
pub const SHIFT_SEQ_COUNT: usize = 262144;

/// How a word is shifted. The variants that end in 32 shift the two halves of the word on their
/// own.
#[derive(Clone, Copy, Debug, PartialEq, Eq, PartialOrd, Ord, Hash, Structural)]
pub enum ShiftVariant {
    Sll,
    Slr,
    Sar,
    Rotr,
    Sll32,
    Srl32,
    Sra32,
    Rotr32,
}

impl ShiftVariant {
    /// The variant's place in the order of the variants.
    pub open spec fn ordinal_model(self) -> int {
        match self {
            ShiftVariant::Sll => 0,
            ShiftVariant::Slr => 1,
            ShiftVariant::Sar => 2,
            ShiftVariant::Rotr => 3,
            ShiftVariant::Sll32 => 4,
            ShiftVariant::Srl32 => 5,
            ShiftVariant::Sra32 => 6,
            ShiftVariant::Rotr32 => 7,
        }
    }

    pub fn ordinal(self) -> (ordinal: u8)
        ensures
            ordinal == self.ordinal_model(),
            ordinal < 8,
    {
        match self {
            ShiftVariant::Sll => 0,
            ShiftVariant::Slr => 1,
            ShiftVariant::Sar => 2,
            ShiftVariant::Rotr => 3,
            ShiftVariant::Sll32 => 4,
            ShiftVariant::Srl32 => 5,
            ShiftVariant::Sra32 => 6,
            ShiftVariant::Rotr32 => 7,
        }
    }

    /// Whether the two halves of the word are shifted on their own.
    pub fn is_half_word(self) -> (half: bool)
        ensures
            half == (self.ordinal_model() >= 4),
    {
        match self {
            ShiftVariant::Sll | ShiftVariant::Slr | ShiftVariant::Sar | ShiftVariant::Rotr => false,
            _ => true,
        }
    }
}

/// One shift: a variant and an amount.
#[derive(Clone, Copy, Debug, PartialEq, Eq, PartialOrd, Ord, Hash, Structural)]
pub struct Shift {
    pub variant: ShiftVariant,
    pub amount: u8,
}

impl Shift {
    /// A shift moves a word by less than its width, and a half by less than the half's width.
    pub open spec fn wf(self) -> bool {
        if self.variant.ordinal_model() >= 4 {
            self.amount < 32
        } else {
            self.amount < 64
        }
    }

    /// The shift's place among all shifts: by variant, then by amount.
    pub open spec fn index_model(self) -> int {
        self.variant.ordinal_model() * 64 + self.amount
    }

    pub fn new(variant: ShiftVariant, amount: u8) -> (shift: Self)
        ensures
            shift.variant == variant,
            shift.amount == amount,
    {
        Shift { variant, amount }
    }

    /// The shift that leaves every word as it is: left by nothing.
    pub fn identity() -> (shift: Self)
        ensures
            shift == (Shift { variant: ShiftVariant::Sll, amount: 0 }),
            shift.wf(),
    {
        Shift { variant: ShiftVariant::Sll, amount: 0 }
    }

    pub fn sll(amount: u8) -> (shift: Self)
        ensures
            shift == (Shift { variant: ShiftVariant::Sll, amount }),
    {
        Shift { variant: ShiftVariant::Sll, amount }
    }

    pub fn srl(amount: u8) -> (shift: Self)
        ensures
            shift == (Shift { variant: ShiftVariant::Slr, amount }),
    {
        Shift { variant: ShiftVariant::Slr, amount }
    }

    pub fn sar(amount: u8) -> (shift: Self)
        ensures
            shift == (Shift { variant: ShiftVariant::Sar, amount }),
    {
        Shift { variant: ShiftVariant::Sar, amount }
    }

    pub fn rotr(amount: u8) -> (shift: Self)
        ensures
            shift == (Shift { variant: ShiftVariant::Rotr, amount }),
    {
        Shift { variant: ShiftVariant::Rotr, amount }
    }

    /// The shift's place among all shifts.
    pub fn index(self) -> (index: usize)
        requires
            self.wf(),
        ensures
            index == self.index_model(),
            index < SHIFT_COUNT,
    {
        self.variant.ordinal() as usize * 64 + self.amount as usize
    }

    /// Whether the amount is in the variant's range.
    pub fn is_valid(self) -> (valid: bool)
        ensures
            valid == self.wf(),
    {
        if self.variant.is_half_word() {
            self.amount < 32
        } else {
            self.amount < 64
        }
    }
}

/// The index of a shift determines the shift.
pub proof fn lemma_shift_index_injective(a: Shift, b: Shift)
    requires
        a.wf(),
        b.wf(),
        a.index_model() == b.index_model(),
    ensures
        a == b,
{
    assert(a.variant.ordinal_model() == b.variant.ordinal_model());
}

/// The code of a shift sequence: the outer shift's index above the inner one's.
pub open spec fn seq_code_model(shift_seq: [Shift; 2]) -> int {
    shift_seq[1].index_model() * 512 + shift_seq[0].index_model()
}

/// Whether both shifts of a sequence are in range.
pub open spec fn seq_wf(shift_seq: [Shift; 2]) -> bool {
    shift_seq[0].wf() && shift_seq[1].wf()
}

/// The code of a shift sequence. Sequences are kept in the order of their codes.
pub fn seq_code(shift_seq: [Shift; 2]) -> (code: u32)
    requires
        seq_wf(shift_seq),
    ensures
        code == seq_code_model(shift_seq),
        code < SHIFT_SEQ_COUNT,
{
    (shift_seq[1].index() * 512 + shift_seq[0].index()) as u32
}

/// The code of a shift sequence determines the sequence.
pub proof fn lemma_seq_code_injective(a: [Shift; 2], b: [Shift; 2])
    requires
        seq_wf(a),
        seq_wf(b),
        seq_code_model(a) == seq_code_model(b),
    ensures
        a == b,
{
    assert(a[1].index_model() == b[1].index_model());
    lemma_shift_index_injective(a[1], b[1]);
    lemma_shift_index_injective(a[0], b[0]);
    assert(a@ =~= b@);
    assert(a =~= b);
}

/// Where a word of the value vector is found: a segment and a place in it. Scratch words belong
/// to evaluation alone and have no place in the value vector.
#[derive(Clone, Copy, Debug, PartialEq, Eq, Hash, Structural)]
pub enum ValueIndex {
    Constant(u32),
    Inout(u32),
    Private(u32),
    Scratch(u32),
}

impl ValueIndex {
    pub fn constant(index: u32) -> (value_index: Self)
        ensures
            value_index == ValueIndex::Constant(index),
    {
        ValueIndex::Constant(index)
    }

    pub fn inout(index: u32) -> (value_index: Self)
        ensures
            value_index == ValueIndex::Inout(index),
    {
        ValueIndex::Inout(index)
    }

    pub fn private(index: u32) -> (value_index: Self)
        ensures
            value_index == ValueIndex::Private(index),
    {
        ValueIndex::Private(index)
    }

    pub fn scratch(index: u32) -> (value_index: Self)
        ensures
            value_index == ValueIndex::Scratch(index),
    {
        ValueIndex::Scratch(index)
    }
}

/// A reference to a word under two shifts: the one in slot 0 is applied first.
#[derive(Clone, Copy, Debug, PartialEq, Eq)]
pub struct ShiftedValueIndex {
    pub value_index: ValueIndex,
    pub shift_seq: [Shift; 2],
}

/// What a [`ShiftedValueIndex`] holds.
pub ghost struct Term {
    pub value_index: ValueIndex,
    pub inner: Shift,
    pub outer: Shift,
}

impl Term {
    /// The code of the term's shift sequence.
    pub open spec fn seq_code(self) -> int {
        self.outer.index_model() * 512 + self.inner.index_model()
    }
}

impl DeepView for ShiftedValueIndex {
    type V = Term;

    open spec fn deep_view(&self) -> Term {
        Term {
            value_index: self.value_index,
            inner: self.shift_seq[0],
            outer: self.shift_seq[1],
        }
    }
}

impl ShiftedValueIndex {
    pub fn new(value_index: ValueIndex, shift_seq: [Shift; 2]) -> (term: Self)
        ensures
            term.value_index == value_index,
            term.shift_seq == shift_seq,
    {
        ShiftedValueIndex { value_index, shift_seq }
    }

    /// The word under one shift.
    pub fn single(value_index: ValueIndex, shift: Shift) -> (term: Self)
        ensures
            term.deep_view() == (Term {
                value_index,
                inner: shift,
                outer: Shift { variant: ShiftVariant::Sll, amount: 0 },
            }),
    {
        ShiftedValueIndex { value_index, shift_seq: [shift, Shift::identity()] }
    }

    /// The word as it is.
    pub fn plain(value_index: ValueIndex) -> (term: Self)
        ensures
            term.deep_view() == (Term {
                value_index,
                inner: Shift { variant: ShiftVariant::Sll, amount: 0 },
                outer: Shift { variant: ShiftVariant::Sll, amount: 0 },
            }),
    {
        Self::single(value_index, Shift::identity())
    }

    pub fn srl(value_index: ValueIndex, amount: u8) -> (term: Self)
        ensures
            term.deep_view() == (Term {
                value_index,
                inner: Shift { variant: ShiftVariant::Slr, amount },
                outer: Shift { variant: ShiftVariant::Sll, amount: 0 },
            }),
    {
        Self::single(value_index, Shift::srl(amount))
    }

    pub fn sar(value_index: ValueIndex, amount: u8) -> (term: Self)
        ensures
            term.deep_view() == (Term {
                value_index,
                inner: Shift { variant: ShiftVariant::Sar, amount },
                outer: Shift { variant: ShiftVariant::Sll, amount: 0 },
            }),
    {
        Self::single(value_index, Shift::sar(amount))
    }

    pub fn rotr(value_index: ValueIndex, amount: u8) -> (term: Self)
        ensures
            term.deep_view() == (Term {
                value_index,
                inner: Shift { variant: ShiftVariant::Rotr, amount },
                outer: Shift { variant: ShiftVariant::Sll, amount: 0 },
            }),
    {
        Self::single(value_index, Shift::rotr(amount))
    }
}

/// An operand of a constraint: the exclusive or of its terms.
pub type Operand = Vec<ShiftedValueIndex>;

/// An operand that has to be zero.
#[derive(Clone, Debug)]
pub struct ZeroConstraint(pub [Operand; 1]);

/// The bitwise and of the first two operands is the third.
#[derive(Clone, Debug)]
pub struct AndConstraint(pub [Operand; 3]);

/// A product of integers over four operands.
#[derive(Clone, Debug)]
pub struct ImulConstraint(pub [Operand; 4]);

/// A product in a binary field over six operands.
#[derive(Clone, Debug)]
pub struct BmulConstraint(pub [Operand; 6]);

/// A constraint as its list of operands.
pub trait Constraint {
    /// The number of operands of every constraint of this kind.
    spec fn arity_model() -> nat;

    /// The operands.
    spec fn operands(&self) -> Seq<Seq<Term>>;

    /// The number of operands.
    fn arity() -> (arity: usize)
        ensures
            arity == Self::arity_model(),
            arity < 256,
    ;

    /// The operand at position `i`.
    fn operand(&self, i: usize) -> (operand: &Operand)
        requires
            i < Self::arity_model(),
        ensures
            self.operands().len() == Self::arity_model(),
            operand.deep_view() == self.operands()[i as int],
    ;

    /// Every constraint of this kind has that number of operands.
    proof fn lemma_arity(&self)
        ensures
            self.operands().len() == Self::arity_model(),
    ;
}

impl Constraint for ZeroConstraint {
    open spec fn arity_model() -> nat {
        1
    }

    open spec fn operands(&self) -> Seq<Seq<Term>> {
        self.0.deep_view()
    }

    fn arity() -> (arity: usize) {
        1
    }

    fn operand(&self, i: usize) -> (operand: &Operand) {
        &self.0[i]
    }

    proof fn lemma_arity(&self) {
    }
}

impl Constraint for AndConstraint {
    open spec fn arity_model() -> nat {
        3
    }

    open spec fn operands(&self) -> Seq<Seq<Term>> {
        self.0.deep_view()
    }

    fn arity() -> (arity: usize) {
        3
    }

    fn operand(&self, i: usize) -> (operand: &Operand) {
        &self.0[i]
    }

    proof fn lemma_arity(&self) {
    }
}

impl Constraint for ImulConstraint {
    open spec fn arity_model() -> nat {
        4
    }

    open spec fn operands(&self) -> Seq<Seq<Term>> {
        self.0.deep_view()
    }

    fn arity() -> (arity: usize) {
        4
    }

    fn operand(&self, i: usize) -> (operand: &Operand) {
        &self.0[i]
    }

    proof fn lemma_arity(&self) {
    }
}

impl Constraint for BmulConstraint {
    open spec fn arity_model() -> nat {
        6
    }

    open spec fn operands(&self) -> Seq<Seq<Term>> {
        self.0.deep_view()
    }

    fn arity() -> (arity: usize) {
        6
    }

    fn operand(&self, i: usize) -> (operand: &Operand) {
        &self.0[i]
    }

    proof fn lemma_arity(&self) {
    }
}

/// The operands of each constraint of a list.
pub open spec fn constraints_model<C: Constraint>(constraints: Seq<C>) -> Seq<Seq<Seq<Term>>> {
    constraints.map_values(|c: C| c.operands())
}

/// The words of the value vector and the constraints on them.
#[derive(Clone, Debug)]
pub struct ConstraintSystem {
    /// The words that are fixed. They come first in the value vector.
    pub constants: Vec<u64>,
    /// The number of words of the public interface. They come second.
    pub n_inout: usize,
    /// The number of words that only the prover knows. They come last.
    pub n_private: usize,
    pub zero_constraints: Vec<ZeroConstraint>,
    pub and_constraints: Vec<AndConstraint>,
    pub imul_constraints: Vec<ImulConstraint>,
    pub bmul_constraints: Vec<BmulConstraint>,
}

/// What a [`ConstraintSystem`] holds.
pub ghost struct ConstraintSystemModel {
    pub constants: Seq<u64>,
    pub n_inout: usize,
    pub n_private: usize,
    pub zero_constraints: Seq<Seq<Seq<Term>>>,
    pub and_constraints: Seq<Seq<Seq<Term>>>,
    pub imul_constraints: Seq<Seq<Seq<Term>>>,
    pub bmul_constraints: Seq<Seq<Seq<Term>>>,
}

impl DeepView for ConstraintSystem {
    type V = ConstraintSystemModel;

    open spec fn deep_view(&self) -> ConstraintSystemModel {
        ConstraintSystemModel {
            constants: self.constants@,
            n_inout: self.n_inout,
            n_private: self.n_private,
            zero_constraints: constraints_model(self.zero_constraints@),
            and_constraints: constraints_model(self.and_constraints@),
            imul_constraints: constraints_model(self.imul_constraints@),
            bmul_constraints: constraints_model(self.bmul_constraints@),
        }
    }
}

/// Which half of the value vector holds the public interface.
#[derive(Clone, Copy, Debug, PartialEq, Eq, Structural)]
pub enum InoutSegment {
    Public,
    Hidden,
}

impl ConstraintSystemModel {
    /// The number of words of the value vector.
    pub open spec fn value_vec_len(self) -> int {
        self.constants.len() + self.n_inout + self.n_private
    }

    /// The number of words of the public half.
    pub open spec fn n_public_words(self, inout: InoutSegment) -> int {
        match inout {
            InoutSegment::Public => self.constants.len() + self.n_inout,
            InoutSegment::Hidden => self.constants.len() as int,
        }
    }

    /// Whether a value index names a word of the value vector.
    pub open spec fn in_range(self, value_index: ValueIndex) -> bool {
        match value_index {
            ValueIndex::Constant(i) => i < self.constants.len(),
            ValueIndex::Inout(i) => i < self.n_inout,
            ValueIndex::Private(i) => i < self.n_private,
            ValueIndex::Scratch(_) => false,
        }
    }

    /// The place in the value vector of the word that a value index names.
    pub open spec fn word_offset(self, value_index: ValueIndex) -> int {
        match value_index {
            ValueIndex::Constant(i) => i as int,
            ValueIndex::Inout(i) => self.constants.len() + i,
            ValueIndex::Private(i) => self.constants.len() + self.n_inout + i,
            ValueIndex::Scratch(i) => i as int,
        }
    }

    /// Whether a term names a word of the value vector, under shifts that are in range.
    pub open spec fn term_valid(self, term: Term) -> bool {
        self.in_range(term.value_index) && term.inner.wf() && term.outer.wf()
    }

    /// Whether every term of every constraint of a list is valid.
    pub open spec fn constraints_valid(self, constraints: Seq<Seq<Seq<Term>>>) -> bool {
        forall|i: int, j: int, t: int|
            0 <= i < constraints.len() && 0 <= j < constraints[i].len() && 0 <= t
                < constraints[i][j].len() ==> self.term_valid(#[trigger] constraints[i][j][t])
    }

    /// Whether the value vector's length is a machine number and every term is valid.
    pub open spec fn valid(self) -> bool {
        &&& self.value_vec_len() <= usize::MAX
        &&& self.constraints_valid(self.zero_constraints)
        &&& self.constraints_valid(self.and_constraints)
        &&& self.constraints_valid(self.imul_constraints)
        &&& self.constraints_valid(self.bmul_constraints)
    }
}

impl ConstraintSystem {
    /// The number of words of the value vector.
    pub fn value_vec_len(&self) -> (len: usize)
        requires
            self.deep_view().value_vec_len() <= usize::MAX,
        ensures
            len == self.deep_view().value_vec_len(),
    {
        self.constants.len() + self.n_inout + self.n_private
    }

    /// The number of words of the public half.
    pub fn n_public_words(&self, inout: InoutSegment) -> (n: usize)
        requires
            self.deep_view().value_vec_len() <= usize::MAX,
        ensures
            n == self.deep_view().n_public_words(inout),
            n <= self.deep_view().value_vec_len(),
    {
        match inout {
            InoutSegment::Public => self.constants.len() + self.n_inout,
            InoutSegment::Hidden => self.constants.len(),
        }
    }

    /// The place in the value vector of the word that a value index names.
    pub fn word_offset(&self, value_index: ValueIndex) -> (offset: usize)
        requires
            self.deep_view().value_vec_len() <= usize::MAX,
            self.deep_view().in_range(value_index),
        ensures
            offset == self.deep_view().word_offset(value_index),
            offset < self.deep_view().value_vec_len(),
    {
        match value_index {
            ValueIndex::Constant(i) => i as usize,
            ValueIndex::Inout(i) => self.constants.len() + i as usize,
            ValueIndex::Private(i) => self.constants.len() + self.n_inout + i as usize,
            ValueIndex::Scratch(i) => i as usize,
        }
    }
}

} // verus!
