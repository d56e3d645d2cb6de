//! The computation of an assignment from the values of the wires that are given.

use vstd::prelude::*;

use crate::circuit::builder::CircuitBuilder;
use crate::circuit::semantics::{
    constants_hold, gate_asserted, gate_computed, gate_wf,
    graph_asserted, graph_computed, iadd_32, output_place, rotl, truth, val, vals, MSB_ONE,
};
use crate::ir::{GateBody, GateData, Opcode, Wire, WireKind};

verus! {

/// The values of a circuit's wires.
#[derive(Clone, Debug, PartialEq, Eq)]
pub struct WitnessFiller {
    pub values: Vec<u64>,
}

impl View for WitnessFiller {
    type V = Seq<u64>;

    open spec fn view(&self) -> Seq<u64> {
        self.values@
    }
}

impl WitnessFiller {
    /// Gives a wire a value.
    pub fn set(&mut self, wire: Wire, value: u64)
        requires
            wire.index < old(self)@.len(),
        ensures
            final(self)@ == old(self)@.update(wire.index as int, value),
    {
        self.values.set(wire.index, value);
    }

    /// The value of a wire.
    pub fn get(&self, wire: Wire) -> (value: u64)
        requires
            wire.index < self@.len(),
        ensures
            value == val(self@, wire),
    {
        self.values[wire.index]
    }
}

/// An assignment, with words on the first wires of a list, one after the other.
pub open spec fn with_words(w: Seq<u64>, wires: Seq<Wire>, words: Seq<u64>) -> Seq<u64>
    decreases words.len(),
{
    if words.len() == 0 {
        w
    } else {
        with_words(w, wires, words.drop_last()).update(
            wires[words.len() - 1].index as int,
            words.last(),
        )
    }
}

/// The values of wires of which no two are the same, after words were put on them; and those of
/// wires that are not among them.
pub proof fn lemma_with_words(w: Seq<u64>, wires: Seq<Wire>, words: Seq<u64>)
    requires
        words.len() <= wires.len(),
        forall|i: int| 0 <= i < wires.len() ==> (#[trigger] wires[i]).index < w.len(),
        forall|i: int, j: int|
            0 <= i < j < wires.len() ==> (#[trigger] wires[i]).index != (#[trigger] wires[j]).index,
    ensures
        with_words(w, wires, words).len() == w.len(),
        forall|i: int|
            0 <= i < words.len() ==> val(with_words(w, wires, words), #[trigger] wires[i])
                == words[i],
        forall|k: int|
            0 <= k < w.len() && (forall|i: int|
                0 <= i < words.len() ==> (#[trigger] wires[i]).index != k) ==>
                    #[trigger] with_words(
                w,
                wires,
                words,
            )[k] == w[k],
    decreases words.len(),
{
    if words.len() > 0 {
        let n = words.len() - 1;
        let before = words.drop_last();
        lemma_with_words(w, wires, before);
        let v = with_words(w, wires, before);
        let u = with_words(w, wires, words);
        assert forall|i: int| 0 <= i < words.len() implies val(u, #[trigger] wires[i])
            == words[i] by {
            if i < n {
                assert(wires[i].index != wires[n].index);
                assert(val(v, wires[i]) == before[i]);
            }
        }
        assert forall|k: int|
            0 <= k < w.len() && (forall|i: int|
                0 <= i < words.len() ==> (#[trigger] wires[i]).index != k) implies #[trigger] u[k]
            == w[k] by {
            assert(wires[n].index != k);
            assert(v[k] == w[k]);
        }
    }
}

/// An assertion that does not hold, with the paths under which it is reported.
#[derive(Clone, Debug, PartialEq, Eq)]
pub struct AssertionFailed {
    /// The number of the assertion among the gates.
    pub gate: usize,
    /// The path of the subcircuit that it belongs to.
    pub origin: String,
    /// The path of the assertion.
    pub assertion: String,
}

/// A word, rotated to the left.
fn rotate(x: u64, n: u32) -> (r: u64)
    requires
        n < 64,
    ensures
        r == rotl(x, n),
{
    if n == 0 {
        x
    } else {
        (x << n) | (x >> (64 - n))
    }
}

/// The sums of the halves of two words, each without its carry.
fn add_halves(x: u64, y: u64) -> (sum: u64)
    ensures
        sum == iadd_32(x, y),
{
    let low: u64 = (x % 0x1_0000_0000 + y % 0x1_0000_0000) % 0x1_0000_0000;
    let high: u64 = (x / 0x1_0000_0000 + y / 0x1_0000_0000) % 0x1_0000_0000;
    high * 0x1_0000_0000 + low
}

/// A truth value as a word.
fn truth_word(value: bool) -> (word: u64)
    ensures
        truth(word) == value,
{
    if value {
        MSB_ONE
    } else {
        0
    }
}

/// Whether a word is true.
fn is_true(word: u64) -> (value: bool)
    ensures
        value == truth(word),
{
    word >= MSB_ONE
}

/// What a gate computes from the values of its inputs.
fn evaluate_gate(gate: &GateData, values: &Vec<u64>, kinds: Ghost<Seq<WireKind>>) -> (out: Option<
    u64,
>)
    requires
        gate_wf(*gate, kinds@),
        kinds@.len() == values@.len(),
    ensures
        out is Some <==> output_place(gate.body) is Some,
        out matches Some(value) ==> forall|w: Seq<u64>|
            #![trigger gate_computed(*gate, w)]
            w.len() == values@.len() && (forall|i: int|
                0 <= i < output_place(gate.body)->Some_0 ==> val(w, #[trigger] gate.wires@[i])
                    == val(values@, gate.wires@[i])) && val(
                w,
                gate.wires@[output_place(gate.body)->Some_0],
            ) == value ==> gate_computed(*gate, w),
{
    let wires = &gate.wires;
    match gate.body {
        GateBody::Hint(_) => None,
        GateBody::Op(opcode) => match opcode {
            Opcode::Band => {
                assert(wires@[0].index < values@.len() && wires@[1].index < values@.len());
                Some(values[wires[0].index] & values[wires[1].index])
            },
            Opcode::Bxor => {
                assert(wires@[0].index < values@.len() && wires@[1].index < values@.len());
                Some(values[wires[0].index] ^ values[wires[1].index])
            },
            Opcode::Bnot => {
                assert(wires@[0].index < values@.len());
                Some(!values[wires[0].index])
            },
            Opcode::Select => {
                assert(wires@[0].index < values@.len() && wires@[1].index < values@.len()
                    && wires@[2].index < values@.len());
                if is_true(values[wires[0].index]) {
                    Some(values[wires[1].index])
                } else {
                    Some(values[wires[2].index])
                }
            },
            Opcode::Shl => {
                assert(wires@[0].index < values@.len());
                Some(values[wires[0].index] << gate.immediates[0])
            },
            Opcode::Shr => {
                assert(wires@[0].index < values@.len());
                Some(values[wires[0].index] >> gate.immediates[0])
            },
            Opcode::Rotl => {
                assert(wires@[0].index < values@.len());
                Some(rotate(values[wires[0].index], gate.immediates[0]))
            },
            Opcode::Ult => {
                assert(wires@[0].index < values@.len() && wires@[1].index < values@.len());
                Some(truth_word(values[wires[0].index] < values[wires[1].index]))
            },
            Opcode::Ueq => {
                assert(wires@[0].index < values@.len() && wires@[1].index < values@.len());
                Some(truth_word(values[wires[0].index] == values[wires[1].index]))
            },
            Opcode::Iadd32 => {
                assert(wires@[0].index < values@.len() && wires@[1].index < values@.len());
                Some(add_halves(values[wires[0].index], values[wires[1].index]))
            },
            Opcode::AssertFalse | Opcode::AssertEq | Opcode::AssertEqCond => None,
        },
    }
}

/// Whether what a gate asserts holds.
fn check_gate(gate: &GateData, values: &Vec<u64>, kinds: Ghost<Seq<WireKind>>) -> (holds: bool)
    requires
        gate_wf(*gate, kinds@),
        kinds@.len() == values@.len(),
    ensures
        holds == gate_asserted(*gate, values@),
{
    let wires = &gate.wires;
    match gate.body {
        GateBody::Hint(_) => true,
        GateBody::Op(opcode) => match opcode {
            Opcode::AssertFalse => {
                assert(wires@[0].index < values@.len());
                !is_true(values[wires[0].index])
            },
            Opcode::AssertEq => {
                assert(wires@[0].index < values@.len() && wires@[1].index < values@.len());
                values[wires[0].index] == values[wires[1].index]
            },
            Opcode::AssertEqCond => {
                assert(wires@[0].index < values@.len() && wires@[1].index < values@.len()
                    && wires@[2].index < values@.len());
                !is_true(values[wires[2].index]) || values[wires[0].index]
                    == values[wires[1].index]
            },
            _ => true,
        },
    }
}

/// A gate is computed under two assignments alike where they agree on its wires.
proof fn lemma_computed_alike(gate: GateData, v: Seq<u64>, w: Seq<u64>)
    requires
        gate_computed(gate, v),
        forall|i: int|
            0 <= i < gate.wires@.len() ==> val(v, #[trigger] gate.wires@[i]) == val(
                w,
                gate.wires@[i],
            ),
    ensures
        gate_computed(gate, w),
{
    assert(vals(v, gate.wires@) =~= vals(w, gate.wires@));
}

/// Whether the first `n` gates of a circuit are computed.
spec fn gates_computed(b: CircuitBuilder, w: Seq<u64>, n: int) -> bool {
    forall|g: int| 0 <= g < n ==> gate_computed((#[trigger] b.graph.gates@[g]).data, w)
}

/// Giving a gate's output its value leaves the gates before it computed.
proof fn lemma_next_gate(b: CircuitBuilder, v: Seq<u64>, n: int, place: int, value: u64)
    requires
        b.wf(),
        0 <= n < b.graph.gates@.len(),
        v.len() == b.n_wires(),
        gates_computed(b, v, n),
        output_place(b.graph.gates@[n].data.body) == Some(place),
    ensures
        gates_computed(b, v.update(b.graph.gates@[n].data.wires@[place].index as int, value), n),
{
    let out = b.graph.gates@[n].data.wires@[place].index as int;
    let w = v.update(out, value);
    assert(gate_wf(b.graph.gates@[n].data, b.graph.wires@));
    assert forall|g: int| 0 <= g < n implies gate_computed((#[trigger] b.graph.gates@[g]).data,
        w) by {
        let gate = b.graph.gates@[g].data;
        assert(gate_wf(gate, b.graph.wires@));
        match output_place(gate.body) {
            Some(p) => {
                assert(gate.wires@[p].index < out);
                assert forall|i: int| 0 <= i < gate.wires@.len() implies val(
                    v,
                    #[trigger] gate.wires@[i],
                ) == val(w, gate.wires@[i]) by {
                    if i < p {
                        assert(gate.wires@[i].index < gate.wires@[p].index);
                    }
                }
                lemma_computed_alike(gate, v, w);
            },
            None => {},
        }
    }
}

impl CircuitBuilder {
    /// Whether a wire has the value that it is given.
    pub open spec fn is_given(&self, wire: Wire) -> bool {
        &&& self.has(wire)
        &&& self.graph.wires@[wire.index as int] is Inout
            || self.graph.wires@[wire.index as int] is Witness
    }

    /// Whether an assignment follows this circuit and keeps what the wires of the public interface
    /// and of the witness were given.
    pub open spec fn fills(&self, given: Seq<u64>, w: Seq<u64>) -> bool {
        &&& w.len() == self.n_wires()
        &&& self.computed(w)
        &&& forall|wire: Wire| #[trigger] self.is_given(wire) ==> val(w, wire) == val(given, wire)
    }

    /// An assignment of zeros.
    pub fn new_witness_filler(&self) -> (filler: WitnessFiller)
        ensures
            filler@ == Seq::new(self.n_wires(), |i: int| 0u64),
    {
        let mut values: Vec<u64> = Vec::new();
        values.resize(self.graph.wires.len(), 0);
        assert(values@ =~= Seq::new(self.n_wires(), |i: int| 0u64));
        WitnessFiller { values }
    }

    /// Gives every constant its value.
    fn fill_constants(&self, filler: &mut WitnessFiller)
        requires
            old(filler)@.len() == self.n_wires(),
        ensures
            final(filler)@.len() == self.n_wires(),
            constants_hold(self.graph.wires@, final(filler)@),
            forall|i: int|
                0 <= i < self.n_wires() && !(self.graph.wires@[i] is Constant)
                    ==> #[trigger] final(filler)@[i] == old(filler)@[i],
    {
        let mut i: usize = 0;
        while i < self.graph.wires.len()
            invariant
                i <= self.graph.wires@.len(),
                filler@.len() == self.n_wires(),
                forall|j: int|
                    0 <= j < i ==> (#[trigger] self.graph.wires@[j] matches WireKind::Constant(word)
                        ==> filler@[j] == word),
                forall|j: int|
                    0 <= j < self.n_wires() && !(self.graph.wires@[j] is Constant)
                        ==> #[trigger] filler@[j] == old(filler)@[j],
            decreases self.graph.wires@.len() - i,
        {
            match self.graph.wires[i] {
                WireKind::Constant(word) => {
                    filler.set(Wire { index: i }, word);
                },
                _ => {},
            }
            i += 1;
        }
    }

    /// Gives the output of every gate what it computes.
    fn fill_outputs(&self, filler: &mut WitnessFiller)
        requires
            self.wf(),
            old(filler)@.len() == self.n_wires(),
            constants_hold(self.graph.wires@, old(filler)@),
        ensures
            final(filler)@.len() == self.n_wires(),
            self.computed(final(filler)@),
            forall|i: int|
                0 <= i < self.n_wires() && !(self.graph.wires@[i] is Internal)
                    ==> #[trigger] final(filler)@[i] == old(filler)@[i],
            forall|i: int|
                0 <= i < self.n_wires() && (forall|g: int|
                    0 <= g < self.graph.gates@.len() ==> (output_place(
                        (#[trigger] self.graph.gates@[g]).data.body,
                    ) matches Some(p) ==> self.graph.gates@[g].data.wires@[p].index != i))
                    ==> #[trigger] final(filler)@[i] == old(filler)@[i],
    {
        let mut g: usize = 0;
        while g < self.graph.gates.len()
            invariant
                g <= self.graph.gates@.len(),
                self.wf(),
                filler@.len() == self.n_wires(),
                constants_hold(self.graph.wires@, filler@),
                gates_computed(*self, filler@, g as int),
                forall|i: int|
                    0 <= i < self.n_wires() && !(self.graph.wires@[i] is Internal)
                        ==> #[trigger] filler@[i] == old(filler)@[i],
                forall|i: int|
                    0 <= i < self.n_wires() && (forall|h: int|
                        0 <= h < self.graph.gates@.len() ==> (output_place(
                            (#[trigger] self.graph.gates@[h]).data.body,
                        ) matches Some(p) ==> self.graph.gates@[h].data.wires@[p].index != i))
                        ==> #[trigger] filler@[i] == old(filler)@[i],
            decreases self.graph.gates@.len() - g,
        {
            let gate = &self.graph.gates[g].data;
            assert(gate_wf(*gate, self.graph.wires@));
            let ghost before = filler@;
            match evaluate_gate(gate, &filler.values, Ghost(self.graph.wires@)) {
                Some(value) => {
                    let ghost place = output_place(gate.body)->Some_0;
                    let at: usize = gate.wires.len() - 1;
                    assert(place == at);
                    let out: Wire = gate.wires[at];
                    filler.set(out, value);
                    proof {
                        lemma_next_gate(*self, before, g as int, place, value);
                        assert(self.graph.wires@[out.index as int] is Internal);
                        assert forall|i: int| 0 <= i < place implies val(
                            filler@,
                            #[trigger] gate.wires@[i],
                        ) == val(before, gate.wires@[i]) by {
                            assert(gate.wires@[i].index < out.index);
                        }
                        assert(gate_computed(*gate, filler@));
                    }
                },
                None => {},
            }
            g += 1;
        }
        proof {
            reveal(graph_computed);
        }
    }

    /// Computes every wire from those that are given, and checks what the circuit asserts. The
    /// wires of the public interface and of the witness keep their values, and so does every other
    /// wire that is no constant and no output of an operation; the first assertion that does not
    /// hold is reported.
    pub fn populate_wire_witness(&self, filler: &mut WitnessFiller) -> (result: Result<
        (),
        AssertionFailed,
    >)
        requires
            self.wf(),
            old(filler)@.len() == self.n_wires(),
        ensures
            self.fills(old(filler)@, final(filler)@),
            forall|i: int|
                0 <= i < self.n_wires() && !(self.graph.wires@[i] is Constant) && (forall|g: int|
                    0 <= g < self.graph.gates@.len() ==> (output_place(
                        (#[trigger] self.graph.gates@[g]).data.body,
                    ) matches Some(p) ==> self.graph.gates@[g].data.wires@[p].index != i))
                    ==> #[trigger] final(filler)@[i] == old(filler)@[i],
            result is Ok <==> self.asserted(final(filler)@),
            result matches Err(e) ==> {
                &&& e.gate < self.graph.gates@.len()
                &&& !gate_asserted(self.graph.gates@[e.gate as int].data, final(filler)@)
                &&& forall|g: int|
                    0 <= g < e.gate ==> gate_asserted(
                        (#[trigger] self.graph.gates@[g]).data,
                        final(filler)@,
                    )
                &&& e.origin@ == self.names@[self.graph.gates@[e.gate as int].origin as int]@
                &&& e.assertion@
                    == self.names@[self.graph.gates@[e.gate as int].assertion_name as int]@
            },
    {
        self.fill_constants(filler);
        self.fill_outputs(filler);
        proof {
            reveal(graph_asserted);
        }
        let mut g: usize = 0;
        while g < self.graph.gates.len()
            invariant
                g <= self.graph.gates@.len(),
                self.wf(),
                filler@.len() == self.n_wires(),
                self.computed(filler@),
                forall|i: int|
                    0 <= i < self.n_wires() && (self.graph.wires@[i] is Inout
                        || self.graph.wires@[i] is Witness) ==> #[trigger] filler@[i] == old(
                        filler,
                    )@[i],
                forall|i: int|
                    0 <= i < self.n_wires() && !(self.graph.wires@[i] is Constant) && (forall|
                        h: int,
                    |
                        0 <= h < self.graph.gates@.len() ==> (output_place(
                            (#[trigger] self.graph.gates@[h]).data.body,
                        ) matches Some(p) ==> self.graph.gates@[h].data.wires@[p].index != i))
                        ==> #[trigger] filler@[i] == old(filler)@[i],
                forall|h: int|
                    0 <= h < g ==> gate_asserted((#[trigger] self.graph.gates@[h]).data, filler@),
            decreases self.graph.gates@.len() - g,
        {
            let gate = &self.graph.gates[g];
            assert(gate_wf(gate.data, self.graph.wires@));
            if !check_gate(&gate.data, &filler.values, Ghost(self.graph.wires@)) {
                proof {
                    reveal(graph_asserted);
                    assert(self.graph.gates@[g as int] == gate);
                }
                return Err(
                    AssertionFailed {
                        gate: g,
                        origin: self.names[gate.origin].as_str().to_owned(),
                        assertion: self.names[gate.assertion_name].as_str().to_owned(),
                    },
                );
            }
            g += 1;
        }
        Ok(())
    }
}

} // verus!
