//! The construction of circuits.

use vstd::prelude::*;

use crate::circuit::semantics::{
    arity_ok, asserts, body_asserted, body_computed, gate_asserted, gate_computed, gate_wf,
    graph_asserted, graph_computed, graph_wf, iadd_32, output_place, rotl, truth, val, vals,
};
use crate::ir::{Gate, GateBody, GateData, GateGraph, Opcode, Wire, WireKind};

verus! {

/// A circuit under construction. What it asserts is reported under the path of the assertion.
pub struct CircuitBuilder {
    pub graph: GateGraph,
    /// The paths of subcircuits and assertions. They are no part of the graph.
    pub names: Vec<String>,
    /// The number of the path of the current subcircuit.
    pub origin: usize,
}

impl CircuitBuilder {
    /// The number of wires.
    pub open spec fn n_wires(&self) -> nat {
        self.graph.wires@.len()
    }

    /// Whether a wire is one of this circuit.
    pub open spec fn has(&self, wire: Wire) -> bool {
        wire.index < self.n_wires()
    }

    /// Whether all wires of a list are wires of this circuit.
    pub open spec fn has_all(&self, wires: Seq<Wire>) -> bool {
        forall|i: int| 0 <= i < wires.len() ==> self.has(#[trigger] wires[i])
    }

    /// Whether an assignment follows the gates of this circuit.
    pub open spec fn computed(&self, w: Seq<u64>) -> bool {
        graph_computed(self.graph, w)
    }

    /// Whether everything that this circuit asserts holds under an assignment.
    pub open spec fn asserted(&self, w: Seq<u64>) -> bool {
        graph_asserted(self.graph, w)
    }

    /// Whether every gate has the wires it takes, and its output comes after what it is computed
    /// from and after the outputs of the gates before it.
    pub open spec fn wf(&self) -> bool {
        graph_wf(self.graph) && self.names_wf()
    }

    /// Whether every gate's paths are among the names.
    pub open spec fn names_wf(&self) -> bool {
        &&& self.origin < self.names@.len()
        &&& forall|g: int|
            0 <= g < self.graph.gates@.len() ==> (#[trigger] self.graph.gates@[g]).origin
                < self.names@.len() && self.graph.gates@[g].assertion_name < self.names@.len()
    }

    /// The number of gates.
    pub open spec fn n_gates(&self) -> nat {
        self.graph.gates@.len()
    }

    /// The path under which a gate is reported where it asserts something.
    pub open spec fn path(&self, g: int) -> Seq<char> {
        self.names@[self.graph.gates@[g].assertion_name as int]@
    }

    /// Whether this circuit is another one with more wires and gates, and the names for them: an
    /// assignment that follows it follows the other. What was added is reported under the
    /// subcircuit that is current in both.
    pub open spec fn extends(&self, before: CircuitBuilder) -> bool {
        &&& self.wf()
        &&& before.n_wires() <= self.n_wires()
        &&& forall|i: int|
            0 <= i < before.n_wires() ==> #[trigger] self.graph.wires@[i] == before.graph.wires@[i]
        &&& forall|w: Seq<u64>| #[trigger] self.computed(w) ==> before.computed(w)
        &&& self.origin == before.origin
        &&& before.names@.len() <= self.names@.len()
        &&& forall|i: int|
            0 <= i < before.names@.len() ==> #[trigger] self.names@[i] == before.names@[i]
        &&& before.n_gates() <= self.n_gates()
        &&& forall|g: int|
            0 <= g < before.n_gates() ==> #[trigger] self.graph.gates@[g] == before.graph.gates@[g]
        &&& forall|g: int|
            before.n_gates() <= g < self.n_gates() ==> (#[trigger] self.graph.gates@[g]).origin
                == before.origin
    }

    /// Whether this circuit has the gates of another one and, behind them, one gate more: reported
    /// under the subcircuit that was current, and under the path with a number.
    pub open spec fn adds_gate(
        &self,
        before: CircuitBuilder,
        assertion_name: usize,
        body: GateBody,
        wires: Seq<Wire>,
        immediates: Seq<u32>,
        dimensions: Seq<usize>,
    ) -> bool {
        let gate = self.graph.gates@.last();
        &&& self.graph.gates@ == before.graph.gates@.push(gate)
        &&& gate.origin == before.origin
        &&& gate.assertion_name == assertion_name
        &&& gate.data.body == body
        &&& gate.data.wires@ == wires
        &&& gate.data.immediates@ == immediates
        &&& gate.data.dimensions@ == dimensions
    }

    /// Whether none of the gates that were added to a circuit asserts anything: it asserts what it
    /// did before.
    pub open spec fn only_computes(&self, before: CircuitBuilder) -> bool {
        &&& forall|g: int|
            before.n_gates() <= g < self.n_gates() ==> !asserts(
                (#[trigger] self.graph.gates@[g]).data.body,
            )
        &&& forall|w: Seq<u64>| #[trigger] self.asserted(w) <==> before.asserted(w)
    }

    /// Whether what was added to a circuit holds under an assignment, as far as it is reported
    /// under a path.
    #[verifier::opaque]
    pub open spec fn adds_under(
        &self,
        before: CircuitBuilder,
        path: Seq<char>,
        w: Seq<u64>,
    ) -> bool {
        forall|g: int|
            before.n_gates() <= g < self.n_gates() && self.path(g) == path ==> gate_asserted(
                (#[trigger] self.graph.gates@[g]).data,
                w,
            )
    }

    /// Whether what was added to a circuit holds under an assignment.
    pub open spec fn adds(&self, before: CircuitBuilder, w: Seq<u64>) -> bool {
        forall|path: Seq<char>| #[trigger] self.adds_under(before, path, w)
    }
}

/// Whether two wires are equal where a condition is true.
pub open spec fn equal_where(w: Seq<u64>, x: Wire, y: Wire, cond: Wire) -> bool {
    truth(val(w, cond)) ==> val(w, x) == val(w, y)
}

/// What was added in two steps holds where both steps hold.
pub proof fn lemma_adds(
    b: CircuitBuilder,
    middle: CircuitBuilder,
    before: CircuitBuilder,
    path: Seq<char>,
    w: Seq<u64>,
)
    requires
        b.extends(middle),
        middle.extends(before),
    ensures
        b.adds_under(before, path, w) <==> middle.adds_under(before, path, w) && b.adds_under(
            middle,
            path,
            w,
        ),
{
    reveal(CircuitBuilder::adds_under);
    assert forall|g: int| 0 <= g < middle.n_gates() implies #[trigger] middle.graph.gates@[g]
        == b.graph.gates@[g] && middle.path(g) == b.path(g) by {
        assert(b.graph.gates@[g] == middle.graph.gates@[g]);
        let name = middle.graph.gates@[g].assertion_name as int;
        assert(b.names@[name] == middle.names@[name]);
    }
}

/// What only computes asserts nothing.
pub proof fn lemma_only_computes(
    b: CircuitBuilder,
    before: CircuitBuilder,
    path: Seq<char>,
    w: Seq<u64>,
)
    requires
        b.only_computes(before),
    ensures
        b.adds_under(before, path, w),
{
    reveal(CircuitBuilder::adds_under);
}

/// Gates that are no assertions leave it as it was what is asserted.
proof fn lemma_nothing_asserted(b: CircuitBuilder, before: CircuitBuilder, w: Seq<u64>)
    requires
        b.extends(before),
        forall|g: int|
            before.n_gates() <= g < b.n_gates() ==> !asserts(
                (#[trigger] b.graph.gates@[g]).data.body,
            ),
    ensures
        b.asserted(w) <==> before.asserted(w),
{
    lemma_asserted(b, before, w);
    assert forall|path: Seq<char>| #[trigger] b.adds_under(before, path, w) by {
        reveal(CircuitBuilder::adds_under);
    }
}

/// A circuit's assertions hold where those hold that it had before, and those that were added.
pub proof fn lemma_asserted(b: CircuitBuilder, before: CircuitBuilder, w: Seq<u64>)
    requires
        b.extends(before),
    ensures
        b.asserted(w) <==> before.asserted(w) && b.adds(before, w),
{
    reveal(CircuitBuilder::adds_under);
    reveal(graph_asserted);
    if b.asserted(w) {
        assert forall|g: int| 0 <= g < before.n_gates() implies gate_asserted(
            (#[trigger] before.graph.gates@[g]).data,
            w,
        ) by {
            assert(b.graph.gates@[g] == before.graph.gates@[g]);
        }
    }
    if before.asserted(w) && b.adds(before, w) {
        assert forall|g: int| 0 <= g < b.n_gates() implies gate_asserted(
            (#[trigger] b.graph.gates@[g]).data,
            w,
        ) by {
            if g >= before.n_gates() {
                assert(b.adds_under(before, b.path(g), w));
            } else {
                assert(b.graph.gates@[g] == before.graph.gates@[g]);
            }
        }
    }
}

impl CircuitBuilder {
    /// A circuit without wires.
    pub fn new() -> (b: Self)
        ensures
            b.wf(),
            b.n_wires() == 0,
            b.n_gates() == 0,
            forall|w: Seq<u64>| #[trigger] b.computed(w),
            forall|w: Seq<u64>| #[trigger] b.asserted(w),
    {
        proof {
            reveal(graph_computed);
            reveal(graph_asserted);
        }
        let mut names: Vec<String> = Vec::new();
        names.push("".to_owned());
        CircuitBuilder {
            graph: GateGraph { wires: Vec::new(), gates: Vec::new() },
            names,
            origin: 0,
        }
    }

    /// Adds a wire that no gate is about.
    fn add_wire(&mut self, kind: WireKind) -> (wire: Wire)
        requires
            old(self).wf(),
        ensures
            final(self).extends(*old(self)),
            wire.index == old(self).n_wires(),
            final(self).graph.wires@ == old(self).graph.wires@.push(kind),
            final(self).graph.gates@ == old(self).graph.gates@,
            final(self).names@ == old(self).names@,
            final(self).only_computes(*old(self)),
            forall|w: Seq<u64>| #[trigger]
                final(self).computed(w) ==> (kind matches WireKind::Constant(word) ==> val(w, wire)
                    == word),
    {
        let index: usize = self.graph.wires.len();
        self.graph.wires.push(kind);
        proof {
            reveal(graph_computed);
            reveal(graph_asserted);
            let before = old(self).graph;
            let after = self.graph;
            assert forall|w: Seq<u64>| #[trigger] self.computed(w) implies old(self).computed(w) && (
            kind matches WireKind::Constant(word) ==> w[index as int] == word) by {
                assert forall|i: int| 0 <= i < before.wires@.len() implies (
                #[trigger] before.wires@[i] matches WireKind::Constant(word) ==> w[i] == word) by {
                    assert(after.wires@[i] == before.wires@[i]);
                }
                assert(after.wires@[index as int] == kind);
            }
        }
        Wire { index }
    }

    /// Adds a gate on wires of this circuit.
    fn add_gate(
        &mut self,
        opcode: Opcode,
        wires: Vec<Wire>,
        immediates: Vec<u32>,
        assertion_name: usize,
    )
        requires
            old(self).wf(),
            assertion_name < old(self).names@.len(),
            arity_ok(GateBody::Op(opcode), wires@.len(), immediates@),
            old(self).has_all(wires@),
            output_place(GateBody::Op(opcode)) matches Some(place)
                ==> old(self).graph.wires@[wires@[place].index as int] is Internal && (forall|
                i: int,
            |
                0 <= i < place ==> (#[trigger] wires@[i]).index < wires@[place].index) && forall|
                g: int,
            |
                0 <= g < old(self).graph.gates@.len() ==> (output_place(
                    (#[trigger] old(self).graph.gates@[g]).data.body,
                ) matches Some(p) ==> old(self).graph.gates@[g].data.wires@[p].index
                    < wires@[place].index),
        ensures
            final(self).wf(),
            final(self).graph.wires@ == old(self).graph.wires@,
            final(self).names@ == old(self).names@,
            final(self).origin == old(self).origin,
            final(self).adds_gate(
                *old(self),
                assertion_name,
                GateBody::Op(opcode),
                wires@,
                immediates@,
                Seq::empty(),
            ),
            forall|w: Seq<u64>| #[trigger]
                final(self).computed(w) <==> old(self).computed(w) && body_computed(
                    GateBody::Op(opcode),
                    vals(w, wires@),
                    immediates@,
                ),
    {
        let gate = Gate {
            origin: self.origin,
            assertion_name,
            data: GateData { body: GateBody::Op(opcode), wires, immediates, dimensions: Vec::new() },
        };
        self.graph.gates.push(gate);
        proof {
            reveal(graph_computed);
            let before = old(self).graph.gates@;
            let after = self.graph.gates@;
            let n = before.len() as int;
            assert(after[n] == gate);
            assert forall|w: Seq<u64>| #[trigger] self.computed(w) implies old(
                self,
            ).computed(w) by {
                assert forall|g: int| 0 <= g < n implies gate_computed(
                    (#[trigger] before[g]).data,
                    w,
                ) by {
                    assert(after[g] == before[g]);
                }
            }
            assert forall|g: int| 0 <= g < after.len() implies gate_wf(
                (#[trigger] after[g]).data,
                self.graph.wires@,
            ) by {
                if g < n {
                    assert(after[g] == before[g]);
                }
            }
        }
    }

    /// Adds a gate and the wire of its output.
    fn compute(&mut self, opcode: Opcode, inputs: Vec<Wire>, immediates: Vec<u32>) -> (out: Wire)
        requires
            old(self).wf(),
            old(self).has_all(inputs@),
            output_place(GateBody::Op(opcode)) == Some(inputs@.len() as int),
            arity_ok(GateBody::Op(opcode), inputs@.len() + 1, immediates@),
        ensures
            final(self).extends(*old(self)),
            out.index == old(self).n_wires(),
            final(self).n_wires() == old(self).n_wires() + 1,
            forall|w: Seq<u64>| #[trigger]
                final(self).computed(w) ==> body_computed(
                    GateBody::Op(opcode),
                    vals(w, inputs@.push(out)),
                    immediates@,
                ),
            final(self).adds_gate(
                *old(self),
                0,
                GateBody::Op(opcode),
                inputs@.push(out),
                immediates@,
                Seq::empty(),
            ),
            final(self).only_computes(*old(self)),
    {
        let out = self.add_wire(WireKind::Internal);
        let mut wires = inputs;
        wires.push(out);
        let ghost middle = *self;
        proof {
            assert forall|g: int| 0 <= g < middle.graph.gates@.len() implies (output_place(
                (#[trigger] middle.graph.gates@[g]).data.body,
            ) matches Some(p) ==> middle.graph.gates@[g].data.wires@[p].index < out.index) by {
                assert(gate_wf(old(self).graph.gates@[g].data, old(self).graph.wires@));
            }
        }
        self.add_gate(opcode, wires, immediates, 0);
        proof {
            assert forall|w: Seq<u64>| #[trigger] self.computed(w) implies old(
                self,
            ).computed(w) by {
                assert(middle.computed(w));
            }
            assert forall|w: Seq<u64>| #[trigger] self.asserted(w) <==> old(self).asserted(w) by {
                lemma_nothing_asserted(*self, *old(self), w);
            }
        }
        out
    }
}

impl CircuitBuilder {
    /// Adds a wire with a fixed value.
    pub fn add_constant(&mut self, word: u64) -> (wire: Wire)
        requires
            old(self).wf(),
        ensures
            final(self).extends(*old(self)),
            wire.index == old(self).n_wires(),
            final(self).graph.wires@ == old(self).graph.wires@.push(WireKind::Constant(word)),
            forall|w: Seq<u64>| #[trigger] final(self).computed(w) ==> val(w, wire) == word,
            final(self).graph.gates@ == old(self).graph.gates@,
            final(self).names@ == old(self).names@,
            final(self).only_computes(*old(self)),
    {
        self.add_wire(WireKind::Constant(word))
    }

    /// Adds a wire of the public interface.
    pub fn add_inout(&mut self) -> (wire: Wire)
        requires
            old(self).wf(),
        ensures
            final(self).extends(*old(self)),
            wire.index == old(self).n_wires(),
            final(self).graph.wires@ == old(self).graph.wires@.push(WireKind::Inout),
            final(self).graph.gates@ == old(self).graph.gates@,
            final(self).names@ == old(self).names@,
            final(self).only_computes(*old(self)),
    {
        self.add_wire(WireKind::Inout)
    }

    /// Adds a wire whose value the prover gives.
    pub fn add_witness(&mut self) -> (wire: Wire)
        requires
            old(self).wf(),
        ensures
            final(self).extends(*old(self)),
            wire.index == old(self).n_wires(),
            final(self).graph.wires@ == old(self).graph.wires@.push(WireKind::Witness),
            final(self).graph.gates@ == old(self).graph.gates@,
            final(self).names@ == old(self).names@,
            final(self).only_computes(*old(self)),
    {
        self.add_wire(WireKind::Witness)
    }

    /// The bitwise and of two wires.
    pub fn band(&mut self, x: Wire, y: Wire) -> (out: Wire)
        requires
            old(self).wf(),
            old(self).has(x),
            old(self).has(y),
        ensures
            final(self).extends(*old(self)),
            final(self).has(out),
            forall|w: Seq<u64>| #[trigger]
                final(self).computed(w) ==> val(w, out) == val(w, x) & val(w, y),
            final(self).adds_gate(
                *old(self),
                0,
                GateBody::Op(Opcode::Band),
                seq![x, y, out],
                Seq::empty(),
                Seq::empty(),
            ),
            final(self).only_computes(*old(self)),
    {
        let inputs: Vec<Wire> = vec![x, y];
        let out = self.compute(Opcode::Band, inputs, Vec::new());
        assert(inputs@.push(out) =~= seq![x, y, out]);
        proof {
            assert forall|w: Seq<u64>| #[trigger] self.computed(w) implies val(w, out)
                == val(w, x) & val(w, y) by {
                let v = vals(w, inputs@.push(out));
                assert(v[0] == val(w, x) && v[1] == val(w, y) && v[2] == val(w, out));
            }
        }
        out
    }

    /// The exclusive or of two wires.
    pub fn bxor(&mut self, x: Wire, y: Wire) -> (out: Wire)
        requires
            old(self).wf(),
            old(self).has(x),
            old(self).has(y),
        ensures
            final(self).extends(*old(self)),
            final(self).has(out),
            forall|w: Seq<u64>| #[trigger]
                final(self).computed(w) ==> val(w, out) == val(w, x) ^ val(w, y),
            final(self).adds_gate(
                *old(self),
                0,
                GateBody::Op(Opcode::Bxor),
                seq![x, y, out],
                Seq::empty(),
                Seq::empty(),
            ),
            final(self).only_computes(*old(self)),
    {
        let inputs: Vec<Wire> = vec![x, y];
        let out = self.compute(Opcode::Bxor, inputs, Vec::new());
        assert(inputs@.push(out) =~= seq![x, y, out]);
        proof {
            assert forall|w: Seq<u64>| #[trigger] self.computed(w) implies val(w, out)
                == val(w, x) ^ val(w, y) by {
                let v = vals(w, inputs@.push(out));
                assert(v[0] == val(w, x) && v[1] == val(w, y) && v[2] == val(w, out));
            }
        }
        out
    }

    /// Whether one wire is below another, as numbers.
    pub fn ult(&mut self, x: Wire, y: Wire) -> (out: Wire)
        requires
            old(self).wf(),
            old(self).has(x),
            old(self).has(y),
        ensures
            final(self).extends(*old(self)),
            final(self).has(out),
            forall|w: Seq<u64>| #[trigger]
                final(self).computed(w) ==> truth(val(w, out)) == (val(w, x) < val(w, y)),
            final(self).adds_gate(
                *old(self),
                0,
                GateBody::Op(Opcode::Ult),
                seq![x, y, out],
                Seq::empty(),
                Seq::empty(),
            ),
            final(self).only_computes(*old(self)),
    {
        let inputs: Vec<Wire> = vec![x, y];
        let out = self.compute(Opcode::Ult, inputs, Vec::new());
        assert(inputs@.push(out) =~= seq![x, y, out]);
        proof {
            assert forall|w: Seq<u64>| #[trigger] self.computed(w) implies truth(val(w, out))
                == (val(w, x) < val(w, y)) by {
                let v = vals(w, inputs@.push(out));
                assert(v[0] == val(w, x) && v[1] == val(w, y) && v[2] == val(w, out));
            }
        }
        out
    }

    /// Whether two wires are equal.
    pub fn ueq(&mut self, x: Wire, y: Wire) -> (out: Wire)
        requires
            old(self).wf(),
            old(self).has(x),
            old(self).has(y),
        ensures
            final(self).extends(*old(self)),
            final(self).has(out),
            forall|w: Seq<u64>| #[trigger]
                final(self).computed(w) ==> truth(val(w, out)) == (val(w, x) == val(w, y)),
            final(self).adds_gate(
                *old(self),
                0,
                GateBody::Op(Opcode::Ueq),
                seq![x, y, out],
                Seq::empty(),
                Seq::empty(),
            ),
            final(self).only_computes(*old(self)),
    {
        let inputs: Vec<Wire> = vec![x, y];
        let out = self.compute(Opcode::Ueq, inputs, Vec::new());
        assert(inputs@.push(out) =~= seq![x, y, out]);
        proof {
            assert forall|w: Seq<u64>| #[trigger] self.computed(w) implies truth(val(w, out))
                == (val(w, x) == val(w, y)) by {
                let v = vals(w, inputs@.push(out));
                assert(v[0] == val(w, x) && v[1] == val(w, y) && v[2] == val(w, out));
            }
        }
        out
    }

    /// The sums of the halves of two wires, each without its carry.
    pub fn iadd_32(&mut self, x: Wire, y: Wire) -> (out: Wire)
        requires
            old(self).wf(),
            old(self).has(x),
            old(self).has(y),
        ensures
            final(self).extends(*old(self)),
            final(self).has(out),
            forall|w: Seq<u64>| #[trigger]
                final(self).computed(w) ==> val(w, out) == iadd_32(val(w, x), val(w, y)),
            final(self).adds_gate(
                *old(self),
                0,
                GateBody::Op(Opcode::Iadd32),
                seq![x, y, out],
                Seq::empty(),
                Seq::empty(),
            ),
            final(self).only_computes(*old(self)),
    {
        let inputs: Vec<Wire> = vec![x, y];
        let out = self.compute(Opcode::Iadd32, inputs, Vec::new());
        assert(inputs@.push(out) =~= seq![x, y, out]);
        proof {
            assert forall|w: Seq<u64>| #[trigger] self.computed(w) implies val(w, out)
                == iadd_32(val(w, x), val(w, y)) by {
                let v = vals(w, inputs@.push(out));
                assert(v[0] == val(w, x) && v[1] == val(w, y) && v[2] == val(w, out));
            }
        }
        out
    }

    /// A wire, shifted to the left.
    pub fn shl(&mut self, x: Wire, n: u32) -> (out: Wire)
        requires
            old(self).wf(),
            old(self).has(x),
            n < 64,
        ensures
            final(self).extends(*old(self)),
            final(self).has(out),
            forall|w: Seq<u64>| #[trigger] final(self).computed(w) ==> val(w, out) == val(w, x) << n,
            final(self).adds_gate(
                *old(self),
                0,
                GateBody::Op(Opcode::Shl),
                seq![x, out],
                seq![n],
                Seq::empty(),
            ),
            final(self).only_computes(*old(self)),
    {
        let inputs: Vec<Wire> = vec![x];
        let immediates: Vec<u32> = vec![n];
        let out = self.compute(Opcode::Shl, inputs, immediates);
        assert(inputs@.push(out) =~= seq![x, out]);
        assert(immediates@ =~= seq![n]);
        proof {
            assert forall|w: Seq<u64>| #[trigger] self.computed(w) implies val(w, out)
                == val(w, x) << n by {
                let v = vals(w, inputs@.push(out));
                assert(v[0] == val(w, x) && v[1] == val(w, out));
            }
        }
        out
    }

    /// A wire, shifted to the right.
    pub fn shr(&mut self, x: Wire, n: u32) -> (out: Wire)
        requires
            old(self).wf(),
            old(self).has(x),
            n < 64,
        ensures
            final(self).extends(*old(self)),
            final(self).has(out),
            forall|w: Seq<u64>| #[trigger] final(self).computed(w) ==> val(w, out) == val(w, x) >> n,
            final(self).adds_gate(
                *old(self),
                0,
                GateBody::Op(Opcode::Shr),
                seq![x, out],
                seq![n],
                Seq::empty(),
            ),
            final(self).only_computes(*old(self)),
    {
        let inputs: Vec<Wire> = vec![x];
        let immediates: Vec<u32> = vec![n];
        let out = self.compute(Opcode::Shr, inputs, immediates);
        assert(inputs@.push(out) =~= seq![x, out]);
        assert(immediates@ =~= seq![n]);
        proof {
            assert forall|w: Seq<u64>| #[trigger] self.computed(w) implies val(w, out)
                == val(w, x) >> n by {
                let v = vals(w, inputs@.push(out));
                assert(v[0] == val(w, x) && v[1] == val(w, out));
            }
        }
        out
    }

    /// A wire, rotated to the left.
    pub fn rotl(&mut self, x: Wire, n: u32) -> (out: Wire)
        requires
            old(self).wf(),
            old(self).has(x),
            n < 64,
        ensures
            final(self).extends(*old(self)),
            final(self).has(out),
            forall|w: Seq<u64>| #[trigger] final(self).computed(w) ==> val(w, out) == rotl(val(w, x), n),
            final(self).adds_gate(
                *old(self),
                0,
                GateBody::Op(Opcode::Rotl),
                seq![x, out],
                seq![n],
                Seq::empty(),
            ),
            final(self).only_computes(*old(self)),
    {
        let inputs: Vec<Wire> = vec![x];
        let immediates: Vec<u32> = vec![n];
        let out = self.compute(Opcode::Rotl, inputs, immediates);
        assert(inputs@.push(out) =~= seq![x, out]);
        assert(immediates@ =~= seq![n]);
        proof {
            assert forall|w: Seq<u64>| #[trigger] self.computed(w) implies val(w, out)
                == rotl(val(w, x), n) by {
                let v = vals(w, inputs@.push(out));
                assert(v[0] == val(w, x) && v[1] == val(w, out));
            }
        }
        out
    }

    /// The complement of a wire.
    pub fn bnot(&mut self, x: Wire) -> (out: Wire)
        requires
            old(self).wf(),
            old(self).has(x),
        ensures
            final(self).extends(*old(self)),
            final(self).has(out),
            forall|w: Seq<u64>| #[trigger] final(self).computed(w) ==> val(w, out) == !val(w, x),
            final(self).adds_gate(
                *old(self),
                0,
                GateBody::Op(Opcode::Bnot),
                seq![x, out],
                Seq::empty(),
                Seq::empty(),
            ),
            final(self).only_computes(*old(self)),
    {
        let inputs: Vec<Wire> = vec![x];
        let out = self.compute(Opcode::Bnot, inputs, Vec::new());
        assert(inputs@.push(out) =~= seq![x, out]);
        proof {
            assert forall|w: Seq<u64>| #[trigger] self.computed(w) implies val(w, out)
                == !val(w, x) by {
                let v = vals(w, inputs@.push(out));
                assert(v[0] == val(w, x) && v[1] == val(w, out));
            }
        }
        out
    }

    /// One wire where a condition is true, another where it is not.
    pub fn select(&mut self, cond: Wire, t: Wire, f: Wire) -> (out: Wire)
        requires
            old(self).wf(),
            old(self).has(cond),
            old(self).has(t),
            old(self).has(f),
        ensures
            final(self).extends(*old(self)),
            final(self).has(out),
            forall|w: Seq<u64>| #[trigger]
                final(self).computed(w) ==> val(w, out) == if truth(val(w, cond)) {
                    val(w, t)
                } else {
                    val(w, f)
                },
            final(self).adds_gate(
                *old(self),
                0,
                GateBody::Op(Opcode::Select),
                seq![cond, t, f, out],
                Seq::empty(),
                Seq::empty(),
            ),
            final(self).only_computes(*old(self)),
    {
        let inputs: Vec<Wire> = vec![cond, t, f];
        let out = self.compute(Opcode::Select, inputs, Vec::new());
        assert(inputs@.push(out) =~= seq![cond, t, f, out]);
        proof {
            assert forall|w: Seq<u64>| #[trigger] self.computed(w) implies val(w, out) == if truth(
                val(w, cond),
            ) {
                val(w, t)
            } else {
                val(w, f)
            } by {
                let v = vals(w, inputs@.push(out));
                assert(v[0] == val(w, cond) && v[1] == val(w, t) && v[2] == val(w, f) && v[3]
                    == val(w, out));
            }
        }
        out
    }

    /// Whether one wire is above another, as numbers.
    pub fn ugt(&mut self, x: Wire, y: Wire) -> (out: Wire)
        requires
            old(self).wf(),
            old(self).has(x),
            old(self).has(y),
        ensures
            final(self).extends(*old(self)),
            final(self).has(out),
            forall|w: Seq<u64>| #[trigger]
                final(self).computed(w) ==> truth(val(w, out)) == (val(w, x) > val(w, y)),
            final(self).only_computes(*old(self)),
    {
        self.ult(y, x)
    }

    /// Whether one wire is at most another, as numbers.
    pub fn ule(&mut self, x: Wire, y: Wire) -> (out: Wire)
        requires
            old(self).wf(),
            old(self).has(x),
            old(self).has(y),
        ensures
            final(self).extends(*old(self)),
            final(self).has(out),
            forall|w: Seq<u64>| #[trigger]
                final(self).computed(w) ==> truth(val(w, out)) == (val(w, x) <= val(w, y)),
            final(self).only_computes(*old(self)),
    {
        let above = self.ult(y, x);
        let ghost middle = *self;
        let out = self.bnot(above);
        proof {
            assert forall|w: Seq<u64>| #[trigger] self.computed(w) implies truth(val(w, out)) == (
            val(w, x) <= val(w, y)) by {
                assert(middle.computed(w));
                lemma_truth_not(val(w, above));
            }
        }
        out
    }

    /// Calls a computation of the prover alone, by the number of its name. Its outputs are free: the
    /// circuit has to assert what it needs of them.
    pub fn call_hint(
        &mut self,
        hint_id: u32,
        dimensions: Vec<usize>,
        inputs: Vec<Wire>,
        n_outputs: usize,
    ) -> (outputs: Vec<Wire>)
        requires
            old(self).wf(),
            old(self).has_all(inputs@),
        ensures
            final(self).extends(*old(self)),
            final(self).has_all(outputs@),
            outputs@.len() == n_outputs,
            final(self).graph.wires@ == old(self).graph.wires@ + Seq::new(
                n_outputs as nat,
                |i: int| WireKind::Internal,
            ),
            final(self).names@ == old(self).names@,
            forall|i: int|
                0 <= i < n_outputs ==> (#[trigger] outputs@[i]).index == old(self).n_wires() + i,
            final(self).adds_gate(
                *old(self),
                0,
                GateBody::Hint(hint_id),
                inputs@ + outputs@,
                Seq::empty(),
                dimensions@,
            ),
            final(self).only_computes(*old(self)),
    {
        let mut wires = inputs;
        let mut outputs: Vec<Wire> = Vec::new();
        let mut i: usize = 0;
        assert(wires@ =~= inputs@ + outputs@);
        assert(self.graph.wires@ =~= old(self).graph.wires@ + Seq::new(0, |i: int| WireKind::Internal));
        while i < n_outputs
            invariant
                i == outputs@.len() <= n_outputs,
                self.extends(*old(self)),
                self.n_wires() == old(self).n_wires() + i,
                self.has_all(wires@),
                self.has_all(outputs@),
                self.graph.gates@ == old(self).graph.gates@,
                self.graph.wires@ == old(self).graph.wires@ + Seq::new(
                    i as nat,
                    |i: int| WireKind::Internal,
                ),
                self.names@ == old(self).names@,
                wires@ == inputs@ + outputs@,
                forall|j: int|
                    0 <= j < i ==> (#[trigger] outputs@[j]).index == old(self).n_wires() + j,
                self.only_computes(*old(self)),
            decreases n_outputs - i,
        {
            let ghost before = *self;
            let wire = self.add_wire(WireKind::Internal);
            wires.push(wire);
            outputs.push(wire);
            proof {
                assert forall|w: Seq<u64>| #[trigger] self.computed(w) implies old(self).computed(
                    w,
                ) by {
                    assert(before.computed(w));
                }
                assert forall|j: int| 0 <= j < wires@.len() implies self.has(#[trigger] wires@[j]) by {
                    if j < wires@.len() - 1 {
                        assert(before.has(wires@.drop_last()[j]));
                    }
                }
            }
            assert(wires@ =~= inputs@ + outputs@);
            assert(self.graph.wires@ =~= old(self).graph.wires@ + Seq::new(
                (i + 1) as nat,
                |i: int| WireKind::Internal,
            ));
            i += 1;
        }
        let gate = Gate {
            origin: self.origin,
            assertion_name: 0,
            data: GateData { body: GateBody::Hint(hint_id), wires, immediates: Vec::new(), dimensions },
        };
        let ghost before = *self;
        self.graph.gates.push(gate);
        proof {
            reveal(graph_computed);
            let n = before.graph.gates@.len() as int;
            let after = self.graph.gates@;
            assert(after[n] == gate);
            assert(after.last() == gate);
            assert forall|g: int| 0 <= g < n implies #[trigger] after[g] == before.graph.gates@[g] by {}
            assert forall|w: Seq<u64>| #[trigger] self.computed(w) implies old(
                self,
            ).computed(w) by {
                assert forall|g: int| 0 <= g < n implies gate_computed(
                    (#[trigger] before.graph.gates@[g]).data,
                    w,
                ) by {
                    assert(after[g] == before.graph.gates@[g]);
                }
                assert(before.computed(w));
            }
            assert forall|w: Seq<u64>| #[trigger] self.asserted(w) <==> old(self).asserted(w) by {
                lemma_nothing_asserted(*self, *old(self), w);
            }
        }
        outputs
    }

    /// Gives a path a number.
    fn add_name(&mut self, name: &str) -> (number: usize)
        ensures
            old(self).wf() ==> final(self).wf(),
            final(self).graph == old(self).graph,
            final(self).origin == old(self).origin,
            final(self).names@.len() == old(self).names@.len() + 1,
            number == old(self).names@.len(),
            final(self).names@[number as int]@ == name@,
            forall|i: int|
                0 <= i < old(self).names@.len() ==> #[trigger] final(self).names@[i]
                    == old(self).names@[i],
    {
        let number: usize = self.names.len();
        self.names.push(name.to_owned());
        number
    }

    /// Starts a subcircuit: what is added from here on is reported under its path.
    pub fn subcircuit(&mut self, name: &str)
        ensures
            old(self).wf() ==> final(self).wf(),
            final(self).graph == old(self).graph,
            final(self).origin == old(self).names@.len(),
            final(self).names@.len() == old(self).names@.len() + 1,
            final(self).names@[final(self).origin as int]@ == name@,
            forall|i: int|
                0 <= i < old(self).names@.len() ==> #[trigger] final(self).names@[i]
                    == old(self).names@[i],
    {
        let number: usize = self.add_name(name);
        self.origin = number;
    }

    /// Asserts that a wire is false.
    pub fn assert_false(&mut self, name: &str, x: Wire)
        requires
            old(self).wf(),
            old(self).has(x),
        ensures
            final(self).extends(*old(self)),
            final(self).adds_gate(
                *old(self),
                old(self).names@.len() as usize,
                GateBody::Op(Opcode::AssertFalse),
                seq![x],
                Seq::empty(),
                Seq::empty(),
            ),
            final(self).path(old(self).n_gates() as int) == name@,
            forall|path: Seq<char>, w: Seq<u64>| #[trigger]
                final(self).adds_under(*old(self), path, w) <==> (path == name@ ==> !truth(val(w, x))),
            forall|w: Seq<u64>| #[trigger]
                final(self).asserted(w) <==> old(self).asserted(w) && !truth(val(w, x)),
    {
        let number: usize = self.add_name(name);
        let wires: Vec<Wire> = vec![x];
        assert(wires@ =~= seq![x]);
        let ghost middle = *self;
        self.add_gate(Opcode::AssertFalse, wires, Vec::new(), number);
        proof {
            assert forall|w: Seq<u64>| #[trigger] self.computed(w) implies old(
                self,
            ).computed(w) by {
                assert(middle.computed(w));
            }
            let n = old(self).n_gates() as int;
            assert forall|path: Seq<char>, w: Seq<u64>| #[trigger]
                self.adds_under(*old(self), path, w) <==> (path == name@ ==> !truth(val(w, x))) by {
                reveal(CircuitBuilder::adds_under);
                assert(vals(w, wires@)[0] == val(w, x));
                assert(gate_asserted(self.graph.gates@[n].data, w) <==> !truth(val(w, x)));
            }
            assert forall|w: Seq<u64>| #[trigger]
                self.asserted(w) <==> old(self).asserted(w) && !truth(val(w, x)) by {
                lemma_asserted(*self, *old(self), w);
                assert(self.adds_under(*old(self), name@, w) <==> !truth(val(w, x)));
            }
        }
    }

    /// Asserts that two wires are equal.
    pub fn assert_eq(&mut self, name: &str, x: Wire, y: Wire)
        requires
            old(self).wf(),
            old(self).has(x),
            old(self).has(y),
        ensures
            final(self).extends(*old(self)),
            final(self).adds_gate(
                *old(self),
                old(self).names@.len() as usize,
                GateBody::Op(Opcode::AssertEq),
                seq![x, y],
                Seq::empty(),
                Seq::empty(),
            ),
            final(self).path(old(self).n_gates() as int) == name@,
            forall|path: Seq<char>, w: Seq<u64>| #[trigger]
                final(self).adds_under(*old(self), path, w) <==> (path == name@ ==> val(w, x) == val(
                    w,
                    y,
                )),
            forall|w: Seq<u64>| #[trigger]
                final(self).asserted(w) <==> old(self).asserted(w) && val(w, x) == val(w, y),
    {
        let number: usize = self.add_name(name);
        let wires: Vec<Wire> = vec![x, y];
        assert(wires@ =~= seq![x, y]);
        let ghost middle = *self;
        self.add_gate(Opcode::AssertEq, wires, Vec::new(), number);
        proof {
            assert forall|w: Seq<u64>| #[trigger] self.computed(w) implies old(
                self,
            ).computed(w) by {
                assert(middle.computed(w));
            }
            let n = old(self).n_gates() as int;
            assert forall|path: Seq<char>, w: Seq<u64>| #[trigger]
                self.adds_under(*old(self), path, w) <==> (path == name@ ==> val(w, x) == val(
                w,
                y,
            )) by {
                reveal(CircuitBuilder::adds_under);
                let v = vals(w, wires@);
                assert(v[0] == val(w, x) && v[1] == val(w, y));
                assert(gate_asserted(self.graph.gates@[n].data, w) <==> val(w, x) == val(w, y));
            }
            assert forall|w: Seq<u64>| #[trigger]
                self.asserted(w) <==> old(self).asserted(w) && val(w, x) == val(w, y) by {
                lemma_asserted(*self, *old(self), w);
                assert(self.adds_under(*old(self), name@, w) <==> val(w, x) == val(w, y));
            }
        }
    }

    /// Asserts that two wires are equal where a condition is true.
    pub fn assert_eq_cond(&mut self, name: &str, x: Wire, y: Wire, cond: Wire)
        requires
            old(self).wf(),
            old(self).has(x),
            old(self).has(y),
            old(self).has(cond),
        ensures
            final(self).extends(*old(self)),
            final(self).adds_gate(
                *old(self),
                old(self).names@.len() as usize,
                GateBody::Op(Opcode::AssertEqCond),
                seq![x, y, cond],
                Seq::empty(),
                Seq::empty(),
            ),
            final(self).path(old(self).n_gates() as int) == name@,
            forall|path: Seq<char>, w: Seq<u64>| #[trigger]
                final(self).adds_under(*old(self), path, w) <==> (path == name@ ==> equal_where(
                    w,
                    x,
                    y,
                    cond,
                )),
            forall|w: Seq<u64>| #[trigger]
                final(self).asserted(w) <==> old(self).asserted(w) && equal_where(w, x, y, cond),
    {
        let number: usize = self.add_name(name);
        let wires: Vec<Wire> = vec![x, y, cond];
        assert(wires@ =~= seq![x, y, cond]);
        let ghost middle = *self;
        self.add_gate(Opcode::AssertEqCond, wires, Vec::new(), number);
        proof {
            assert forall|w: Seq<u64>| #[trigger] self.computed(w) implies old(
                self,
            ).computed(w) by {
                assert(middle.computed(w));
            }
            let n = old(self).n_gates() as int;
            assert forall|path: Seq<char>, w: Seq<u64>| #[trigger]
                self.adds_under(*old(self), path, w) <==> (path == name@ ==> equal_where(
                w,
                x,
                y,
                cond,
            )) by {
                reveal(CircuitBuilder::adds_under);
                let v = vals(w, wires@);
                assert(v[0] == val(w, x) && v[1] == val(w, y) && v[2] == val(w, cond));
                assert(gate_asserted(self.graph.gates@[n].data, w) <==> equal_where(w, x, y, cond));
            }
            assert forall|w: Seq<u64>| #[trigger]
                self.asserted(w) <==> old(self).asserted(w) && equal_where(w, x, y, cond) by {
                lemma_asserted(*self, *old(self), w);
                assert(self.adds_under(*old(self), name@, w) <==> equal_where(w, x, y, cond));
            }
        }
    }
}

/// The complement of a word has the other truth value.
pub proof fn lemma_truth_not(x: u64)
    ensures
        truth(!x) == !truth(x),
{
    assert((!x >= 0x8000_0000_0000_0000) == !(x >= 0x8000_0000_0000_0000)) by (bit_vector);
}

/// The bitwise and of two words is true where both are.
pub proof fn lemma_truth_and(x: u64, y: u64)
    ensures
        truth(x & y) == (truth(x) && truth(y)),
{
    assert(((x & y) >= 0x8000_0000_0000_0000) == (x >= 0x8000_0000_0000_0000 && y
        >= 0x8000_0000_0000_0000)) by (bit_vector);
}

} // verus!
