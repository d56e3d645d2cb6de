//! Nothing that a compilation starts from escapes the digest: the words that are digested determine
//! it.

use vstd::prelude::*;

use crate::compile_cache::digest::{
    body_words, gate_words, gates_words, kind_words, kinds_words, options_words, state_digest,
    state_words, wires_words, Options,
};
use crate::compile_cache::wire_set::{ascending_wires, lists_wires};
use crate::ir::{Gate, GateBody, GateGraph, Wire, WireKind};

verus! {

/// Parts of one length that begin the same words are the same, and so is what follows them.
proof fn lemma_same_parts(a: Seq<u64>, b: Seq<u64>, r: Seq<u64>, s: Seq<u64>)
    requires
        a + r == b + s,
        a.len() == b.len(),
    ensures
        a == b,
        r == s,
{
    let n = a.len() as int;
    assert(a =~= (a + r).take(n));
    assert(b =~= (b + s).take(n));
    assert(r =~= (a + r).skip(n));
    assert(s =~= (b + s).skip(n));
}

/// Lists after their lengths that begin the same words are the same, and so is what follows them.
proof fn lemma_same_lists(a: Seq<u64>, b: Seq<u64>, r: Seq<u64>, s: Seq<u64>)
    requires
        (seq![a.len() as u64] + a) + r == (seq![b.len() as u64] + b) + s,
        a.len() <= u64::MAX,
        b.len() <= u64::MAX,
    ensures
        a == b,
        r == s,
{
    let x = seq![a.len() as u64];
    let y = seq![b.len() as u64];
    assert((x + a) + r =~= x + (a + r));
    assert((y + b) + s =~= y + (b + s));
    lemma_same_parts(x, y, a + r, b + s);
    assert(x[0] == y[0]);
    lemma_same_parts(a, b, r, s);
}

/// Lists of wires that begin the same words are the same, and so is what follows them.
proof fn lemma_same_wires(a: Seq<Wire>, b: Seq<Wire>, r: Seq<u64>, s: Seq<u64>)
    requires
        wires_words(a) + r == wires_words(b) + s,
        a.len() <= u64::MAX,
        b.len() <= u64::MAX,
    ensures
        a == b,
        r == s,
{
    let x = a.map_values(|wire: Wire| wire.index as u64);
    let y = b.map_values(|wire: Wire| wire.index as u64);
    lemma_same_lists(x, y, r, s);
    assert forall|i: int| 0 <= i < a.len() implies a[i] == b[i] by {
        assert(x[i] == y[i]);
    }
    assert(a =~= b);
}

/// Kinds of as many wires that begin the same words are the same, and so is what follows them.
proof fn lemma_same_kinds(a: Seq<WireKind>, b: Seq<WireKind>, r: Seq<u64>, s: Seq<u64>)
    requires
        kinds_words(a) + r == kinds_words(b) + s,
        a.len() == b.len(),
    ensures
        a == b,
        r == s,
    decreases a.len(),
{
    if a.len() == 0 {
        assert(kinds_words(a) + r =~= r);
        assert(kinds_words(b) + s =~= s);
        assert(a =~= b);
    } else {
        let x = kind_words(a[0]);
        let y = kind_words(b[0]);
        let p = kinds_words(a.skip(1)) + r;
        let q = kinds_words(b.skip(1)) + s;
        assert(kinds_words(a) + r =~= x + p);
        assert(kinds_words(b) + s =~= y + q);
        assert((x + p)[0] == x[0] && (y + q)[0] == y[0]);
        lemma_same_parts(x, y, p, q);
        assert(a[0] == b[0]) by {
            assert(x[0] == y[0]);
            if a[0] is Constant {
                assert(x[1] == y[1]);
            }
        }
        lemma_same_kinds(a.skip(1), b.skip(1), r, s);
        assert(a =~= seq![a[0]] + a.skip(1));
        assert(b =~= seq![b[0]] + b.skip(1));
    }
}

/// Whether two gates are the same in everything that they hold.
pub open spec fn same_gate(a: Gate, b: Gate) -> bool {
    &&& a.origin == b.origin
    &&& a.assertion_name == b.assertion_name
    &&& a.data.body == b.data.body
    &&& a.data.wires@ == b.data.wires@
    &&& a.data.immediates@ == b.data.immediates@
    &&& a.data.dimensions@ == b.data.dimensions@
}

/// The number of an operation determines it.
proof fn lemma_same_body(a: GateBody, b: GateBody)
    requires
        body_words(a) == body_words(b),
    ensures
        a == b,
{
    assert(body_words(a)[0] == body_words(b)[0]);
    assert(body_words(a)[1] == body_words(b)[1]);
}

/// Gates that begin the same words are the same, and so is what follows them.
proof fn lemma_same_gate(a: Gate, b: Gate, r: Seq<u64>, s: Seq<u64>)
    requires
        gate_words(a) + r == gate_words(b) + s,
    ensures
        same_gate(a, b),
        r == s,
{
    let ia = a.data.immediates@.map_values(|imm: u32| imm as u64);
    let ib = b.data.immediates@.map_values(|imm: u32| imm as u64);
    let da = a.data.dimensions@.map_values(|dim: usize| dim as u64);
    let db = b.data.dimensions@.map_values(|dim: usize| dim as u64);
    let d1 = seq![da.len() as u64] + da;
    let d2 = seq![db.len() as u64] + db;
    let i1 = (seq![ia.len() as u64] + ia);
    let i2 = (seq![ib.len() as u64] + ib);
    let w1 = wires_words(a.data.wires@);
    let w2 = wires_words(b.data.wires@);
    let b1 = body_words(a.data.body);
    let b2 = body_words(b.data.body);
    let p1 = seq![a.origin as u64, a.assertion_name as u64];
    let p2 = seq![b.origin as u64, b.assertion_name as u64];
    assert(a.data.wires.len() == a.data.wires@.len());
    assert(b.data.wires.len() == b.data.wires@.len());
    assert(a.data.immediates.len() == a.data.immediates@.len());
    assert(b.data.immediates.len() == b.data.immediates@.len());
    assert(a.data.dimensions.len() == a.data.dimensions@.len());
    assert(b.data.dimensions.len() == b.data.dimensions@.len());
    assert(gate_words(a) + r =~= p1 + (b1 + (w1 + (i1 + (d1 + r)))));
    assert(gate_words(b) + s =~= p2 + (b2 + (w2 + (i2 + (d2 + s)))));
    lemma_same_parts(p1, p2, b1 + (w1 + (i1 + (d1 + r))), b2 + (w2 + (i2 + (d2 + s))));
    assert(p1[0] == p2[0] && p1[1] == p2[1]);
    lemma_same_parts(b1, b2, w1 + (i1 + (d1 + r)), w2 + (i2 + (d2 + s)));
    lemma_same_body(a.data.body, b.data.body);
    lemma_same_wires(a.data.wires@, b.data.wires@, i1 + (d1 + r), i2 + (d2 + s));
    lemma_same_lists(ia, ib, d1 + r, d2 + s);
    lemma_same_lists(da, db, r, s);
    assert forall|k: int| 0 <= k < ia.len() implies a.data.immediates@[k]
        == b.data.immediates@[k] by {
        assert(ia[k] == ib[k]);
    }
    assert(a.data.immediates@ =~= b.data.immediates@);
    assert forall|k: int| 0 <= k < da.len() implies a.data.dimensions@[k]
        == b.data.dimensions@[k] by {
        assert(da[k] == db[k]);
    }
    assert(a.data.dimensions@ =~= b.data.dimensions@);
}

/// As many gates that make the same words are the same.
proof fn lemma_same_gates(a: Seq<Gate>, b: Seq<Gate>)
    requires
        gates_words(a) == gates_words(b),
        a.len() == b.len(),
    ensures
        forall|g: int| 0 <= g < a.len() ==> same_gate(#[trigger] a[g], b[g]),
    decreases a.len(),
{
    if a.len() > 0 {
        lemma_same_gate(a[0], b[0], gates_words(a.skip(1)), gates_words(b.skip(1)));
        lemma_same_gates(a.skip(1), b.skip(1));
        assert forall|g: int| 0 <= g < a.len() implies same_gate(#[trigger] a[g], b[g]) by {
            if g > 0 {
                assert(same_gate(a.skip(1)[g - 1], b.skip(1)[g - 1]));
            }
        }
    }
}

/// The words of the options determine them.
proof fn lemma_same_options(a: Options, b: Options)
    requires
        options_words(a) == options_words(b),
    ensures
        a == b,
{
    let x = options_words(a);
    let y = options_words(b);
    assert(x[0] == y[0] && x[1] == y[1] && x[2] == y[2] && x[3] == y[3]);
    assert(x[4] == y[4] && x[5] == y[5] && x[6] == y[6]);
}

/// States that make the same words are the same: options, force-committed wires, the kind and value
/// of every wire, and every gate with its paths.
pub proof fn law_words_determine_the_state(
    a: GateGraph,
    a_opts: Options,
    a_committed: Set<usize>,
    b: GateGraph,
    b_opts: Options,
    b_committed: Set<usize>,
)
    requires
        lists_wires(a_committed, ascending_wires(a_committed)),
        lists_wires(b_committed, ascending_wires(b_committed)),
        ascending_wires(a_committed).len() <= u64::MAX,
        ascending_wires(b_committed).len() <= u64::MAX,
        state_words(a, a_opts, a_committed) == state_words(b, b_opts, b_committed),
    ensures
        a_opts == b_opts,
        a_committed == b_committed,
        a.wires@ == b.wires@,
        a.gates@.len() == b.gates@.len(),
        forall|g: int| 0 <= g < a.gates@.len() ==> same_gate(#[trigger] a.gates@[g], b.gates@[g]),
{
    assert(a.wires.len() == a.wires@.len() && b.wires.len() == b.wires@.len());
    assert(a.gates.len() == a.gates@.len() && b.gates.len() == b.gates@.len());
    let ka = kinds_words(a.wires@);
    let kb = kinds_words(b.wires@);
    let ga = seq![a.gates@.len() as u64] + gates_words(a.gates@);
    let gb = seq![b.gates@.len() as u64] + gates_words(b.gates@);
    let na = seq![a.wires@.len() as u64];
    let nb = seq![b.wires@.len() as u64];
    let wa = wires_words(ascending_wires(a_committed));
    let wb = wires_words(ascending_wires(b_committed));
    lemma_same_parts(
        options_words(a_opts),
        options_words(b_opts),
        wa + ((na + ka) + ga),
        wb + ((nb + kb) + gb),
    );
    lemma_same_options(a_opts, b_opts);
    lemma_same_wires(
        ascending_wires(a_committed),
        ascending_wires(b_committed),
        (na + ka) + ga,
        (nb + kb) + gb,
    );
    assert(a_committed =~= b_committed);
    assert((na + ka) + ga =~= na + (ka + ga));
    assert((nb + kb) + gb =~= nb + (kb + gb));
    lemma_same_parts(na, nb, ka + ga, kb + gb);
    assert(na[0] == nb[0]);
    lemma_same_kinds(a.wires@, b.wires@, ga, gb);
    lemma_same_parts(
        seq![a.gates@.len() as u64],
        seq![b.gates@.len() as u64],
        gates_words(a.gates@),
        gates_words(b.gates@),
    );
    assert(seq![a.gates@.len() as u64][0] == seq![b.gates@.len() as u64][0]);
    lemma_same_gates(a.gates@, b.gates@);
}

/// Gates that are the same make the same words.
proof fn lemma_same_gates_words(a: Seq<Gate>, b: Seq<Gate>)
    requires
        a.len() == b.len(),
        forall|g: int| 0 <= g < a.len() ==> same_gate(#[trigger] a[g], b[g]),
    ensures
        gates_words(a) == gates_words(b),
    decreases a.len(),
{
    if a.len() > 0 {
        assert(same_gate(a[0], b[0]));
        assert forall|g: int| 0 <= g < a.skip(1).len() implies same_gate(
            #[trigger] a.skip(1)[g],
            b.skip(1)[g],
        ) by {
            assert(same_gate(a[g + 1], b[g + 1]));
        }
        lemma_same_gates_words(a.skip(1), b.skip(1));
    }
}

/// States that are the same have the same digest, whatever their paths are named: a gate holds the
/// numbers of its paths, and their names stand outside the graph.
pub proof fn law_same_state_same_digest(
    a: GateGraph,
    b: GateGraph,
    opts: Options,
    force_committed: Set<usize>,
)
    requires
        a.wires@ == b.wires@,
        a.gates@.len() == b.gates@.len(),
        forall|g: int| 0 <= g < a.gates@.len() ==> same_gate(#[trigger] a.gates@[g], b.gates@[g]),
    ensures
        state_digest(a, opts, force_committed) == state_digest(b, opts, force_committed),
{
    lemma_same_gates_words(a.gates@, b.gates@);
}

} // verus!
