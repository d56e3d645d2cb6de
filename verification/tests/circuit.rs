//! Circuits: what their gates compute, what they assert, and the choice of a wire by another.

use binius::circuit::builder::CircuitBuilder;
use binius::circuit::multiplexer::{multi_wire_multiplex, single_wire_multiplex};
use binius::ir::{GateBody, WireKind};

const MSB: u64 = 1 << 63;

#[test]
fn gates_compute_their_outputs() {
    let mut b = CircuitBuilder::new();
    let x = b.add_inout();
    let y = b.add_witness();
    let and = b.band(x, y);
    let xor = b.bxor(x, y);
    let not = b.bnot(x);
    let shl = b.shl(x, 4);
    let shr = b.shr(x, 60);
    let rotl = b.rotl(x, 4);
    let same = b.rotl(x, 0);
    let sum = b.iadd_32(x, y);
    let k = b.add_constant(0xDEAD_BEEF);
    let lt = b.ult(y, x);
    let gt = b.ugt(y, x);
    let le = b.ule(x, x);
    let eq = b.ueq(k, k);
    let ne = b.ueq(k, x);
    let chosen = b.select(lt, x, y);
    let other = b.select(gt, x, y);
    let mut w = b.new_witness_filler();
    w.set(x, 0xF000_0000_FFFF_FFFF);
    w.set(y, 0x2000_0000_0000_0001);
    assert_eq!(b.populate_wire_witness(&mut w), Ok(()));
    assert_eq!(w.get(and), 0x2000_0000_0000_0001);
    assert_eq!(w.get(xor), 0xD000_0000_FFFF_FFFE);
    assert_eq!(w.get(not), 0x0FFF_FFFF_0000_0000);
    assert_eq!(w.get(shl), 0x0000_000F_FFFF_FFF0);
    assert_eq!(w.get(shr), 0xF);
    assert_eq!(w.get(rotl), 0x0000_000F_FFFF_FFFF);
    assert_eq!(w.get(same), 0xF000_0000_FFFF_FFFF);
    assert_eq!(w.get(sum), 0x1000_0000_0000_0000);
    assert_eq!(w.get(k), 0xDEAD_BEEF);
    assert_eq!(w.get(lt) & MSB, MSB);
    assert_eq!(w.get(gt) & MSB, 0);
    assert_eq!(w.get(le) & MSB, MSB);
    assert_eq!(w.get(eq) & MSB, MSB);
    assert_eq!(w.get(ne) & MSB, 0);
    assert_eq!(w.get(chosen), w.get(x));
    assert_eq!(w.get(other), w.get(y));
}

#[test]
fn the_first_assertion_that_fails_is_reported() {
    let mut b = CircuitBuilder::new();
    let x = b.add_inout();
    let y = b.add_inout();
    b.assert_false("x is false", x);
    b.subcircuit("inner");
    let both = b.band(x, y);
    b.assert_eq("same", x, y);
    b.assert_eq_cond("same where both", x, y, both);
    let run = |vx: u64, vy: u64| {
        let mut w = b.new_witness_filler();
        w.set(x, vx);
        w.set(y, vy);
        b.populate_wire_witness(&mut w)
            .map_err(|e| (e.gate, e.origin, e.assertion))
    };
    assert_eq!(run(3, 3), Ok(()));
    assert_eq!(
        run(MSB, 3),
        Err((0, String::new(), String::from("x is false")))
    );
    assert_eq!(
        run(3, MSB | 3),
        Err((2, String::from("inner"), String::from("same")))
    );
}

#[test]
fn a_conditional_assertion_holds_where_its_condition_is_false() {
    let mut b = CircuitBuilder::new();
    let x = b.add_inout();
    let y = b.add_inout();
    let cond = b.add_inout();
    b.assert_eq_cond("cond", x, y, cond);
    let run = |vx: u64, vy: u64, vc: u64| {
        let mut w = b.new_witness_filler();
        w.set(x, vx);
        w.set(y, vy);
        w.set(cond, vc);
        b.populate_wire_witness(&mut w).is_ok()
    };
    assert!(run(1, 2, MSB - 1));
    assert!(!run(1, 2, MSB));
    assert!(run(2, 2, MSB));
}

#[test]
fn a_multiplexer_yields_the_input_that_the_selector_names() {
    for n in 1..=9usize {
        let mut b = CircuitBuilder::new();
        let inputs: Vec<_> = (0..n).map(|_| b.add_inout()).collect();
        let sel = b.add_inout();
        let out = single_wire_multiplex(&mut b, &inputs, sel);
        for s in 0..n {
            let mut w = b.new_witness_filler();
            for (i, wire) in inputs.iter().enumerate() {
                w.set(*wire, 100 + i as u64);
            }
            w.set(sel, s as u64);
            b.populate_wire_witness(&mut w).unwrap();
            assert_eq!(w.get(out), 100 + s as u64);
        }
    }
}

#[test]
fn a_multiplexer_yields_a_row_column_by_column() {
    let mut b = CircuitBuilder::new();
    let rows: Vec<Vec<_>> = (0..3)
        .map(|_| (0..2).map(|_| b.add_inout()).collect())
        .collect();
    let sel = b.add_inout();
    let out = multi_wire_multiplex(&mut b, &rows, sel);
    for s in 0..3 {
        let mut w = b.new_witness_filler();
        for (i, row) in rows.iter().enumerate() {
            for (j, wire) in row.iter().enumerate() {
                w.set(*wire, (10 * i + j) as u64);
            }
        }
        w.set(sel, s as u64);
        b.populate_wire_witness(&mut w).unwrap();
        assert_eq!(w.get(out[0]), 10 * s);
        assert_eq!(w.get(out[1]), 10 * s + 1);
    }
}

#[test]
fn a_hint_is_recorded_with_its_wires_and_dimensions() {
    let mut b = CircuitBuilder::new();
    let x = b.add_inout();
    b.subcircuit("inner");
    let y = b.bnot(x);
    let outputs = b.call_hint(77, vec![4, 5], vec![y, x], 2);
    let indices: Vec<usize> = outputs.iter().map(|wire| wire.index).collect();
    assert_eq!(indices, [2, 3]);
    assert_eq!(b.graph.gates.len(), 2);
    let gate = &b.graph.gates[1];
    assert_eq!(gate.origin, 1);
    assert_eq!(gate.assertion_name, 0);
    assert_eq!(gate.data.body, GateBody::Hint(77));
    assert_eq!(gate.data.wires, [y, x, outputs[0], outputs[1]]);
    assert!(gate.data.immediates.is_empty());
    assert_eq!(gate.data.dimensions, [4, 5]);
    assert_eq!(b.graph.wires[2..], [WireKind::Internal, WireKind::Internal]);
}
