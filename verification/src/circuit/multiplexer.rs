//! The choice of one of several wires by the value of another.

use vstd::prelude::*;
use vstd::slice::slice_to_vec;

use crate::circuit::builder::CircuitBuilder;
use crate::circuit::semantics::{truth, val};
use crate::ir::Wire;

verus! {

/// Bit `k` of a word, and what is above it.
proof fn lemma_bit(s: u64, top: u64, k: u32)
    requires
        k < 64,
        s <= top,
    ensures
        s >> k <= top >> k,
        s >> ((k + 1) as u32) == (s >> k) / 2,
        top >> ((k + 1) as u32) == (top >> k) / 2,
        truth(s << ((63 - k) as u32)) == ((s >> k) % 2 == 1),
{
    let l: u32 = (63 - k) as u32;
    let m: u32 = (k + 1) as u32;
    assert(s >> k <= top >> k) by (bit_vector)
        requires
            s <= top,
    ;
    assert(s >> m == (s >> k) / 2) by (bit_vector)
        requires
            k < 64,
            m == k + 1,
    ;
    assert(top >> m == (top >> k) / 2) by (bit_vector)
        requires
            k < 64,
            m == k + 1,
    ;
    assert((s << l >= 0x8000_0000_0000_0000) == ((s >> k) % 2 == 1)) by (bit_vector)
        requires
            k < 64,
            l == 63 - k,
    ;
}

/// Whether a level of the choice holds, at the place that the upper bits of the selector name, the
/// input that the whole selector names.
spec fn level_holds(w: Seq<u64>, level: Seq<Wire>, inputs: Seq<Wire>, sel: Wire, k: u32) -> bool {
    val(w, sel) < inputs.len() ==> (val(w, sel) >> k) < level.len() && val(
        w,
        level[(val(w, sel) >> k) as int],
    ) == val(w, inputs[val(w, sel) as int])
}

/// Halves a level: one of each pair, by bit `k` of the selector.
fn next_level(b: &mut CircuitBuilder, level: &Vec<Wire>, sel: Wire, k: u32) -> (next: Vec<Wire>)
    requires
        old(b).wf(),
        old(b).has_all(level@),
        old(b).has(sel),
        k < 64,
    ensures
        final(b).extends(*old(b)),
        final(b).has_all(next@),
        next@.len() == (level@.len() + 1) / 2,
        forall|w: Seq<u64>, j: int|
            #![trigger final(b).computed(w), next@[j]]
            final(b).computed(w) && 0 <= j < next@.len() ==> val(w, next@[j]) == if truth(
                val(w, sel) << ((63 - k) as u32),
            ) && 2 * j + 1 < level@.len() {
                val(w, level@[2 * j + 1])
            } else {
                val(w, level@[2 * j])
            },
        final(b).only_computes(*old(b)),
{
    let bit = b.shl(sel, 63 - k);
    let mut next: Vec<Wire> = Vec::new();
    let mut j: usize = 0;
    while j < level.len() / 2 + level.len() % 2
        invariant
            b.extends(*old(b)),
            old(b).has_all(level@),
            b.has(bit),
            b.has_all(next@),
            j == next@.len() <= (level@.len() + 1) / 2,
            forall|w: Seq<u64>| #[trigger]
                b.computed(w) ==> val(w, bit) == val(w, sel) << ((63 - k) as u32),
            forall|w: Seq<u64>, i: int|
                #![trigger b.computed(w), next@[i]]
                b.computed(w) && 0 <= i < j ==> val(w, next@[i]) == if truth(
                    val(w, sel) << ((63 - k) as u32),
                ) && 2 * i + 1 < level@.len() {
                    val(w, level@[2 * i + 1])
                } else {
                    val(w, level@[2 * i])
                },
            b.only_computes(*old(b)),
        decreases level@.len() - j,
    {
        let ghost before = *b;
        let ghost so_far = next@;
        assert(before.has(level@[2 * j]));
        if 2 * j + 1 < level.len() {
            assert(before.has(level@[2 * j + 1]));
            let chosen = b.select(bit, level[2 * j + 1], level[2 * j]);
            next.push(chosen);
        } else {
            next.push(level[2 * j]);
        }
        proof {
            assert forall|w: Seq<u64>, i: int|
                #![trigger b.computed(w), next@[i]]
                b.computed(w) && 0 <= i < j + 1 implies val(w, next@[i]) == if truth(
                val(w, sel) << ((63 - k) as u32),
            ) && 2 * i + 1 < level@.len() {
                val(w, level@[2 * i + 1])
            } else {
                val(w, level@[2 * i])
            } by {
                assert(before.computed(w));
                if i < j {
                    assert(next@[i] == so_far[i]);
                }
            }
        }
        j += 1;
    }
    next
}

/// The input that a selector names. Of a selector that names none, nothing is claimed.
pub fn single_wire_multiplex(b: &mut CircuitBuilder, inputs: &[Wire], sel: Wire) -> (out: Wire)
    requires
        old(b).wf(),
        old(b).has_all(inputs@),
        old(b).has(sel),
        inputs@.len() > 0,
    ensures
        final(b).extends(*old(b)),
        final(b).has(out),
        forall|w: Seq<u64>| #[trigger]
            final(b).computed(w) ==> (val(w, sel) < inputs@.len() ==> val(w, out) == val(
                w,
                inputs@[val(w, sel) as int],
            )),
        final(b).only_computes(*old(b)),
{
    let mut level: Vec<Wire> = slice_to_vec(inputs);
    let top: u64 = (inputs.len() - 1) as u64;
    let mut k: u32 = 0;
    proof {
        assert(top >> 0u32 == top) by (bit_vector);
        assert forall|w: Seq<u64>| #[trigger] b.computed(w) implies level_holds(
            w,
            level@,
            inputs@,
            sel,
            0,
        ) by {
            let s = val(w, sel);
            assert(s >> 0u32 == s) by (bit_vector);
        }
    }
    while level.len() > 1
        invariant
            b.extends(*old(b)),
            b.has_all(level@),
            b.has(sel),
            inputs@.len() == top + 1,
            k <= 64,
            level@.len() == (top >> k) + 1,
            forall|w: Seq<u64>| #[trigger]
                b.computed(w) ==> level_holds(w, level@, inputs@, sel, k),
            b.only_computes(*old(b)),
        decreases level@.len(),
    {
        proof {
            assert(k == 64 ==> top >> k == 0) by (bit_vector);
            lemma_bit(top, top, k);
        }
        let ghost before = *b;
        let next = next_level(b, &level, sel, k);
        proof {
            assert forall|w: Seq<u64>| #[trigger] b.computed(w) implies level_holds(
                w,
                next@,
                inputs@,
                sel,
                (k + 1) as u32,
            ) by {
                assert(before.computed(w));
                let s = val(w, sel);
                if s < inputs@.len() {
                    lemma_bit(s, top, k);
                    let j = ((s >> k) / 2) as int;
                    assert(0 <= j < next@.len());
                    assert(val(w, next@[j]) == val(w, level@[(s >> k) as int]));
                }
            }
        }
        level = next;
        k += 1;
    }
    proof {
        assert forall|w: Seq<u64>| #[trigger] b.computed(w) && val(w, sel) < inputs@.len() implies
            val(w, level@[0]) == val(w, inputs@[val(w, sel) as int]) by {
            assert(level_holds(w, level@, inputs@, sel, k));
        }
    }
    level[0]
}

/// The row of inputs that a selector names, column by column. Of a selector that names none,
/// nothing is claimed.
pub fn multi_wire_multiplex(b: &mut CircuitBuilder, inputs: &Vec<Vec<Wire>>, sel: Wire) -> (out:
    Vec<Wire>)
    requires
        old(b).wf(),
        old(b).has(sel),
        inputs@.len() > 0,
        forall|i: int| 0 <= i < inputs@.len() ==> old(b).has_all((#[trigger] inputs@[i])@),
        forall|i: int|
            0 <= i < inputs@.len() ==> (#[trigger] inputs@[i])@.len() == inputs@[0]@.len(),
    ensures
        final(b).extends(*old(b)),
        final(b).has_all(out@),
        out@.len() == inputs@[0]@.len(),
        forall|w: Seq<u64>, j: int|
            #![trigger final(b).computed(w), out@[j]]
            final(b).computed(w) && 0 <= j < out@.len() && val(w, sel) < inputs@.len() ==> val(
                w,
                out@[j],
            ) == val(w, inputs@[val(w, sel) as int]@[j]),
        final(b).only_computes(*old(b)),
{
    let width: usize = inputs[0].len();
    let mut out: Vec<Wire> = Vec::new();
    let mut j: usize = 0;
    while j < width
        invariant
            b.extends(*old(b)),
            old(b).has(sel),
            inputs@.len() > 0,
            width == inputs@[0]@.len(),
            forall|i: int| 0 <= i < inputs@.len() ==> old(b).has_all((#[trigger] inputs@[i])@),
            forall|i: int|
                0 <= i < inputs@.len() ==> (#[trigger] inputs@[i])@.len() == inputs@[0]@.len(),
            j == out@.len() <= width,
            b.has_all(out@),
            forall|w: Seq<u64>, i: int|
                #![trigger b.computed(w), out@[i]]
                b.computed(w) && 0 <= i < j && val(w, sel) < inputs@.len() ==> val(w, out@[i])
                    == val(w, inputs@[val(w, sel) as int]@[i]),
            b.only_computes(*old(b)),
        decreases width - j,
    {
        let mut column: Vec<Wire> = Vec::new();
        let mut i: usize = 0;
        while i < inputs.len()
            invariant
                i == column@.len() <= inputs@.len(),
                j < inputs@[0]@.len(),
                forall|i: int|
                    0 <= i < inputs@.len() ==> (#[trigger] inputs@[i])@.len()
                        == inputs@[0]@.len(),
                forall|l: int| 0 <= l < i ==> #[trigger] column@[l] == inputs@[l]@[j as int],
            decreases inputs@.len() - i,
        {
            assert(inputs@[i as int]@.len() == inputs@[0]@.len());
            column.push(inputs[i][j]);
            i += 1;
        }
        let ghost before = *b;
        let ghost so_far = out@;
        assert forall|l: int| 0 <= l < column@.len() implies b.has(#[trigger] column@[l]) by {
            assert(old(b).has_all(inputs@[l]@));
            assert(old(b).has(inputs@[l]@[j as int]));
        }
        let chosen = single_wire_multiplex(b, column.as_slice(), sel);
        out.push(chosen);
        proof {
            assert forall|w: Seq<u64>, i: int|
                #![trigger b.computed(w), out@[i]]
                b.computed(w) && 0 <= i < j + 1 && val(w, sel) < inputs@.len() implies val(
                w,
                out@[i],
            ) == val(w, inputs@[val(w, sel) as int]@[i]) by {
                assert(before.computed(w));
                if i < j {
                    assert(out@[i] == so_far[i]);
                } else {
                    assert(column@[val(w, sel) as int] == inputs@[val(w, sel) as int]@[j as int]);
                }
            }
        }
        j += 1;
    }
    out
}

} // verus!
