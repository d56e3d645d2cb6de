//! The Keccak-f\[1600\] permutation as a circuit.

use vstd::prelude::*;

use crate::circuit::builder::CircuitBuilder;
use crate::circuit::semantics::{rotl, val, vals};
use crate::ir::Wire;
use crate::keccak::function::{
    chi, column, iota, keccak_f, moved_from, rho_pi, round, rounds, theta, ROTATIONS,
    ROUND_CONSTANTS,
};

verus! {

/// The permutation circuit.
pub struct Permutation;

/// The parity of a column.
fn add_column(b: &mut CircuitBuilder, state: &Vec<Wire>, x: usize) -> (out: Wire)
    requires
        old(b).wf(),
        old(b).has_all(state@),
        state@.len() == 25,
        x < 5,
    ensures
        final(b).extends(*old(b)),
        final(b).has(out),
        forall|w: Seq<u64>| #[trigger]
            final(b).computed(w) ==> val(w, out) == column(vals(w, state@), x as int),
        final(b).only_computes(*old(b)),
{
    assert(b.has(state@[x as int]) && b.has(state@[x + 5]) && b.has(state@[x + 10]) && b.has(
        state@[x + 15],
    ) && b.has(state@[x + 20]));
    let p = b.bxor(state[x], state[x + 5]);
    let ghost b1 = *b;
    let q = b.bxor(p, state[x + 10]);
    let ghost b2 = *b;
    let r = b.bxor(q, state[x + 15]);
    let ghost b3 = *b;
    let out = b.bxor(r, state[x + 20]);
    proof {
        assert forall|w: Seq<u64>| #[trigger] b.computed(w) implies val(w, out) == column(
            vals(w, state@),
            x as int,
        ) by {
            assert(b3.computed(w) && b2.computed(w) && b1.computed(w));
        }
    }
    out
}

/// Theta on a state.
fn add_theta(b: &mut CircuitBuilder, state: &Vec<Wire>) -> (out: Vec<Wire>)
    requires
        old(b).wf(),
        old(b).has_all(state@),
        state@.len() == 25,
    ensures
        final(b).extends(*old(b)),
        final(b).has_all(out@),
        out@.len() == 25,
        forall|w: Seq<u64>| #[trigger]
            final(b).computed(w) ==> vals(w, out@) == theta(vals(w, state@)),
        final(b).only_computes(*old(b)),
{
    let mut c: Vec<Wire> = Vec::new();
    let mut x: usize = 0;
    while x < 5
        invariant
            b.extends(*old(b)),
            old(b).has_all(state@),
            state@.len() == 25,
            x == c@.len() <= 5,
            b.has_all(c@),
            forall|w: Seq<u64>, i: int|
                #![trigger b.computed(w), c@[i]]
                b.computed(w) && 0 <= i < x ==> val(w, c@[i]) == column(vals(w, state@), i),
            b.only_computes(*old(b)),
        decreases 5 - x,
    {
        let ghost before = *b;
        let ghost so_far = c@;
        let parity = add_column(b, state, x);
        c.push(parity);
        proof {
            assert forall|w: Seq<u64>, i: int|
                #![trigger b.computed(w), c@[i]]
                b.computed(w) && 0 <= i < x + 1 implies val(w, c@[i]) == column(
                vals(w, state@),
                i,
            ) by {
                assert(before.computed(w));
                if i < x {
                    assert(c@[i] == so_far[i]);
                }
            }
        }
        x += 1;
    }
    let ghost with_columns = *b;
    let mut d: Vec<Wire> = Vec::new();
    x = 0;
    while x < 5
        invariant
            b.extends(*old(b)),
            b.extends(with_columns),
            with_columns.has_all(c@),
            c@.len() == 5,
            x == d@.len() <= 5,
            b.has_all(d@),
            forall|w: Seq<u64>, i: int|
                #![trigger with_columns.computed(w), c@[i]]
                with_columns.computed(w) && 0 <= i < 5 ==> val(w, c@[i]) == column(
                    vals(w, state@),
                    i,
                ),
            forall|w: Seq<u64>, i: int|
                #![trigger b.computed(w), d@[i]]
                b.computed(w) && 0 <= i < x ==> val(w, d@[i]) == column(
                    vals(w, state@),
                    (i + 4) % 5,
                ) ^ rotl(column(vals(w, state@), (i + 1) % 5), 1),
            b.only_computes(*old(b)),
        decreases 5 - x,
    {
        let ghost before = *b;
        let ghost so_far = d@;
        let l: usize = (x + 4) % 5;
        let r: usize = (x + 1) % 5;
        assert(with_columns.has(c@[l as int]) && with_columns.has(c@[r as int]));
        let turned = b.rotl(c[r], 1);
        let ghost middle = *b;
        let both = b.bxor(c[l], turned);
        d.push(both);
        proof {
            assert forall|w: Seq<u64>, i: int|
                #![trigger b.computed(w), d@[i]]
                b.computed(w) && 0 <= i < x + 1 implies val(w, d@[i]) == column(
                vals(w, state@),
                (i + 4) % 5,
            ) ^ rotl(column(vals(w, state@), (i + 1) % 5), 1) by {
                assert(middle.computed(w) && before.computed(w) && with_columns.computed(w));
                if i < x {
                    assert(d@[i] == so_far[i]);
                } else {
                    assert(val(w, c@[l as int]) == column(vals(w, state@), l as int));
                    assert(val(w, c@[r as int]) == column(vals(w, state@), r as int));
                }
            }
        }
        x += 1;
    }
    let ghost with_sums = *b;
    let mut out: Vec<Wire> = Vec::new();
    let mut i: usize = 0;
    while i < 25
        invariant
            b.extends(*old(b)),
            b.extends(with_sums),
            old(b).has_all(state@),
            with_sums.has_all(d@),
            state@.len() == 25,
            d@.len() == 5,
            i == out@.len() <= 25,
            b.has_all(out@),
            forall|w: Seq<u64>, x: int|
                #![trigger with_sums.computed(w), d@[x]]
                with_sums.computed(w) && 0 <= x < 5 ==> val(w, d@[x]) == column(
                    vals(w, state@),
                    (x + 4) % 5,
                ) ^ rotl(column(vals(w, state@), (x + 1) % 5), 1),
            forall|w: Seq<u64>, j: int|
                #![trigger b.computed(w), out@[j]]
                b.computed(w) && 0 <= j < i ==> val(w, out@[j]) == theta(vals(w, state@))[j],
            b.only_computes(*old(b)),
        decreases 25 - i,
    {
        let ghost before = *b;
        let ghost so_far = out@;
        assert(old(b).has(state@[i as int]) && with_sums.has(d@[i as int % 5]));
        let lane = b.bxor(state[i], d[i % 5]);
        out.push(lane);
        proof {
            assert forall|w: Seq<u64>, j: int|
                #![trigger b.computed(w), out@[j]]
                b.computed(w) && 0 <= j < i + 1 implies val(w, out@[j]) == theta(
                vals(w, state@),
            )[j] by {
                assert(before.computed(w) && with_sums.computed(w));
                if j < i {
                    assert(out@[j] == so_far[j]);
                } else {
                    let x = j % 5;
                    assert(val(w, d@[x]) == column(vals(w, state@), (x + 4) % 5) ^ rotl(
                        column(vals(w, state@), (x + 1) % 5),
                        1,
                    ));
                    assert((x + 4) % 5 == (j + 4) % 5 && (x + 1) % 5 == (j + 1) % 5);
                }
            }
        }
        i += 1;
    }
    proof {
        assert forall|w: Seq<u64>| #[trigger] b.computed(w) implies vals(w, out@) == theta(
            vals(w, state@),
        ) by {
            assert forall|j: int| 0 <= j < 25 implies vals(w, out@)[j] == theta(
                vals(w, state@),
            )[j] by {
                assert(val(w, out@[j]) == theta(vals(w, state@))[j]);
            }
            assert(vals(w, out@) =~= theta(vals(w, state@)));
        }
    }
    out
}

/// The lanes of a state, each rotated and moved.
fn add_rho_pi(b: &mut CircuitBuilder, state: &Vec<Wire>) -> (out: Vec<Wire>)
    requires
        old(b).wf(),
        old(b).has_all(state@),
        state@.len() == 25,
    ensures
        final(b).extends(*old(b)),
        final(b).has_all(out@),
        out@.len() == 25,
        forall|w: Seq<u64>| #[trigger]
            final(b).computed(w) ==> vals(w, out@) == rho_pi(vals(w, state@)),
        final(b).only_computes(*old(b)),
{
    let mut out: Vec<Wire> = Vec::new();
    let mut i: usize = 0;
    while i < 25
        invariant
            b.extends(*old(b)),
            old(b).has_all(state@),
            state@.len() == 25,
            i == out@.len() <= 25,
            b.has_all(out@),
            forall|w: Seq<u64>, j: int|
                #![trigger b.computed(w), out@[j]]
                b.computed(w) && 0 <= j < i ==> val(w, out@[j]) == rho_pi(vals(w, state@))[j],
            b.only_computes(*old(b)),
        decreases 25 - i,
    {
        let ghost before = *b;
        let ghost so_far = out@;
        let from: usize = (i % 5 + 3 * (i / 5)) % 5 + 5 * (i % 5);
        assert(from == moved_from(i as int));
        assert(old(b).has(state@[from as int]));
        proof {
            lemma_rotations(from as int);
        }
        let lane = b.rotl(state[from], ROTATIONS[from]);
        out.push(lane);
        proof {
            assert forall|w: Seq<u64>, j: int|
                #![trigger b.computed(w), out@[j]]
                b.computed(w) && 0 <= j < i + 1 implies val(w, out@[j]) == rho_pi(
                vals(w, state@),
            )[j] by {
                assert(before.computed(w));
                if j < i {
                    assert(out@[j] == so_far[j]);
                }
            }
        }
        i += 1;
    }
    proof {
        assert forall|w: Seq<u64>| #[trigger] b.computed(w) implies vals(w, out@) == rho_pi(
            vals(w, state@),
        ) by {
            assert forall|j: int| 0 <= j < 25 implies vals(w, out@)[j] == rho_pi(
                vals(w, state@),
            )[j] by {
                assert(val(w, out@[j]) == rho_pi(vals(w, state@))[j]);
            }
            assert(vals(w, out@) =~= rho_pi(vals(w, state@)));
        }
    }
    out
}

/// No lane is rotated by its width.
proof fn lemma_rotations(i: int)
    requires
        0 <= i < 25,
    ensures
        ROTATIONS[i] < 64,
{
}

/// Every lane of a state, with the two that follow it in its row.
fn add_chi(b: &mut CircuitBuilder, state: &Vec<Wire>) -> (out: Vec<Wire>)
    requires
        old(b).wf(),
        old(b).has_all(state@),
        state@.len() == 25,
    ensures
        final(b).extends(*old(b)),
        final(b).has_all(out@),
        out@.len() == 25,
        forall|w: Seq<u64>| #[trigger]
            final(b).computed(w) ==> vals(w, out@) == chi(vals(w, state@)),
        final(b).only_computes(*old(b)),
{
    let mut out: Vec<Wire> = Vec::new();
    let mut i: usize = 0;
    while i < 25
        invariant
            b.extends(*old(b)),
            old(b).has_all(state@),
            state@.len() == 25,
            i == out@.len() <= 25,
            b.has_all(out@),
            forall|w: Seq<u64>, j: int|
                #![trigger b.computed(w), out@[j]]
                b.computed(w) && 0 <= j < i ==> val(w, out@[j]) == chi(vals(w, state@))[j],
            b.only_computes(*old(b)),
        decreases 25 - i,
    {
        let ghost before = *b;
        let ghost so_far = out@;
        let next: usize = 5 * (i / 5) + (i + 1) % 5;
        let after: usize = 5 * (i / 5) + (i + 2) % 5;
        assert(old(b).has(state@[i as int]) && old(b).has(state@[next as int]) && old(b).has(
            state@[after as int],
        ));
        let flipped = b.bnot(state[next]);
        let ghost b1 = *b;
        let both = b.band(flipped, state[after]);
        let ghost b2 = *b;
        let lane = b.bxor(state[i], both);
        out.push(lane);
        proof {
            assert forall|w: Seq<u64>, j: int|
                #![trigger b.computed(w), out@[j]]
                b.computed(w) && 0 <= j < i + 1 implies val(w, out@[j]) == chi(
                vals(w, state@),
            )[j] by {
                assert(b2.computed(w) && b1.computed(w) && before.computed(w));
                if j < i {
                    assert(out@[j] == so_far[j]);
                }
            }
        }
        i += 1;
    }
    proof {
        assert forall|w: Seq<u64>| #[trigger] b.computed(w) implies vals(w, out@) == chi(
            vals(w, state@),
        ) by {
            assert forall|j: int| 0 <= j < 25 implies vals(w, out@)[j] == chi(
                vals(w, state@),
            )[j] by {
                assert(val(w, out@[j]) == chi(vals(w, state@))[j]);
            }
            assert(vals(w, out@) =~= chi(vals(w, state@)));
        }
    }
    out
}

/// One round on a state.
fn add_round(b: &mut CircuitBuilder, state: &Vec<Wire>, rc: u64) -> (out: Vec<Wire>)
    requires
        old(b).wf(),
        old(b).has_all(state@),
        state@.len() == 25,
    ensures
        final(b).extends(*old(b)),
        final(b).has_all(out@),
        out@.len() == 25,
        forall|w: Seq<u64>| #[trigger]
            final(b).computed(w) ==> vals(w, out@) == round(vals(w, state@), rc),
        final(b).only_computes(*old(b)),
{
    let mixed = add_theta(b, state);
    let ghost b1 = *b;
    let moved = add_rho_pi(b, &mixed);
    let ghost b2 = *b;
    let mut out = add_chi(b, &moved);
    let ghost b3 = *b;
    let ghost rows = out@;
    let constant = b.add_constant(rc);
    let ghost b4 = *b;
    assert(b3.has(out@[0]));
    let first = b.bxor(out[0], constant);
    out.set(0, first);
    proof {
        assert forall|w: Seq<u64>| #[trigger] b.computed(w) implies vals(w, out@) == round(
            vals(w, state@),
            rc,
        ) by {
            assert(b4.computed(w) && b3.computed(w) && b2.computed(w) && b1.computed(w));
            assert(vals(w, rows)[0] == val(w, rows[0]));
            assert(vals(w, out@) =~= iota(vals(w, rows), rc));
        }
        assert forall|i: int| 0 <= i < out@.len() implies b.has(#[trigger] out@[i]) by {
            if i > 0 {
                assert(b3.has(rows[i]));
            }
        }
    }
    out
}

impl Permutation {
    /// The permutation on a state.
    pub fn keccak_f1600(b: &mut CircuitBuilder, state: &mut Vec<Wire>)
        requires
            old(b).wf(),
            old(b).has_all(old(state)@),
            old(state)@.len() == 25,
        ensures
            final(b).extends(*old(b)),
            final(b).has_all(final(state)@),
            final(state)@.len() == 25,
            forall|w: Seq<u64>| #[trigger]
                final(b).computed(w) ==> vals(w, final(state)@) == keccak_f(vals(w, old(state)@)),
            final(b).only_computes(*old(b)),
    {
        let ghost start = state@;
        let mut n: usize = 0;
        while n < 24
            invariant
                n <= 24,
                b.extends(*old(b)),
                b.has_all(state@),
                state@.len() == 25,
                forall|w: Seq<u64>| #[trigger]
                    b.computed(w) ==> vals(w, state@) == rounds(vals(w, start), n as int),
                b.only_computes(*old(b)),
            decreases 24 - n,
        {
            let ghost before = *b;
            let next = add_round(b, state, ROUND_CONSTANTS[n]);
            *state = next;
            proof {
                assert forall|w: Seq<u64>| #[trigger] b.computed(w) implies vals(w, state@)
                    == rounds(vals(w, start), n + 1) by {
                    assert(before.computed(w));
                }
            }
            n += 1;
        }
        proof {
            reveal(keccak_f);
        }
    }
}

} // verus!
