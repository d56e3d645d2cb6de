//! The Keccak-f\[1600\] permutation and the Keccak-256 sponge on it, as mathematics. A state is 25
//! words; word `x + 5 * y` is lane `(x, y)`.

use vstd::prelude::*;

use crate::circuit::semantics::rotl;

verus! {

/// The word that each round adds to the first lane.
pub const ROUND_CONSTANTS: [u64; 24] = [
    0x0000_0000_0000_0001,
    0x0000_0000_0000_8082,
    0x8000_0000_0000_808A,
    0x8000_0000_8000_8000,
    0x0000_0000_0000_808B,
    0x0000_0000_8000_0001,
    0x8000_0000_8000_8081,
    0x8000_0000_0000_8009,
    0x0000_0000_0000_008A,
    0x0000_0000_0000_0088,
    0x0000_0000_8000_8009,
    0x0000_0000_8000_000A,
    0x0000_0000_8000_808B,
    0x8000_0000_0000_008B,
    0x8000_0000_0000_8089,
    0x8000_0000_0000_8003,
    0x8000_0000_0000_8002,
    0x8000_0000_0000_0080,
    0x0000_0000_0000_800A,
    0x8000_0000_8000_000A,
    0x8000_0000_8000_8081,
    0x8000_0000_0000_8080,
    0x0000_0000_8000_0001,
    0x8000_0000_8000_8008,
];

/// By how much each lane is rotated.
pub const ROTATIONS: [u32; 25] = [
    0, 1, 62, 28, 27, 36, 44, 6, 55, 20, 3, 10, 43, 25, 39, 41, 45, 15, 21, 8, 18, 2, 61, 56, 14,
];

/// The parity of a column.
pub open spec fn column(s: Seq<u64>, x: int) -> u64 {
    s[x] ^ s[x + 5] ^ s[x + 10] ^ s[x + 15] ^ s[x + 20]
}

/// Every lane, with the parities of two columns near its own.
pub open spec fn theta(s: Seq<u64>) -> Seq<u64> {
    Seq::new(
        25,
        |i: int| s[i] ^ (column(s, (i + 4) % 5) ^ rotl(column(s, (i + 1) % 5), 1)),
    )
}

/// The place of the lane that is moved to a place.
pub open spec fn moved_from(i: int) -> int {
    (i % 5 + 3 * (i / 5)) % 5 + 5 * (i % 5)
}

/// The lanes, each rotated and moved.
pub open spec fn rho_pi(s: Seq<u64>) -> Seq<u64> {
    Seq::new(25, |i: int| rotl(s[moved_from(i)], ROTATIONS[moved_from(i)]))
}

/// Every lane, with the two that follow it in its row.
pub open spec fn chi(s: Seq<u64>) -> Seq<u64> {
    Seq::new(
        25,
        |i: int| s[i] ^ (!s[5 * (i / 5) + (i + 1) % 5] & s[5 * (i / 5) + (i + 2) % 5]),
    )
}

/// The first lane, with a round's word.
pub open spec fn iota(s: Seq<u64>, rc: u64) -> Seq<u64> {
    s.update(0, s[0] ^ rc)
}

/// One round.
pub open spec fn round(s: Seq<u64>, rc: u64) -> Seq<u64> {
    iota(chi(rho_pi(theta(s))), rc)
}

/// The first `n` rounds.
pub open spec fn rounds(s: Seq<u64>, n: int) -> Seq<u64>
    decreases n,
{
    if n <= 0 {
        s
    } else {
        round(rounds(s, n - 1), ROUND_CONSTANTS[n - 1])
    }
}

/// The permutation.
#[verifier::opaque]
pub open spec fn keccak_f(s: Seq<u64>) -> Seq<u64> {
    rounds(s, 24)
}

} // verus!
