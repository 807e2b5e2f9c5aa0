//! Bitboard primitives: membership of a square, building a bitboard
//! from a predicate, and the least significant set bit.

use vstd::prelude::*;
use crate::basetypes::{Bitboard, Square};

verus! {

/// Whether square `i` is in bitboard `b`.
pub open spec fn has_bit(b: u64, i: int) -> bool {
    0 <= i < 64 && (b >> (i as u64)) & 1u64 == 1u64
}

/// The bitboard that holds exactly the squares below `n` for which `p`
/// holds.
pub open spec fn bitboard_of(p: spec_fn(int) -> bool, n: nat) -> u64
    decreases n,
{
    if n == 0 {
        0u64
    } else if p(n - 1) {
        bitboard_of(p, (n - 1) as nat) | (1u64 << ((n - 1) as u64))
    } else {
        bitboard_of(p, (n - 1) as nat)
    }
}

/// The empty bitboard holds no square.
pub proof fn lemma_empty_has_no_bit(i: int)
    ensures
        !has_bit(0u64, i),
{
    if 0 <= i < 64 {
        let k = i as u64;
        assert((0u64 >> k) & 1u64 == 0u64) by (bit_vector);
    }
}

/// Bit-level facts about `|` with a single bit.
proof fn lemma_or_single_bit(x: u64, n: u64, i: u64)
    requires
        n < 64,
        i < 64,
    ensures
        ((x | (1u64 << n)) >> i) & 1u64 == 1u64 <==> ((x >> i) & 1u64 == 1u64 || i == n),
{
    assert(n < 64 && i < 64 ==> (((x | (1u64 << n)) >> i) & 1u64 == 1u64 <==> ((x >> i) & 1u64
        == 1u64 || i == n))) by (bit_vector);
}

/// A square is in `bitboard_of(p, n)` exactly when it is below `n` and
/// satisfies `p`.
pub proof fn lemma_bitboard_of(p: spec_fn(int) -> bool, n: nat, i: int)
    requires
        n <= 64,
        0 <= i < 64,
    ensures
        has_bit(bitboard_of(p, n), i) <==> (i < n && p(i)),
    decreases n,
{
    if n > 0 {
        lemma_bitboard_of(p, (n - 1) as nat, i);
        if p(n - 1) {
            lemma_or_single_bit(bitboard_of(p, (n - 1) as nat), (n - 1) as u64, i as u64);
        }
    } else {
        lemma_empty_has_no_bit(i);
    }
}

/// Where `a` and `b` agree on every bit from `n` up, `a ^ b` shifted
/// right by `n` is zero.
proof fn lemma_xor_high_bits_zero(a: u64, b: u64, n: u64)
    requires
        n < 64,
        forall|i: int| n <= i < 64 ==> (has_bit(a, i) <==> has_bit(b, i)),
    ensures
        (a ^ b) >> n == 0,
    decreases 64 - n,
{
    assert(has_bit(a, n as int) <==> has_bit(b, n as int));
    assert(n < 64 ==> (((a >> n) & 1u64 == 1u64) <==> ((b >> n) & 1u64 == 1u64)) ==> ((a ^ b)
        >> n) & 1u64 == 0u64) by (bit_vector);
    if n == 63 {
        assert(((a ^ b) >> 63u64) & 1u64 == 0u64 ==> (a ^ b) >> 63u64 == 0u64) by (bit_vector);
    } else {
        lemma_xor_high_bits_zero(a, b, (n + 1) as u64);
        assert(n < 63 && (a ^ b) >> (n + 1) == 0u64 && ((a ^ b) >> n) & 1u64 == 0u64 ==> (a ^ b)
            >> n == 0u64) by (bit_vector);
    }
}

/// Two bitboards with the same squares are equal.
pub proof fn lemma_bitboard_ext(a: u64, b: u64)
    requires
        forall|i: int| 0 <= i < 64 ==> (has_bit(a, i) <==> has_bit(b, i)),
    ensures
        a == b,
{
    lemma_xor_high_bits_zero(a, b, 0);
    assert((a ^ b) >> 0u64 == 0u64 ==> a == b) by (bit_vector);
}

/// A square is in `a & b` when it is in both, in `a | b` when it is in
/// either.
pub proof fn lemma_and_or_bits(a: u64, b: u64, i: int)
    ensures
        has_bit(a & b, i) <==> has_bit(a, i) && has_bit(b, i),
        has_bit(a | b, i) <==> has_bit(a, i) || has_bit(b, i),
{
    if 0 <= i < 64 {
        let k = i as u64;
        assert(k < 64 ==> ((((a & b) >> k) & 1u64 == 1u64) <==> ((a >> k) & 1u64 == 1u64 && (b
            >> k) & 1u64 == 1u64))) by (bit_vector);
        assert(k < 64 ==> ((((a | b) >> k) & 1u64 == 1u64) <==> ((a >> k) & 1u64 == 1u64 || (b
            >> k) & 1u64 == 1u64))) by (bit_vector);
    }
}

/// The index of the lowest set bit of `b` at or above `i`, 64 if none.
pub open spec fn lowest_bit_from(b: u64, i: int) -> int
    decreases 64 - i,
{
    if i >= 64 {
        64
    } else if has_bit(b, i) {
        i
    } else {
        lowest_bit_from(b, i + 1)
    }
}

/// The index of the lowest set bit of `b`, 64 if `b` is empty.
pub open spec fn lowest_bit(b: u64) -> int {
    lowest_bit_from(b, 0)
}

/// The least significant set bit of `b`, as a bitboard; 0 if `b` is
/// empty.
pub open spec fn ls1b_spec(b: u64) -> u64 {
    if lowest_bit(b) < 64 {
        1u64 << (lowest_bit(b) as u64)
    } else {
        0u64
    }
}

/// A nonzero bitboard has a set bit, and the lowest one is set.
pub proof fn lemma_lowest_bit_nonzero(b: u64)
    requires
        b != 0,
    ensures
        0 <= lowest_bit(b) < 64,
        has_bit(b, lowest_bit(b)),
        forall|j: int| 0 <= j < lowest_bit(b) ==> !has_bit(b, j),
{
    lemma_lowest_bit_from(b, 0);
    if lowest_bit(b) >= 64 {
        assert forall|i: int| 0 <= i < 64 implies has_bit(b, i) == has_bit(0u64, i) by {
            lemma_empty_has_no_bit(i);
        }
        lemma_bitboard_ext(b, 0u64);
    }
}

proof fn lemma_lowest_bit_from(b: u64, i: int)
    requires
        0 <= i <= 64,
    ensures
        i <= lowest_bit_from(b, i) <= 64,
        lowest_bit_from(b, i) < 64 ==> has_bit(b, lowest_bit_from(b, i)),
        forall|j: int| i <= j < lowest_bit_from(b, i) ==> !has_bit(b, j),
    decreases 64 - i,
{
    if i < 64 && !has_bit(b, i) {
        lemma_lowest_bit_from(b, i + 1);
    }
}

/// Returns the index of the lowest set bit of a nonzero bitboard.
pub fn bitscan_forward(b: Bitboard) -> (r: Square)
    requires
        b != 0,
    ensures
        r == lowest_bit(b),
        r < 64,
{
    proof {
        lemma_lowest_bit_nonzero(b);
    }
    let mut i: u64 = 0;
    while (b >> i) & 1 != 1
        invariant
            0 <= i <= lowest_bit(b) < 64,
            forall|j: int| 0 <= j < i ==> !has_bit(b, j),
            lowest_bit(b) == lowest_bit_from(b, i as int),
            has_bit(b, lowest_bit(b)),
        decreases 64 - i,
    {
        i = i + 1;
    }
    i as Square
}

/// Returns the least significant set bit of `b` as a bitboard, 0 if
/// `b` is empty.
pub fn ls1b(b: Bitboard) -> (r: Bitboard)
    ensures
        r == ls1b_spec(b),
{
    if b == 0 {
        proof {
            lemma_lowest_bit_from(b, 0);
            assert forall|i: int| 0 <= i < 64 implies !has_bit(b, i) by {
                lemma_empty_has_no_bit(i);
            }
        }
        0
    } else {
        let i = bitscan_forward(b);
        1u64 << (i as u64)
    }
}

} // verus!
