//! Bit-level view of a 64-bit occupancy mask.
//!
//! Bit `y*8 + x` of a mask stands for the board square `(x, y)`, with
//! `x` the file and `y` the rank, both in `0..8`. The spec functions here
//! give masks their meaning square by square; the lemmas lift the bitwise
//! operators to that square-level view.

use vstd::prelude::*;

verus! {

/// A 64-bit occupancy mask, one bit per board square.
pub type BitBoard = u64;

/// True when bit `i` of `b` is set.
pub open spec fn nth_bit(b: u64, i: u64) -> bool {
    (b >> i) & 1u64 == 1u64
}

/// True when `(x, y)` lies on the 8x8 board.
pub open spec fn in_board(x: int, y: int) -> bool {
    0 <= x < 8 && 0 <= y < 8
}

/// True when the square `(x, y)` is occupied in the mask `b`.
pub open spec fn bit_at(b: u64, x: int, y: int) -> bool {
    nth_bit(b, (y * 8 + x) as u64)
}

/// The mask holding exactly the square `(x, y)`.
pub open spec fn sq_mask(x: int, y: int) -> u64 {
    1u64 << ((y * 8 + x) as u64)
}

/// A mask holding exactly one square of the board.
pub open spec fn is_single_bit(mv: u64) -> bool {
    exists|x: int, y: int| in_board(x, y) && mv == sq_mask(x, y)
}

/// The number of set bits among the low `n` bits of `b`.
pub open spec fn pop_upto(b: u64, n: nat) -> nat
    decreases n,
{
    if n == 0 {
        0
    } else {
        pop_upto(b, (n - 1) as nat) + if nth_bit(b, (n - 1) as u64) {
            1nat
        } else {
            0nat
        }
    }
}

/// The number of set bits of `b`: the disk count of an occupancy mask.
pub open spec fn pop(b: u64) -> nat {
    pop_upto(b, 64)
}

/// Union of masks is square-wise disjunction.
pub proof fn lemma_bit_or(a: u64, b: u64, x: int, y: int)
    requires
        in_board(x, y),
    ensures
        bit_at(a | b, x, y) == (bit_at(a, x, y) || bit_at(b, x, y)),
{
    let i = (y * 8 + x) as u64;
    assert(((((a | b) >> i) & 1u64) == 1u64) == ((((a >> i) & 1u64) == 1u64) || (((b >> i)
        & 1u64) == 1u64))) by (bit_vector);
}

/// Intersection of masks is square-wise conjunction.
pub proof fn lemma_bit_and(a: u64, b: u64, x: int, y: int)
    requires
        in_board(x, y),
    ensures
        bit_at(a & b, x, y) == (bit_at(a, x, y) && bit_at(b, x, y)),
{
    let i = (y * 8 + x) as u64;
    assert(((((a & b) >> i) & 1u64) == 1u64) == ((((a >> i) & 1u64) == 1u64) && (((b >> i)
        & 1u64) == 1u64))) by (bit_vector);
}

/// Complement of a mask is square-wise negation.
pub proof fn lemma_bit_not(a: u64, x: int, y: int)
    requires
        in_board(x, y),
    ensures
        bit_at(!a, x, y) == !bit_at(a, x, y),
{
    let i = (y * 8 + x) as u64;
    assert(i < 64);
    assert((((!a >> i) & 1u64) == 1u64) == !(((a >> i) & 1u64) == 1u64)) by (bit_vector)
        requires
            i < 64u64,
    ;
}

/// The empty mask holds no square.
pub proof fn lemma_bit_zero(x: int, y: int)
    requires
        in_board(x, y),
    ensures
        !bit_at(0u64, x, y),
{
    let i = (y * 8 + x) as u64;
    assert(!(((0u64 >> i) & 1u64) == 1u64)) by (bit_vector);
}

proof fn lemma_some_bit_from(c: u64, k: u64)
    requires
        k < 64,
        c >> k != 0,
    ensures
        exists|i: u64| k <= i < 64 && nth_bit(c, i),
    decreases 64 - k,
{
    if (c >> k) & 1u64 == 1u64 {
        assert(nth_bit(c, k));
    } else {
        assert(k < 63 && (c >> (k + 1) as u64) != 0) by (bit_vector)
            requires
                k < 64u64 && c >> k != 0 && !((c >> k) & 1u64 == 1u64),
        ;
        lemma_some_bit_from(c, (k + 1) as u64);
    }
}

/// A nonzero mask holds some bit.
pub proof fn lemma_some_bit(c: u64)
    requires
        c != 0,
    ensures
        exists|i: u64| i < 64 && nth_bit(c, i),
{
    assert(c >> 0u64 != 0) by (bit_vector)
        requires
            c != 0,
    ;
    lemma_some_bit_from(c, 0);
}

/// Two masks agreeing on every board square are equal.
pub proof fn lemma_mask_ext(a: u64, b: u64)
    requires
        forall|x: int, y: int| in_board(x, y) ==> bit_at(a, x, y) == bit_at(b, x, y),
    ensures
        a == b,
{
    if a != b {
        assert(a ^ b != 0) by (bit_vector)
            requires
                a != b,
        ;
        lemma_some_bit(a ^ b);
        let i = choose|i: u64| i < 64 && nth_bit(a ^ b, i);
        assert((((a >> i) & 1u64) == 1u64) != (((b >> i) & 1u64) == 1u64)) by (bit_vector)
            requires
                ((a ^ b) >> i) & 1u64 == 1u64,
        ;
        let x = (i as int) % 8;
        let y = (i as int) / 8;
        assert(in_board(x, y));
        assert(y * 8 + x == i as int);
        assert(bit_at(a, x, y) == bit_at(b, x, y));
        assert(false);
    }
}

/// A mask empty on every board square is zero.
pub proof fn lemma_mask_empty(a: u64)
    requires
        forall|x: int, y: int| in_board(x, y) ==> !bit_at(a, x, y),
    ensures
        a == 0,
{
    assert forall|x: int, y: int| in_board(x, y) implies bit_at(a, x, y) == bit_at(0u64, x, y) by {
        lemma_bit_zero(x, y);
    };
    lemma_mask_ext(a, 0);
}

/// Union of masks does not depend on the order of its arguments.
pub proof fn lemma_or_comm(a: u64, b: u64)
    ensures
        a | b == b | a,
{
    assert(a | b == b | a) by (bit_vector);
}

/// Intersection of masks does not depend on the order of its arguments.
pub proof fn lemma_and_comm(a: u64, b: u64)
    ensures
        a & b == b & a,
{
    assert(a & b == b & a) by (bit_vector);
}

/// A bit count over `n` bits is at most `n`.
pub proof fn lemma_pop_upto_le(b: u64, n: nat)
    ensures
        pop_upto(b, n) <= n,
    decreases n,
{
    if n > 0 {
        lemma_pop_upto_le(b, (n - 1) as nat);
    }
}

/// Disjoint masks have additive bit counts.
pub proof fn lemma_pop_or_disjoint(a: u64, b: u64, n: nat)
    requires
        a & b == 0,
    ensures
        pop_upto(a | b, n) == pop_upto(a, n) + pop_upto(b, n),
    decreases n,
{
    if n > 0 {
        lemma_pop_or_disjoint(a, b, (n - 1) as nat);
        let i = (n - 1) as u64;
        assert(((((a | b) >> i) & 1u64) == 1u64) == ((((a >> i) & 1u64) == 1u64) || (((b >> i)
            & 1u64) == 1u64))) by (bit_vector);
        assert(!((((a >> i) & 1u64) == 1u64) && (((b >> i) & 1u64) == 1u64))) by (bit_vector)
            requires
                a & b == 0u64,
        ;
    }
}

proof fn lemma_pop_upto_single(k: u64, n: nat)
    requires
        k < 64,
        n <= 64,
    ensures
        pop_upto(1u64 << k, n) == if k < n {
            1nat
        } else {
            0nat
        },
    decreases n,
{
    if n > 0 {
        lemma_pop_upto_single(k, (n - 1) as nat);
        let i = (n - 1) as u64;
        assert(((((1u64 << k) >> i) & 1u64) == 1u64) == (i == k)) by (bit_vector)
            requires
                k < 64u64 && i < 64u64,
        ;
    }
}

/// A one-square mask counts one disk.
pub proof fn lemma_pop_single(x: int, y: int)
    requires
        in_board(x, y),
    ensures
        pop(sq_mask(x, y)) == 1,
{
    let k = (y * 8 + x) as u64;
    lemma_pop_upto_single(k, 64);
}

} // verus!
