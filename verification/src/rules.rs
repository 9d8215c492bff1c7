//! The bracketing rule of Othello, stated square by square.
//!
//! A move is legal on an empty square when, in at least one direction, the
//! squares next to it form an unbroken run of at least one opponent disk
//! ended by a disk of the mover's own color. Applying the move flips every
//! opponent disk that lies between the placed disk and such an ending disk.

use vstd::prelude::*;
use crate::bits::bit_at;
use crate::bits::in_board;
use crate::bits::lemma_bit_and;
use crate::bits::lemma_bit_or;
use crate::dirs::Dir;
use crate::dirs::dx;
use crate::dirs::dy;
use crate::dirs::lemma_opposite;
use crate::dirs::lemma_shift_bit;
use crate::dirs::opposite;
use crate::dirs::shift_dir;

verus! {

/// From `(x, y)`, the next `m` squares in direction `d` hold opponent disks
/// and the square after them holds a disk of `target`. All of those squares
/// lie on the board. With `m == 0` this says only that the neighbouring
/// square in direction `d` holds a `target` disk.
pub open spec fn brackets(target: u64, opp: u64, d: Dir, x: int, y: int, m: nat) -> bool
    decreases m,
{
    if m == 0 {
        in_board(x + dx(d), y + dy(d)) && bit_at(target, x + dx(d), y + dy(d))
    } else {
        in_board(x + dx(d), y + dy(d)) && bit_at(opp, x + dx(d), y + dy(d)) && brackets(
            target,
            opp,
            d,
            x + dx(d),
            y + dy(d),
            (m - 1) as nat,
        )
    }
}

/// The square `(x, y)` brackets a run in direction `d`: at least one
/// opponent disk follows it in that direction, ended by an `own` disk.
/// A run on an 8-wide board can hold at most six opponent disks.
pub open spec fn bracketed(own: u64, opp: u64, d: Dir, x: int, y: int) -> bool {
    exists|m: nat| 1 <= m <= 6 && brackets(own, opp, d, x, y, m)
}

/// Placing a disk of the mover on the empty square `(x, y)` is legal:
/// the square is on the board, unoccupied, and brackets an opponent run
/// in some direction. `own` and `opp` are the mover's and the opponent's
/// occupancy masks.
pub open spec fn is_legal_move(own: u64, opp: u64, x: int, y: int) -> bool {
    in_board(x, y) && !bit_at(own, x, y) && !bit_at(opp, x, y) && exists|d: Dir|
        bracketed(own, opp, d, x, y)
}

/// The opponent disk at `(x, y)` is joined to a `seed` disk by an unbroken
/// straight line of at most `n - 1` further opponent disks running against
/// direction `d`: the flood of `shift_dir(_, d)` from `seed` through `opp`
/// reaches `(x, y)` within `n` steps.
pub open spec fn linked_within(seed: u64, opp: u64, d: Dir, x: int, y: int, n: nat) -> bool {
    bit_at(opp, x, y) && exists|m: nat| m < n && brackets(seed, opp, opposite(d), x, y, m)
}

/// `linked_within` at the full six steps a run can need.
pub open spec fn linked(seed: u64, opp: u64, d: Dir, x: int, y: int) -> bool {
    linked_within(seed, opp, d, x, y, 6)
}

/// The opponent disk at `(x, y)` flips when the mover places a disk given
/// by the one-square mask `mv`: it lies on the straight line of opponent
/// disks running from the placed disk in direction `d`, and an `own` disk
/// ends that line beyond it.
pub open spec fn flips_dir(own: u64, opp: u64, mv: u64, d: Dir, x: int, y: int) -> bool {
    linked(mv, opp, d, x, y) && exists|m: nat| m < 6 && brackets(own, opp, d, x, y, m)
}

/// The opponent disk at `(x, y)` flips in some direction when the mover
/// places a disk on the square given by the one-square mask `mv`.
pub open spec fn flips_at(own: u64, opp: u64, mv: u64, x: int, y: int) -> bool {
    exists|d: Dir| flips_dir(own, opp, mv, d, x, y)
}

/// The mask `m` holds exactly the legal moves on a board whose mover owns
/// `own` and whose opponent owns `opp`. This pins `m` completely: any two
/// masks satisfying it are equal.
pub open spec fn moves_mask_correct(own: u64, opp: u64, m: u64) -> bool {
    forall|x: int, y: int| in_board(x, y) ==> (bit_at(m, x, y) == is_legal_move(own, opp, x, y))
}

/// The mask `m` is the mover's mask after placing the disk `mv` on the
/// board `(own, opp)`: the old disks, the placed disk, and every flipped
/// disk.
pub open spec fn applied_own_correct(own: u64, opp: u64, mv: u64, m: u64) -> bool {
    forall|x: int, y: int|
        in_board(x, y) ==> (bit_at(m, x, y) == (bit_at(own, x, y) || bit_at(mv, x, y) || flips_at(
            own,
            opp,
            mv,
            x,
            y,
        )))
}

/// The mask `m` is the opponent's mask after the mover places the disk
/// `mv` on the board `(own, opp)`: the old disks less every flipped disk.
pub open spec fn applied_opp_correct(own: u64, opp: u64, mv: u64, m: u64) -> bool {
    forall|x: int, y: int|
        in_board(x, y) ==> (bit_at(m, x, y) == (bit_at(opp, x, y) && !flips_at(
            own,
            opp,
            mv,
            x,
            y,
        )))
}

/// One flood step from `seed`: the first frontier is the opponent disks a
/// single step along `d` from a seed disk.
pub proof fn lemma_flood_base(seed: u64, opp: u64, d: Dir)
    ensures
        forall|x: int, y: int|
            in_board(x, y) ==> (bit_at(opp & shift_dir(seed, d), x, y) == linked_within(
                seed,
                opp,
                d,
                x,
                y,
                1,
            )),
{
    let e = opposite(d);
    lemma_opposite(d);
    assert forall|x: int, y: int| in_board(x, y) implies (bit_at(opp & shift_dir(seed, d), x, y)
        == linked_within(seed, opp, d, x, y, 1)) by {
        lemma_bit_and(opp, shift_dir(seed, d), x, y);
        lemma_shift_bit(seed, d, x, y);
        let px = x + dx(e);
        let py = y + dy(e);
        assert(px == x - dx(d) && py == y - dy(d));
        if bit_at(opp & shift_dir(seed, d), x, y) {
            assert(brackets(seed, opp, e, x, y, 0));
            assert(linked_within(seed, opp, d, x, y, 1));
        }
        if linked_within(seed, opp, d, x, y, 1) {
            let m = choose|m: nat| m < 1 && brackets(seed, opp, e, x, y, m);
            assert(m == 0);
            assert(brackets(seed, opp, e, x, y, 0));
            assert(bit_at(opp & shift_dir(seed, d), x, y));
        }
    };
}

/// One more flood step: extending the frontier `t` one square along `d`
/// through opponent disks reaches exactly the disks linked within `n + 1`
/// steps.
pub proof fn lemma_flood_step(seed: u64, opp: u64, d: Dir, t: u64, n: nat)
    requires
        1 <= n,
        forall|x: int, y: int|
            in_board(x, y) ==> (bit_at(t, x, y) == linked_within(seed, opp, d, x, y, n)),
    ensures
        forall|x: int, y: int|
            in_board(x, y) ==> (bit_at(t | (opp & shift_dir(t, d)), x, y) == linked_within(
                seed,
                opp,
                d,
                x,
                y,
                (n + 1) as nat,
            )),
{
    let e = opposite(d);
    lemma_opposite(d);
    assert forall|x: int, y: int| in_board(x, y) implies (bit_at(
        t | (opp & shift_dir(t, d)),
        x,
        y,
    ) == linked_within(seed, opp, d, x, y, (n + 1) as nat)) by {
        let sh = shift_dir(t, d);
        lemma_bit_or(t, opp & sh, x, y);
        lemma_bit_and(opp, sh, x, y);
        lemma_shift_bit(t, d, x, y);
        let px = x + dx(e);
        let py = y + dy(e);
        assert(px == x - dx(d) && py == y - dy(d));
        if bit_at(t | (opp & sh), x, y) {
            if bit_at(t, x, y) {
                assert(linked_within(seed, opp, d, x, y, n));
                let m = choose|m: nat| m < n && brackets(seed, opp, e, x, y, m);
                assert(m < n + 1 && brackets(seed, opp, e, x, y, m));
                assert(linked_within(seed, opp, d, x, y, (n + 1) as nat));
            } else {
                assert(bit_at(opp, x, y) && in_board(px, py) && bit_at(t, px, py));
                assert(linked_within(seed, opp, d, px, py, n));
                let m = choose|m: nat| m < n && brackets(seed, opp, e, px, py, m);
                assert(brackets(seed, opp, e, x, y, (m + 1) as nat));
                assert(linked_within(seed, opp, d, x, y, (n + 1) as nat));
            }
        }
        if linked_within(seed, opp, d, x, y, (n + 1) as nat) {
            let m = choose|m: nat| m < n + 1 && brackets(seed, opp, e, x, y, m);
            if m < n {
                assert(linked_within(seed, opp, d, x, y, n));
                assert(bit_at(t, x, y));
            } else {
                assert(m >= 1 && brackets(seed, opp, e, x, y, m));
                assert(in_board(px, py) && bit_at(opp, px, py) && brackets(
                    seed,
                    opp,
                    e,
                    px,
                    py,
                    (m - 1) as nat,
                ));
                assert(linked_within(seed, opp, d, px, py, n));
                assert(bit_at(t, px, py));
                assert(bit_at(opp & sh, x, y));
            }
            assert(bit_at(t | (opp & sh), x, y));
        }
    };
}

} // verus!
