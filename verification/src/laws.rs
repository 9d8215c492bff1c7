//! Laws relating the engine's contracts.

use vstd::prelude::*;
use crate::bits::bit_at;
use crate::bits::in_board;
use crate::bits::lemma_mask_ext;
use crate::rules::applied_opp_correct;
use crate::rules::applied_own_correct;
use crate::rules::moves_mask_correct;

verus! {

/// Move generation is deterministic: its contract pins the result mask
/// completely, so any two masks meeting it for the same board and mover
/// are equal.
pub proof fn lemma_gen_moves_deterministic(own: u64, opp: u64, m1: u64, m2: u64)
    requires
        moves_mask_correct(own, opp, m1),
        moves_mask_correct(own, opp, m2),
    ensures
        m1 == m2,
{
    assert forall|x: int, y: int| in_board(x, y) implies bit_at(m1, x, y) == bit_at(
        m2,
        x,
        y,
    ) by {}
    lemma_mask_ext(m1, m2);
}

/// Move application is deterministic: its contract pins both resulting
/// masks completely, so any two results meeting it for the same board,
/// mover and move are equal.
pub proof fn lemma_make_move_deterministic(
    own: u64,
    opp: u64,
    mv: u64,
    own1: u64,
    opp1: u64,
    own2: u64,
    opp2: u64,
)
    requires
        applied_own_correct(own, opp, mv, own1),
        applied_opp_correct(own, opp, mv, opp1),
        applied_own_correct(own, opp, mv, own2),
        applied_opp_correct(own, opp, mv, opp2),
    ensures
        own1 == own2,
        opp1 == opp2,
{
    assert forall|x: int, y: int| in_board(x, y) implies bit_at(own1, x, y) == bit_at(
        own2,
        x,
        y,
    ) by {}
    lemma_mask_ext(own1, own2);
    assert forall|x: int, y: int| in_board(x, y) implies bit_at(opp1, x, y) == bit_at(
        opp2,
        x,
        y,
    ) by {}
    lemma_mask_ext(opp1, opp2);
}

} // verus!
