//! The board value and the move engine.
//!
//! An `Othello` is an immutable pair of occupancy masks, one per player.
//! Move generation and move application are pure functions: they return new
//! values and never touch shared state, so callers may retain, compare and
//! share board values freely, as a search tree does with ancestor states.

use vstd::prelude::*;
use crate::bits::BitBoard;
use crate::bits::bit_at;
use crate::bits::in_board;
use crate::bits::is_single_bit;
use crate::bits::lemma_bit_and;
use crate::bits::lemma_bit_not;
use crate::bits::lemma_bit_or;
use crate::bits::lemma_mask_empty;
use crate::bits::lemma_pop_or_disjoint;
use crate::bits::lemma_pop_single;
use crate::bits::lemma_pop_upto_le;
use crate::bits::pop;
use crate::bits::pop_upto;
use crate::color::Color;
use crate::color::Square;
use crate::color::other;
use crate::dirs::Dir;
use crate::dirs::dx;
use crate::dirs::dy;
use crate::dirs::lemma_opposite;
use crate::dirs::lemma_shift_bit;
use crate::dirs::opposite;
use crate::dirs::opposite_of;
use crate::dirs::shift;
use crate::dirs::shift_dir;
use crate::rules::applied_opp_correct;
use crate::rules::applied_own_correct;
use crate::rules::bracketed;
use crate::rules::brackets;
use crate::rules::flips_at;
use crate::rules::flips_dir;
use crate::rules::is_legal_move;
use crate::rules::lemma_flood_base;
use crate::rules::lemma_flood_step;
use crate::rules::linked;
use crate::rules::moves_mask_correct;

verus! {

/// An Othello position: the white player's and the black player's
/// occupancy masks. Square `(x, y)` is bit `y*8 + x` of a mask.
#[derive(Clone, Copy, Debug, PartialEq, Eq, Structural)]
pub struct Othello {
    /// White's occupancy mask.
    pub white: BitBoard,
    /// Black's occupancy mask.
    pub black: BitBoard,
}

impl Othello {
    /// No square is held by both players. `new` establishes this and
    /// `make_move` preserves it, so it holds of every reachable position.
    pub open spec fn inv(self) -> bool {
        self.white & self.black == 0
    }

    /// The occupancy mask of one player.
    pub open spec fn mask_of(self, c: Color) -> u64 {
        match c {
            Color::White => self.white,
            Color::Black => self.black,
        }
    }

    /// Every occupied square, of either color.
    pub open spec fn occupied(self) -> u64 {
        self.white | self.black
    }

    /// The state of the square `(x, y)`.
    pub open spec fn square_at(self, x: int, y: int) -> Square {
        if bit_at(self.white, x, y) {
            Square::White
        } else if bit_at(self.black, x, y) {
            Square::Black
        } else {
            Square::Empty
        }
    }

    /// The starting position: white disks on `(3, 3)` and `(4, 4)`, black
    /// disks on `(4, 3)` and `(3, 4)`.
    pub fn new() -> (r: Othello)
        ensures
            r.white == 0x0000001008000000u64,
            r.black == 0x0000000810000000u64,
            r.inv(),
            pop(r.white) == 2 && pop(r.black) == 2,
    {
        proof {
            assert(0x0000001008000000u64 & 0x0000000810000000u64 == 0u64) by (bit_vector);
            lemma_pop_single(3, 3);
            lemma_pop_single(4, 4);
            lemma_pop_single(4, 3);
            lemma_pop_single(3, 4);
            assert(crate::bits::sq_mask(3, 3) == 1u64 << 27u64);
            assert(crate::bits::sq_mask(4, 4) == 1u64 << 36u64);
            assert(crate::bits::sq_mask(4, 3) == 1u64 << 28u64);
            assert(crate::bits::sq_mask(3, 4) == 1u64 << 35u64);
            assert((1u64 << 27u64) & (1u64 << 36u64) == 0u64 && (1u64 << 27u64) | (1u64 << 36u64)
                == 0x0000001008000000u64) by (bit_vector);
            assert((1u64 << 28u64) & (1u64 << 35u64) == 0u64 && (1u64 << 28u64) | (1u64 << 35u64)
                == 0x0000000810000000u64) by (bit_vector);
            lemma_pop_or_disjoint(1u64 << 27u64, 1u64 << 36u64, 64);
            lemma_pop_or_disjoint(1u64 << 28u64, 1u64 << 35u64, 64);
        }
        Othello { white: 0x0000001008000000, black: 0x0000000810000000 }
    }

    /// A board from the two given masks.
    fn create(white: BitBoard, black: BitBoard) -> (r: Othello)
        ensures
            r.white == white,
            r.black == black,
    {
        Othello { white, black }
    }

    /// The occupancy mask of the given color.
    pub fn get_bitboard(&self, color: Color) -> (r: BitBoard)
        ensures
            r == self.mask_of(color),
    {
        match color {
            Color::White => self.white,
            Color::Black => self.black,
        }
    }

    /// The state of the square `(x, y)`, with `x` and `y` in `0..8`.
    pub fn get_square(&self, x: u8, y: u8) -> (r: Square)
        requires
            x < 8,
            y < 8,
        ensures
            r == self.square_at(x as int, y as int),
    {
        let i = (y as u64) * 8 + (x as u64);
        proof {
            assert(i == ((y as int) * 8 + (x as int)) as u64);
        }
        if (self.white >> i) & 1 == 1 {
            Square::White
        } else if (self.black >> i) & 1 == 1 {
            Square::Black
        } else {
            Square::Empty
        }
    }

    /// The legal-move mask for `playing`: a bit is set exactly on the
    /// empty squares where placing a disk of that color would bracket at
    /// least one opponent run. An all-zero result means the player has no
    /// legal move; pass and game-over policy belong to the caller. No
    /// legal move ever targets an occupied square.
    pub fn gen_moves(&self, playing: Color) -> (moves: BitBoard)
        ensures
            moves_mask_correct(self.mask_of(playing), self.mask_of(other(playing)), moves),
            moves & self.occupied() == 0,
    {
        let own = self.get_bitboard(playing);
        let opp = self.get_bitboard(playing.invert());
        let cn = candidates_in_dir(own, opp, Dir::North);
        let cs = candidates_in_dir(own, opp, Dir::South);
        let ce = candidates_in_dir(own, opp, Dir::East);
        let cw = candidates_in_dir(own, opp, Dir::West);
        let cne = candidates_in_dir(own, opp, Dir::NorthEast);
        let cnw = candidates_in_dir(own, opp, Dir::NorthWest);
        let cse = candidates_in_dir(own, opp, Dir::SouthEast);
        let csw = candidates_in_dir(own, opp, Dir::SouthWest);
        let raw = cn | cs | ce | cw | cne | cnw | cse | csw;
        let occ = own | opp;
        let moves = raw & !occ;
        proof {
            assert forall|x: int, y: int| in_board(x, y) implies (bit_at(moves, x, y)
                == is_legal_move(own, opp, x, y)) by {
                lemma_bit_and(raw, !occ, x, y);
                lemma_bit_not(occ, x, y);
                lemma_bit_or(own, opp, x, y);
                lemma_bit_or(cn, cs, x, y);
                lemma_bit_or(cn | cs, ce, x, y);
                lemma_bit_or(cn | cs | ce, cw, x, y);
                lemma_bit_or(cn | cs | ce | cw, cne, x, y);
                lemma_bit_or(cn | cs | ce | cw | cne, cnw, x, y);
                lemma_bit_or(cn | cs | ce | cw | cne | cnw, cse, x, y);
                lemma_bit_or(cn | cs | ce | cw | cne | cnw | cse, csw, x, y);
                if exists|d: Dir| bracketed(own, opp, d, x, y) {
                    let d0 = choose|d: Dir| bracketed(own, opp, d, x, y);
                    match d0 {
                        Dir::North => assert(bit_at(cs, x, y)),
                        Dir::South => assert(bit_at(cn, x, y)),
                        Dir::East => assert(bit_at(cw, x, y)),
                        Dir::West => assert(bit_at(ce, x, y)),
                        Dir::NorthEast => assert(bit_at(csw, x, y)),
                        Dir::NorthWest => assert(bit_at(cse, x, y)),
                        Dir::SouthEast => assert(bit_at(cnw, x, y)),
                        Dir::SouthWest => assert(bit_at(cne, x, y)),
                    }
                    assert(bit_at(raw, x, y));
                }
            };
            assert((raw & !occ) & occ == 0) by (bit_vector);
            crate::bits::lemma_or_comm(self.black, self.white);
        }
        moves
    }

    /// Applies the move `mv` for `playing`: places the disk and flips every
    /// bracketed opponent run, returning the new position; the input board
    /// is left unchanged. `mv` must hold exactly one empty square; the
    /// caller is trusted to draw it from `gen_moves`, and a non-legal empty
    /// square simply places the disk and flips nothing. Occupancy grows by
    /// exactly one square: the placement adds one disk and flips only
    /// change ownership.
    pub fn make_move(&self, playing: Color, mv: BitBoard) -> (r: Othello)
        requires
            self.inv(),
            is_single_bit(mv),
            mv & self.occupied() == 0,
        ensures
            r.inv(),
            r.occupied() == self.occupied() | mv,
            pop(r.occupied()) == pop(self.occupied()) + 1,
            applied_own_correct(
                self.mask_of(playing),
                self.mask_of(other(playing)),
                mv,
                r.mask_of(playing),
            ),
            applied_opp_correct(
                self.mask_of(playing),
                self.mask_of(other(playing)),
                mv,
                r.mask_of(other(playing)),
            ),
    {
        let own = self.get_bitboard(playing);
        let opp = self.get_bitboard(playing.invert());
        let f_n = flips_in_dir(own, opp, mv, Dir::North);
        let fs = flips_in_dir(own, opp, mv, Dir::South);
        let fe = flips_in_dir(own, opp, mv, Dir::East);
        let fw = flips_in_dir(own, opp, mv, Dir::West);
        let fne = flips_in_dir(own, opp, mv, Dir::NorthEast);
        let fnw = flips_in_dir(own, opp, mv, Dir::NorthWest);
        let fse = flips_in_dir(own, opp, mv, Dir::SouthEast);
        let fsw = flips_in_dir(own, opp, mv, Dir::SouthWest);
        let flip = f_n | fs | fe | fw | fne | fnw | fse | fsw;
        let own2 = own | mv | flip;
        let opp2 = opp & !flip;
        proof {
            crate::bits::lemma_or_comm(self.black, self.white);
            crate::bits::lemma_and_comm(self.black, self.white);
            assert(own | opp == self.occupied());
            assert(own & opp == 0);
            assert forall|x: int, y: int| in_board(x, y) implies (bit_at(flip, x, y) == flips_at(
                own,
                opp,
                mv,
                x,
                y,
            )) by {
                lemma_bit_or(f_n, fs, x, y);
                lemma_bit_or(f_n | fs, fe, x, y);
                lemma_bit_or(f_n | fs | fe, fw, x, y);
                lemma_bit_or(f_n | fs | fe | fw, fne, x, y);
                lemma_bit_or(f_n | fs | fe | fw | fne, fnw, x, y);
                lemma_bit_or(f_n | fs | fe | fw | fne | fnw, fse, x, y);
                lemma_bit_or(f_n | fs | fe | fw | fne | fnw | fse, fsw, x, y);
                if flips_at(own, opp, mv, x, y) {
                    let d0 = choose|d: Dir| flips_dir(own, opp, mv, d, x, y);
                    match d0 {
                        Dir::North => assert(bit_at(f_n, x, y)),
                        Dir::South => assert(bit_at(fs, x, y)),
                        Dir::East => assert(bit_at(fe, x, y)),
                        Dir::West => assert(bit_at(fw, x, y)),
                        Dir::NorthEast => assert(bit_at(fne, x, y)),
                        Dir::NorthWest => assert(bit_at(fnw, x, y)),
                        Dir::SouthEast => assert(bit_at(fse, x, y)),
                        Dir::SouthWest => assert(bit_at(fsw, x, y)),
                    }
                    assert(bit_at(flip, x, y));
                }
            };
            // every flipped disk was the opponent's
            assert forall|x: int, y: int| in_board(x, y) implies !bit_at(flip & !opp, x, y) by {
                lemma_bit_and(flip, !opp, x, y);
                lemma_bit_not(opp, x, y);
                if bit_at(flip, x, y) {
                    let d0 = choose|d: Dir| flips_dir(own, opp, mv, d, x, y);
                    assert(linked(mv, opp, d0, x, y));
                }
            };
            lemma_mask_empty(flip & !opp);
            assert(mv & opp == 0 && mv & own == 0) by (bit_vector)
                requires
                    mv & (own | opp) == 0u64,
            ;
            assert(own2 | opp2 == (own | opp) | mv) by (bit_vector)
                requires
                    own2 == own | mv | flip && opp2 == opp & !flip && flip & !opp == 0u64,
            ;
            assert(own2 & opp2 == 0) by (bit_vector)
                requires
                    own2 == own | mv | flip && opp2 == opp & !flip && own & opp == 0u64 && mv & opp
                        == 0u64,
            ;
            crate::bits::lemma_or_comm(own2, opp2);
            crate::bits::lemma_and_comm(own2, opp2);
            assert forall|x: int, y: int| in_board(x, y) implies (bit_at(own2, x, y) == (bit_at(
                own,
                x,
                y,
            ) || bit_at(mv, x, y) || flips_at(own, opp, mv, x, y))) by {
                lemma_bit_or(own, mv, x, y);
                lemma_bit_or(own | mv, flip, x, y);
                assert(bit_at(flip, x, y) == flips_at(own, opp, mv, x, y));
            };
            assert forall|x: int, y: int| in_board(x, y) implies (bit_at(opp2, x, y) == (bit_at(
                opp,
                x,
                y,
            ) && !flips_at(own, opp, mv, x, y))) by {
                lemma_bit_and(opp, !flip, x, y);
                lemma_bit_not(flip, x, y);
                assert(bit_at(flip, x, y) == flips_at(own, opp, mv, x, y));
            };
            // the one placed disk raises the occupancy count by one
            let (sx, sy) = choose|sx: int, sy: int|
                in_board(sx, sy) && mv == crate::bits::sq_mask(sx, sy);
            lemma_pop_single(sx, sy);
            crate::bits::lemma_and_comm(self.occupied(), mv);
            lemma_pop_or_disjoint(self.occupied(), mv, 64);
        }
        if playing == Color::White {
            Othello { white: own2, black: opp2 }
        } else {
            Othello { white: opp2, black: own2 }
        }
    }

    /// The score `(black disks, white disks)`: the population counts of
    /// the two masks. On a well-formed board the two counts sum to the
    /// number of occupied squares, at most 64.
    pub fn score(&self) -> (r: (u8, u8))
        ensures
            r.0 as nat == pop(self.black),
            r.1 as nat == pop(self.white),
            r.0 <= 64 && r.1 <= 64,
            self.inv() ==> r.0 as nat + r.1 as nat == pop(self.occupied()) && pop(self.occupied())
                <= 64,
    {
        proof {
            if self.white & self.black == 0 {
                lemma_pop_or_disjoint(self.white, self.black, 64);
                lemma_pop_upto_le(self.white | self.black, 64);
            }
        }
        (popcnt(self.black), popcnt(self.white))
    }
}

/// The number of set bits of a mask.
fn popcnt(b: u64) -> (r: u8)
    ensures
        r as nat == pop(b),
        r <= 64,
{
    let mut c: u8 = 0;
    let mut i: u64 = 0;
    while i < 64
        invariant
            i <= 64,
            c as nat == pop_upto(b, i as nat),
            c <= i,
        decreases 64 - i,
    {
        if (b >> i) & 1 == 1 {
            c = c + 1;
        }
        i = i + 1;
    }
    c
}

/// The disks of `opp` joined to a disk of `seed` by an unbroken straight
/// line of `opp` disks running against `d`: six one-square flood steps from
/// `seed` along `d` through `opp`, the most a run on an 8-wide board can
/// need.
fn flood_ray(seed: u64, opp: u64, d: Dir) -> (t: u64)
    ensures
        forall|x: int, y: int| in_board(x, y) ==> (bit_at(t, x, y) == linked(seed, opp, d, x, y)),
{
    let mut t = opp & shift(seed, d);
    proof {
        lemma_flood_base(seed, opp, d);
        lemma_flood_step(seed, opp, d, t, 1);
    }
    t = t | (opp & shift(t, d));
    proof {
        lemma_flood_step(seed, opp, d, t, 2);
    }
    t = t | (opp & shift(t, d));
    proof {
        lemma_flood_step(seed, opp, d, t, 3);
    }
    t = t | (opp & shift(t, d));
    proof {
        lemma_flood_step(seed, opp, d, t, 4);
    }
    t = t | (opp & shift(t, d));
    proof {
        lemma_flood_step(seed, opp, d, t, 5);
    }
    t = t | (opp & shift(t, d));
    t
}

/// The squares that bracket an opponent run lying against `d`: the flood
/// from the mover's own disks along `d`, pushed one further square.
fn candidates_in_dir(own: u64, opp: u64, d: Dir) -> (r: u64)
    ensures
        forall|x: int, y: int|
            in_board(x, y) ==> (bit_at(r, x, y) == bracketed(own, opp, opposite(d), x, y)),
{
    let t = flood_ray(own, opp, d);
    let r = shift(t, d);
    proof {
        let e = opposite(d);
        lemma_opposite(d);
        assert forall|x: int, y: int| in_board(x, y) implies (bit_at(shift_dir(t, d), x, y)
            == bracketed(own, opp, e, x, y)) by {
            lemma_shift_bit(t, d, x, y);
            let px = x + dx(e);
            let py = y + dy(e);
            assert(px == x - dx(d) && py == y - dy(d));
            if in_board(px, py) && bit_at(t, px, py) {
                assert(linked(own, opp, d, px, py));
                let m = choose|m: nat| m < 6 && brackets(own, opp, e, px, py, m);
                assert(brackets(own, opp, e, x, y, (m + 1) as nat));
                assert(1 <= m + 1 <= 6);
                assert(bracketed(own, opp, e, x, y));
            }
            if bracketed(own, opp, e, x, y) {
                let m = choose|m: nat| 1 <= m <= 6 && brackets(own, opp, e, x, y, m);
                assert(in_board(px, py) && bit_at(opp, px, py) && brackets(
                    own,
                    opp,
                    e,
                    px,
                    py,
                    (m - 1) as nat,
                ));
                assert(linked(own, opp, d, px, py));
                assert(bit_at(t, px, py));
            }
        };
    }
    r
}

/// The opponent disks that flip in direction `d` when the mover places the
/// disk `mv`: the disks on the straight opponent line running from `mv`
/// along `d` that also have an own disk ending their line further along
/// `d`.
fn flips_in_dir(own: u64, opp: u64, mv: u64, d: Dir) -> (f: u64)
    ensures
        forall|x: int, y: int|
            in_board(x, y) ==> (bit_at(f, x, y) == flips_dir(own, opp, mv, d, x, y)),
{
    let t = flood_ray(mv, opp, d);
    let u = flood_ray(own, opp, opposite_of(d));
    let f = t & u;
    proof {
        lemma_opposite(d);
        assert forall|x: int, y: int| in_board(x, y) implies (bit_at(t & u, x, y) == flips_dir(
            own,
            opp,
            mv,
            d,
            x,
            y,
        )) by {
            lemma_bit_and(t, u, x, y);
            assert(bit_at(t, x, y) == linked(mv, opp, d, x, y));
            assert(bit_at(u, x, y) == linked(own, opp, opposite(d), x, y));
            assert(opposite(opposite(d)) == d);
        };
    }
    f
}

} // verus!
