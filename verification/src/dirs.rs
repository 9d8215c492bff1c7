//! The eight compass directions and the edge-safe one-square shifts.
//!
//! A shift moves every disk of a mask one square in a direction; disks that
//! would leave the board are dropped. East/west components clear the
//! rightmost/leftmost file before shifting so that nothing wraps across a
//! board edge; pure north/south shifts push wrapped bits off the 64-bit mask
//! entirely, so they need no file mask.

use vstd::prelude::*;
use crate::bits::bit_at;
use crate::bits::in_board;
use crate::bits::nth_bit;

verus! {

/// One of the eight compass directions a run of disks can lie in.
#[derive(Clone, Copy, Debug, PartialEq, Eq, Structural)]
pub enum Dir {
    North,
    South,
    East,
    West,
    NorthEast,
    NorthWest,
    SouthEast,
    SouthWest,
}

/// Every file but the rightmost (x = 7).
pub const NOT_FILE_EAST: u64 = 0x7f7f7f7f7f7f7f7f;

/// Every file but the leftmost (x = 0).
pub const NOT_FILE_WEST: u64 = 0xfefefefefefefefe;

/// The file displacement of a direction.
pub open spec fn dx(d: Dir) -> int {
    match d {
        Dir::East | Dir::NorthEast | Dir::SouthEast => 1,
        Dir::West | Dir::NorthWest | Dir::SouthWest => -1,
        _ => 0,
    }
}

/// The rank displacement of a direction.
pub open spec fn dy(d: Dir) -> int {
    match d {
        Dir::North | Dir::NorthEast | Dir::NorthWest => 1,
        Dir::South | Dir::SouthEast | Dir::SouthWest => -1,
        _ => 0,
    }
}

/// The direction pointing the opposite way.
pub open spec fn opposite(d: Dir) -> Dir {
    match d {
        Dir::North => Dir::South,
        Dir::South => Dir::North,
        Dir::East => Dir::West,
        Dir::West => Dir::East,
        Dir::NorthEast => Dir::SouthWest,
        Dir::NorthWest => Dir::SouthEast,
        Dir::SouthEast => Dir::NorthWest,
        Dir::SouthWest => Dir::NorthEast,
    }
}

/// The mask `b` moved one square in direction `d`, dropping disks that
/// leave the board.
pub open spec fn shift_dir(b: u64, d: Dir) -> u64 {
    match d {
        Dir::North => b << 8u64,
        Dir::South => b >> 8u64,
        Dir::East => (b & NOT_FILE_EAST) << 1u64,
        Dir::West => (b & NOT_FILE_WEST) >> 1u64,
        Dir::NorthEast => (b & NOT_FILE_EAST) << 9u64,
        Dir::NorthWest => (b & NOT_FILE_WEST) << 7u64,
        Dir::SouthEast => (b & NOT_FILE_EAST) >> 7u64,
        Dir::SouthWest => (b & NOT_FILE_WEST) >> 9u64,
    }
}

/// Executes the one-square shift of `shift_dir`.
pub fn shift(b: u64, d: Dir) -> (r: u64)
    ensures
        r == shift_dir(b, d),
{
    match d {
        Dir::North => b << 8u64,
        Dir::South => b >> 8u64,
        Dir::East => (b & NOT_FILE_EAST) << 1u64,
        Dir::West => (b & NOT_FILE_WEST) >> 1u64,
        Dir::NorthEast => (b & NOT_FILE_EAST) << 9u64,
        Dir::NorthWest => (b & NOT_FILE_WEST) << 7u64,
        Dir::SouthEast => (b & NOT_FILE_EAST) >> 7u64,
        Dir::SouthWest => (b & NOT_FILE_WEST) >> 9u64,
    }
}

/// Executes `opposite`.
pub fn opposite_of(d: Dir) -> (r: Dir)
    ensures
        r == opposite(d),
{
    match d {
        Dir::North => Dir::South,
        Dir::South => Dir::North,
        Dir::East => Dir::West,
        Dir::West => Dir::East,
        Dir::NorthEast => Dir::SouthWest,
        Dir::NorthWest => Dir::SouthEast,
        Dir::SouthEast => Dir::NorthWest,
        Dir::SouthWest => Dir::NorthEast,
    }
}

/// Opposite directions displace by the negated deltas, and taking the
/// opposite twice gives the direction back.
pub proof fn lemma_opposite(d: Dir)
    ensures
        dx(opposite(d)) == -dx(d),
        dy(opposite(d)) == -dy(d),
        opposite(opposite(d)) == d,
{
    match d {
        Dir::North => {},
        Dir::South => {},
        Dir::East => {},
        Dir::West => {},
        Dir::NorthEast => {},
        Dir::NorthWest => {},
        Dir::SouthEast => {},
        Dir::SouthWest => {},
    }
}

/// A shifted mask holds `(x, y)` exactly when the unshifted mask holds the
/// square one step back against the direction, and that square is on the
/// board.
pub proof fn lemma_shift_bit(b: u64, d: Dir, x: int, y: int)
    requires
        in_board(x, y),
    ensures
        bit_at(shift_dir(b, d), x, y) == (in_board(x - dx(d), y - dy(d)) && bit_at(
            b,
            x - dx(d),
            y - dy(d),
        )),
{
    let xu = x as u64;
    let yu = y as u64;
    assert(y * 8 + x == (8 * yu + xu) as int);
    match d {
        Dir::North => {
            assert((((b << 8u64) >> ((8 * yu + xu) as u64)) & 1u64 == 1u64) == (yu >= 1 && ((b >> ((
            8 * yu + xu - 8) as u64)) & 1u64 == 1u64))) by (bit_vector)
                requires
                    xu < 8u64 && yu < 8u64,
            ;
            assert(yu >= 1 ==> (y - 1) * 8 + x == (8 * yu + xu - 8) as int);
        },
        Dir::South => {
            assert((((b >> 8u64) >> ((8 * yu + xu) as u64)) & 1u64 == 1u64) == (yu < 7 && ((b >> ((8
            * yu + xu + 8) as u64)) & 1u64 == 1u64))) by (bit_vector)
                requires
                    xu < 8u64 && yu < 8u64,
            ;
            assert(yu < 7 ==> (y + 1) * 8 + x == (8 * yu + xu + 8) as int);
        },
        Dir::East => {
            assert(((((b & NOT_FILE_EAST) << 1u64) >> ((8 * yu + xu) as u64)) & 1u64 == 1u64) == (xu
                >= 1 && ((b >> ((8 * yu + xu - 1) as u64)) & 1u64 == 1u64))) by (bit_vector)
                requires
                    xu < 8u64 && yu < 8u64,
            ;
            assert(xu >= 1 ==> y * 8 + (x - 1) == (8 * yu + xu - 1) as int);
        },
        Dir::West => {
            assert(((((b & NOT_FILE_WEST) >> 1u64) >> ((8 * yu + xu) as u64)) & 1u64 == 1u64) == (xu
                < 7 && ((b >> ((8 * yu + xu + 1) as u64)) & 1u64 == 1u64))) by (bit_vector)
                requires
                    xu < 8u64 && yu < 8u64,
            ;
            assert(xu < 7 ==> y * 8 + (x + 1) == (8 * yu + xu + 1) as int);
        },
        Dir::NorthEast => {
            assert(((((b & NOT_FILE_EAST) << 9u64) >> ((8 * yu + xu) as u64)) & 1u64 == 1u64) == (xu
                >= 1 && yu >= 1 && ((b >> ((8 * yu + xu - 9) as u64)) & 1u64 == 1u64))) by (bit_vector)
                requires
                    xu < 8u64 && yu < 8u64,
            ;
            assert(xu >= 1 && yu >= 1 ==> (y - 1) * 8 + (x - 1) == (8 * yu + xu - 9) as int);
        },
        Dir::NorthWest => {
            assert(((((b & NOT_FILE_WEST) << 7u64) >> ((8 * yu + xu) as u64)) & 1u64 == 1u64) == (xu
                < 7 && yu >= 1 && ((b >> ((8 * yu + xu - 7) as u64)) & 1u64 == 1u64))) by (bit_vector)
                requires
                    xu < 8u64 && yu < 8u64,
            ;
            assert(xu < 7 && yu >= 1 ==> (y - 1) * 8 + (x + 1) == (8 * yu + xu - 7) as int);
        },
        Dir::SouthEast => {
            assert(((((b & NOT_FILE_EAST) >> 7u64) >> ((8 * yu + xu) as u64)) & 1u64 == 1u64) == (xu
                >= 1 && yu < 7 && ((b >> ((8 * yu + xu + 7) as u64)) & 1u64 == 1u64))) by (bit_vector)
                requires
                    xu < 8u64 && yu < 8u64,
            ;
            assert(xu >= 1 && yu < 7 ==> (y + 1) * 8 + (x - 1) == (8 * yu + xu + 7) as int);
        },
        Dir::SouthWest => {
            assert(((((b & NOT_FILE_WEST) >> 9u64) >> ((8 * yu + xu) as u64)) & 1u64 == 1u64) == (xu
                < 7 && yu < 7 && ((b >> ((8 * yu + xu + 9) as u64)) & 1u64 == 1u64))) by (bit_vector)
                requires
                    xu < 8u64 && yu < 8u64,
            ;
            assert(xu < 7 && yu < 7 ==> (y + 1) * 8 + (x + 1) == (8 * yu + xu + 9) as int);
        },
    }
}

} // verus!
