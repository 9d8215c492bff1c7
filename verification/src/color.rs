//! The two players, and the three states a square can show.

use vstd::prelude::*;

verus! {

/// The two players. Turn order belongs to the caller: every engine
/// operation takes the acting color explicitly.
#[derive(Clone, Copy, Debug, PartialEq, Eq, Structural)]
pub enum Color {
    White,
    Black,
}

/// The state of one board square, as seen by queries.
#[derive(Clone, Copy, Debug, PartialEq, Eq, Structural)]
pub enum Square {
    Empty,
    White,
    Black,
}

/// The other player.
pub open spec fn other(c: Color) -> Color {
    match c {
        Color::White => Color::Black,
        Color::Black => Color::White,
    }
}

impl Color {
    /// Returns the other player.
    pub fn invert(self) -> (r: Color)
        ensures
            r == other(self),
    {
        match self {
            Color::White => Color::Black,
            Color::Black => Color::White,
        }
    }
}

} // verus!
