//! A bitboard engine for Othello/Reversi.
//!
//! A board is a pair of 64-bit occupancy masks, one per player, with bit
//! `y*8 + x` standing for the square `(x, y)`. The engine enumerates legal
//! moves and applies a move together with the disk flips it causes, as pure
//! functions from one board value to the next. Every operation is verified
//! against a coordinate-level statement of the game's bracketing rule.

pub mod bits;
pub mod color;
pub mod dirs;
pub mod laws;
pub mod othello;
pub mod rules;

pub use color::Color;
pub use color::Square;
pub use color::other;
pub use othello::Othello;
pub use bits::BitBoard;
pub use bits::in_board;
pub use bits::bit_at;
pub use bits::nth_bit;
pub use bits::sq_mask;
pub use bits::is_single_bit;
pub use bits::pop;
pub use bits::pop_upto;
