use othello::Color;
use othello::Othello;
use othello::Square;

fn sq(x: u64, y: u64) -> u64 {
    1u64 << (y * 8 + x)
}

/// Leaf count with the pass convention stated at the interface: a side
/// without a legal move defers to the opponent at the same remaining depth.
fn leaves(oth: Othello, color: Color, depth: usize) -> u64 {
    if depth == 0 {
        return 1;
    }
    let mut moves = oth.gen_moves(color);
    if moves == 0 {
        if oth.gen_moves(color.invert()) == 0 {
            return 1;
        }
        return leaves(oth, color.invert(), depth);
    }
    let mut res: u64 = 0;
    while moves != 0 {
        let mv = moves & moves.wrapping_neg();
        moves ^= mv;
        res += leaves(oth.make_move(color, mv), color.invert(), depth - 1);
    }
    res
}

#[test]
fn test_initial_score() {
    let board = Othello::new();
    assert_eq!(board.score(), (2, 2));
}

#[test]
fn test_initial_position() {
    let board = Othello::new();
    assert_eq!(board.get_bitboard(Color::White), sq(3, 3) | sq(4, 4));
    assert_eq!(board.get_bitboard(Color::Black), sq(4, 3) | sq(3, 4));
    assert_eq!(board.get_square(3, 3), Square::White);
    assert_eq!(board.get_square(4, 4), Square::White);
    assert_eq!(board.get_square(4, 3), Square::Black);
    assert_eq!(board.get_square(3, 4), Square::Black);
    assert_eq!(board.get_square(0, 0), Square::Empty);
    assert_eq!(board.get_square(7, 7), Square::Empty);
}

#[test]
fn test_initial_moves() {
    let board = Othello::new();
    assert_eq!(board.gen_moves(Color::Black), sq(3, 2) | sq(2, 3) | sq(5, 4) | sq(4, 5));
    assert_eq!(board.gen_moves(Color::White), sq(4, 2) | sq(5, 3) | sq(2, 4) | sq(3, 5));
}

#[test]
fn test_first_move_flips() {
    let board = Othello::new();
    let next = board.make_move(Color::Black, sq(3, 2));
    assert_eq!(next.get_bitboard(Color::Black), sq(3, 2) | sq(3, 3) | sq(4, 3) | sq(3, 4));
    assert_eq!(next.get_bitboard(Color::White), sq(4, 4));
    assert_eq!(next.score(), (4, 1));
    assert_eq!(next.get_square(3, 3), Square::Black);
    // the input board is a value and stays as it was
    assert_eq!(board.get_square(3, 3), Square::White);
    assert_eq!(board.score(), (2, 2));
}

#[test]
fn test_multi_direction_flips() {
    // black disks bracketed in two directions at once by one white move
    let board = Othello { white: sq(0, 0) | sq(0, 2), black: sq(1, 1) | sq(1, 2) };
    let next = board.make_move(Color::White, sq(2, 2));
    // (1, 2) is bracketed west-east, (1, 1) diagonally; both flip
    assert_eq!(next.get_bitboard(Color::White), sq(0, 0) | sq(0, 2) | sq(1, 1) | sq(1, 2) | sq(2, 2));
    assert_eq!(next.get_bitboard(Color::Black), 0);
    assert_eq!(next.score(), (0, 5));
}

#[test]
fn test_determinism() {
    let board = Othello::new();
    assert_eq!(board.gen_moves(Color::Black), board.gen_moves(Color::Black));
    assert_eq!(board.gen_moves(Color::White), board.gen_moves(Color::White));
    let a = board.make_move(Color::Black, sq(3, 2));
    let b = board.make_move(Color::Black, sq(3, 2));
    assert_eq!(a, b);
}

#[test]
fn test_no_wrap_across_east_edge() {
    // a run touching the rightmost file must not spill onto the next rank
    let board = Othello { white: sq(5, 1), black: sq(6, 1) | sq(7, 1) };
    assert_eq!(board.gen_moves(Color::White), 0);
}

#[test]
fn test_no_wrap_across_west_edge() {
    // a run touching the leftmost file must not spill onto the previous rank
    let board = Othello { white: sq(2, 1), black: sq(1, 1) | sq(0, 1) };
    assert_eq!(board.gen_moves(Color::White), 0);
}

#[test]
fn test_no_moves_gives_empty_mask() {
    // black to move has no legal move; the mask is all zero and the game
    // tree falls through to white's count at the same remaining depth
    let board = Othello { white: sq(0, 0), black: sq(1, 0) };
    assert_eq!(board.gen_moves(Color::Black), 0);
    assert_eq!(board.gen_moves(Color::White), sq(2, 0));
    assert_eq!(leaves(board, Color::Black, 2), leaves(board, Color::White, 2));
    assert_eq!(leaves(board, Color::Black, 2), 1);
}

#[test]
fn test_terminal_position_counts_one_leaf() {
    // neither side can move: one leaf at any depth
    let board = Othello { white: sq(0, 0), black: 0 };
    assert_eq!(board.gen_moves(Color::White), 0);
    assert_eq!(board.gen_moves(Color::Black), 0);
    assert_eq!(leaves(board, Color::Black, 5), 1);
}

#[test]
fn test_occupancy_grows_by_one() {
    // a move adds exactly one occupied square, whatever flips
    let board = Othello::new();
    let moves = board.gen_moves(Color::Black);
    let mut ms = moves;
    while ms != 0 {
        let mv = ms & ms.wrapping_neg();
        ms ^= mv;
        let next = board.make_move(Color::Black, mv);
        let (b0, w0) = board.score();
        let (b1, w1) = next.score();
        assert_eq!((b1 as u32 + w1 as u32), (b0 as u32 + w0 as u32) + 1);
        // no square is held by both colors
        assert_eq!(next.get_bitboard(Color::White) & next.get_bitboard(Color::Black), 0);
        // no legal move targets an occupied square
        let occ = next.get_bitboard(Color::White) | next.get_bitboard(Color::Black);
        assert_eq!(next.gen_moves(Color::White) & occ, 0);
        assert_eq!(next.gen_moves(Color::Black) & occ, 0);
    }
}

#[test]
fn test_invert() {
    assert_eq!(Color::White.invert(), Color::Black);
    assert_eq!(Color::Black.invert(), Color::White);
}
