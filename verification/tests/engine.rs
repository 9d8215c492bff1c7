use othello::Color;
use othello::Othello;

/// Counts the leaf nodes of the game tree `depth` plies deep from `oth`
/// with `color` to move: a side without a legal move defers to the
/// opponent, and a position where neither side can move is one leaf.
fn perft(oth: Othello, color: Color, depth: usize) -> u64 {
    if depth == 0 {
        return 1;
    }

    let mut res: u64 = 0;
    let mut moves: u64 = oth.gen_moves(color);

    if moves == 0 {
        moves = oth.gen_moves(color.invert());
        if moves == 0 {
            return 1;
        }
        return perft(oth, color.invert(), depth - 1);
    }

    while moves != 0 {
        let mv = moves & moves.wrapping_neg();
        moves ^= mv;
        res += perft(oth.make_move(color, mv), color.invert(), depth - 1);
    }

    res
}

#[test]
fn test_othello() {
    let depth: usize = 10;

    let perft_table = vec![
        1, 4, 12, 56, 244, 1396, 8200,
        55092, 390216, 3005288, 24571284,
        212258800, 1939886636,
    ];

    assert!(depth < perft_table.len(), "Depth must be at most {}", perft_table.len() - 1);

    let res: u64 = perft(Othello::new(), Color::Black, depth);

    assert_eq!(res, perft_table[depth], "Got an incorrect perft value for a depth of {}", depth);
}

#[test]
fn test_perft_shallow() {
    let expected: [u64; 7] = [1, 4, 12, 56, 244, 1396, 8200];
    for depth in 1..=6usize {
        let res = perft(Othello::new(), Color::Black, depth);
        assert_eq!(res, expected[depth], "wrong leaf count at depth {}", depth);
    }
}
