use chess_trainer::labels::Fraction;
use chess_trainer::values::{encode_to_databatch, flip_board, piece_to_value, EVAL_UNIT, VALUE_UNIT};
use pleco::Board;

#[test]
fn piece_values_are_signed_for_the_side_to_move() {
    let codes = [0u8, 1, 2, 3, 4, 5, 6, 9, 10, 11, 12, 13, 14];
    let white: Vec<i8> = codes.iter().map(|c| piece_to_value(*c, true)).collect();
    assert_eq!(white, vec![0, 1, 3, 4, 5, 10, 20, -1, -3, -4, -5, -10, -20]);
    let black: Vec<i8> = codes.iter().map(|c| piece_to_value(*c, false)).collect();
    assert_eq!(black, vec![0, -1, -3, -4, -5, -10, -20, 1, 3, 4, 5, 10, 20]);
    assert_eq!(piece_to_value(7, true), 0);
    assert_eq!(piece_to_value(255, false), 0);
    assert_eq!(VALUE_UNIT, 20);
}

#[test]
fn flipping_turns_the_board_by_half_a_turn() {
    let board: Vec<i8> = (0..64).collect();
    let flipped = flip_board(&board);
    assert_eq!(flipped, (0..64).rev().collect::<Vec<i8>>());
    assert_eq!(flip_board(&flipped), board);
    // Row i, column j comes from row 7 - i, column 7 - j.
    for i in 0..8 {
        for j in 0..8 {
            assert_eq!(flipped[i * 8 + j], board[(7 - i) * 8 + (7 - j)]);
        }
    }
}

#[test]
fn start_position_values_for_white() {
    let board = Board::start_pos();
    let sample = encode_to_databatch(&board, 335);
    let back: Vec<i8> = vec![5, 3, 4, 10, 20, 4, 3, 5];
    let mut expected: Vec<i8> = back.iter().map(|v| -*v).collect();
    expected.extend(vec![-1i8; 8]);
    expected.extend(vec![0i8; 32]);
    expected.extend(vec![1i8; 8]);
    expected.extend(back.iter());
    assert_eq!(sample.cells, expected);
    assert_eq!(sample.label, Fraction { numerator: 335, denominator: 6700 });
    assert_eq!(EVAL_UNIT, 6700);
}

#[test]
fn values_are_seen_from_the_side_to_move() {
    // Black to move: its own pieces are positive and stand at the bottom.
    let board = Board::from_fen("4k3/8/8/8/8/8/8/Q3K3 b - - 0 1").unwrap();
    let sample = encode_to_databatch(&board, -6700);
    let mut expected = vec![0i8; 64];
    // White's king on e1 and queen on a1 are shown in the first row, turned.
    expected[3] = -20;
    expected[7] = -10;
    // Black's king on e8 is shown in the last row.
    expected[59] = 20;
    assert_eq!(sample.cells, expected);
    assert_eq!(sample.label, Fraction { numerator: -6700, denominator: 6700 });
}
