use chess_trainer::features::{
    encode_board, encode_move, mirror_square, piece_planes, piece_to_type, reach_plane,
    checker_plane, square_plane, FEATURE_UNIT, MOVE_LAYOUT, NO_PIECE, PIECE_CELLS,
    POSITION_LAYOUT, POSITION_LAYOUT_WITH_MATERIAL,
};
use chess_trainer::samples::encode_board_with_move;
use pleco::Board;

const START: &str = "rnbqkbnr/pppppppp/8/8/8/8/PPPPPPPP/RNBQKBNR w KQkq - 0 1";
const FOOLS_MATE: &str = "rnb1kbnr/pppp1ppp/8/4p3/6Pq/5P2/PPPPP2P/RNBQKBNR w KQkq - 1 3";
const STALEMATE: &str = "7k/5Q2/6K1/8/8/8/8/8 b - - 0 1";
const CHECK: &str = "rnbqkbnr/ppp2ppp/8/1B1pp3/4P3/8/PPPP1PPP/RNBQK1NR b KQkq - 1 3";

fn replies_after_pass(b: &Board) -> Vec<u16> {
    let fen = b.fen();
    let mut parts: Vec<String> = fen.split(' ').map(|s| s.to_string()).collect();
    parts[1] = if parts[1] == "w" { "b".to_string() } else { "w".to_string() };
    parts[3] = "-".to_string();
    let passed = Board::from_fen(&parts.join(" ")).unwrap();
    passed.generate_moves().iter().map(|m| m.get_raw()).collect()
}

fn raw_move(b: &Board, uci: &str) -> u16 {
    b.generate_moves().iter().find(|m| m.stringify() == uci).unwrap().get_raw()
}

#[test]
fn piece_planes_follow_the_engine_codes() {
    assert_eq!(piece_to_type(0), NO_PIECE);
    assert_eq!(piece_to_type(1), 0);
    assert_eq!(piece_to_type(2), 1);
    assert_eq!(piece_to_type(3), 2);
    assert_eq!(piece_to_type(4), 3);
    assert_eq!(piece_to_type(5), 4);
    assert_eq!(piece_to_type(6), 5);
    assert_eq!(piece_to_type(7), NO_PIECE);
    assert_eq!(piece_to_type(8), NO_PIECE);
    assert_eq!(piece_to_type(9), 6);
    assert_eq!(piece_to_type(10), 7);
    assert_eq!(piece_to_type(11), 8);
    assert_eq!(piece_to_type(12), 9);
    assert_eq!(piece_to_type(13), 10);
    assert_eq!(piece_to_type(14), 11);
    assert_eq!(piece_to_type(15), NO_PIECE);
    assert_eq!(piece_to_type(200), NO_PIECE);
}

#[test]
fn mirror_square_turns_the_rank_over() {
    assert_eq!(mirror_square(0), 56);
    assert_eq!(mirror_square(7), 63);
    assert_eq!(mirror_square(56), 0);
    assert_eq!(mirror_square(63), 7);
    assert_eq!(mirror_square(12), 52);
    assert_eq!(mirror_square(28), 36);
    for sq in 0..64u8 {
        assert_eq!(mirror_square(mirror_square(sq)), sq);
    }
}

#[test]
fn position_vector_has_the_layout_length() {
    for fen in [START, FOOLS_MATE, STALEMATE, CHECK] {
        let board = Board::from_fen(fen).unwrap();
        let replies = if board.in_check() { Vec::new() } else { replies_after_pass(&board) };
        assert_eq!(encode_board(&board, &replies, true).unwrap().len(), POSITION_LAYOUT_WITH_MATERIAL);
        assert_eq!(encode_board(&board, &replies, false).unwrap().len(), POSITION_LAYOUT);
    }
    assert_eq!(POSITION_LAYOUT, 898);
    assert_eq!(POSITION_LAYOUT_WITH_MATERIAL, 900);
}

#[test]
fn position_vector_length_holds_along_a_game() {
    let mut board = Board::start_pos();
    for ply in 0..40 {
        let moves = board.generate_moves();
        if moves.is_empty() {
            break;
        }
        let replies = if board.in_check() { Vec::new() } else { replies_after_pass(&board) };
        assert_eq!(encode_board(&board, &replies, true).unwrap().len(), 900);
        assert_eq!(encode_board(&board, &replies, false).unwrap().len(), 898);
        board.apply_move(moves[(ply * 7) % moves.len()]);
    }
}

#[test]
fn encoding_leaves_the_board_as_it_was() {
    for fen in [START, FOOLS_MATE, STALEMATE, CHECK] {
        let board = Board::from_fen(fen).unwrap();
        let before = board.fen();
        let replies = if board.in_check() { Vec::new() } else { replies_after_pass(&board) };
        let _ = encode_board(&board, &replies, true).unwrap();
        let _ = encode_move(&board, 0);
        assert_eq!(board.fen(), before);
        assert_eq!(before, fen);
    }
}

#[test]
fn start_position_piece_planes() {
    let board = Board::start_pos();
    let cells = piece_planes(&board);
    assert_eq!(cells.len(), PIECE_CELLS);
    // a8 holds Black's rook: plane 9, which stands at 11 - 9 in its cell.
    assert_eq!(&cells[0..12], &[0, 0, FEATURE_UNIT, 0, 0, 0, 0, 0, 0, 0, 0, 0]);
    // e8 holds Black's king: plane 11.
    assert_eq!(&cells[48..60], &[FEATURE_UNIT, 0, 0, 0, 0, 0, 0, 0, 0, 0, 0, 0]);
    // a7 holds Black's pawn: plane 6.
    assert_eq!(&cells[96..108], &[0, 0, 0, 0, 0, FEATURE_UNIT, 0, 0, 0, 0, 0, 0]);
    // a6 is empty.
    assert_eq!(&cells[192..204], &[0u8; 12]);
    // e1 holds White's king: plane 5.
    assert_eq!(&cells[720..732], &[0, 0, 0, 0, 0, 0, FEATURE_UNIT, 0, 0, 0, 0, 0]);
    // h1 holds White's rook: plane 3.
    assert_eq!(&cells[756..768], &[0, 0, 0, 0, 0, 0, 0, 0, FEATURE_UNIT, 0, 0, 0]);
    let on: usize = cells.iter().filter(|c| **c == FEATURE_UNIT).count();
    assert_eq!(on, 32);
    assert!(cells.iter().all(|c| *c == 0 || *c == FEATURE_UNIT));
}

#[test]
fn start_position_vector() {
    let board = Board::start_pos();
    let replies = replies_after_pass(&board);
    assert_eq!(replies.len(), 20);
    let cells = encode_board(&board, &replies, true).unwrap();
    assert_eq!(&cells[0..768], &piece_planes(&board)[..]);
    // White reaches the third and fourth rank: cells 32 to 47 of its plane.
    for c in 0..64 {
        let expected = if (32..48).contains(&c) { FEATURE_UNIT } else { 0 };
        assert_eq!(cells[768 + c], expected, "own plane, cell {}", c);
    }
    // Black would reach the sixth and fifth rank: cells 16 to 31.
    for c in 0..64 {
        let expected = if (16..32).contains(&c) { FEATURE_UNIT } else { 0 };
        assert_eq!(cells[832 + c], expected, "opponent plane, cell {}", c);
    }
    assert_eq!(&cells[896..900], &[40, 40, FEATURE_UNIT, 0]);
    let bare = encode_board(&board, &replies, false).unwrap();
    assert_eq!(&bare[0..896], &cells[0..896]);
    assert_eq!(&bare[896..898], &[FEATURE_UNIT, 0]);
}

#[test]
fn black_to_move_sets_the_second_side_cell() {
    let mut board = Board::start_pos();
    let e4 = board.generate_moves().iter().find(|m| m.stringify() == "e2e4").cloned().unwrap();
    board.apply_move(e4);
    let replies = replies_after_pass(&board);
    let cells = encode_board(&board, &replies, false).unwrap();
    assert_eq!(&cells[896..898], &[0, FEATURE_UNIT]);
}

#[test]
fn checked_position_shows_the_checking_piece() {
    let board = Board::from_fen(CHECK).unwrap();
    assert!(board.in_check());
    // The list of replies is not read in check: two different lists, one vector.
    let cells = encode_board(&board, &Vec::new(), true).unwrap();
    let other = encode_board(&board, &vec![0x0fff, 0x0041], true).unwrap();
    assert_eq!(cells, other);
    // The bishop on b5 (square 33) gives check; it is shown in cell 25.
    for c in 0..64 {
        let expected = if c == 25 { FEATURE_UNIT } else { 0 };
        assert_eq!(cells[832 + c], expected, "opponent plane, cell {}", c);
    }
}

#[test]
fn mated_position_is_encoded() {
    let board = Board::from_fen(FOOLS_MATE).unwrap();
    assert!(board.checkmate());
    let cells = encode_board(&board, &Vec::new(), true).unwrap();
    assert_eq!(cells.len(), 900);
    // No legal move: the own plane is empty.
    assert!(cells[768..832].iter().all(|c| *c == 0));
    // The queen on h4 (square 31) gives check; it is shown in cell 39.
    for c in 0..64 {
        let expected = if c == 39 { FEATURE_UNIT } else { 0 };
        assert_eq!(cells[832 + c], expected);
    }
}

#[test]
fn unsound_boards_are_not_encoded() {
    for fen in [
        // A king that can be taken.
        "4k3/4R3/8/8/8/8/8/4K3 w - - 0 1",
        // A piece on the en-passant square.
        "k7/8/4n3/3Pp3/8/8/8/7K w - e6 0 1",
        // A castling right with the king away from its square.
        "k7/8/8/8/8/8/4K3/7R w K - 0 1",
        // A castling right without its rook.
        "4k3/8/8/8/8/8/8/4K3 w Q - 0 1",
        // More queens than a game can bring.
        "4k3/8/8/8/QQQQQQQQ/QQ6/8/4K3 b - - 0 1",
    ] {
        let board = Board::from_fen(fen).unwrap();
        assert!(!chess_trainer::sound::board_is_sound(&board), "{}", fen);
        assert_eq!(encode_board(&board, &Vec::new(), true), None);
        assert_eq!(encode_board(&board, &Vec::new(), false), None);
        // The move vector reads the squares only.
        assert_eq!(encode_move(&board, 0).len(), 896);
    }
}

#[test]
fn boards_of_a_game_are_sound() {
    let mut board = Board::start_pos();
    for ply in 0..80 {
        assert!(chess_trainer::sound::board_is_sound(&board), "{}", board.fen());
        let moves = board.generate_moves();
        if moves.is_empty() {
            break;
        }
        board.apply_move(moves[(ply * 11 + 5) % moves.len()]);
    }
    for fen in [
        START,
        FOOLS_MATE,
        STALEMATE,
        CHECK,
        // An en-passant square that can be moved to.
        "rnbqkbnr/ppp1pppp/8/8/3pP3/8/PPPP1PPP/RNBQKBNR b KQkq e3 0 3",
        // Nine queens.
        "4k3/8/8/8/QQQQQQQQ/Q7/8/4K3 b - - 0 1",
    ] {
        assert!(chess_trainer::sound::board_is_sound(&Board::from_fen(fen).unwrap()), "{}", fen);
    }
}

#[test]
fn reach_plane_marks_destinations() {
    // A move packs its source in the low six bits and its destination above.
    let to_a1_from_h8: u16 = 63;
    let to_h8_from_a1: u16 = 63 << 6;
    let plane = reach_plane(&vec![to_a1_from_h8, to_h8_from_a1, to_h8_from_a1]);
    assert_eq!(plane.len(), 64);
    for c in 0..64 {
        // a1 is cell 56, h8 is cell 7.
        let expected = if c == 56 || c == 7 { FEATURE_UNIT } else { 0 };
        assert_eq!(plane[c], expected);
    }
    assert_eq!(reach_plane(&Vec::new()), vec![0u8; 64]);
}

#[test]
fn checker_plane_marks_the_bits() {
    assert_eq!(checker_plane(0), vec![0u8; 64]);
    let plane = checker_plane(1 | (1 << 63));
    for c in 0..64 {
        // Bit 0 is a1, cell 56; bit 63 is h8, cell 7.
        let expected = if c == 56 || c == 7 { FEATURE_UNIT } else { 0 };
        assert_eq!(plane[c], expected);
    }
    assert_eq!(checker_plane(u64::MAX), vec![FEATURE_UNIT; 64]);
}

#[test]
fn square_plane_has_one_cell_on() {
    for sq in 0..64u8 {
        let plane = square_plane(sq);
        assert_eq!(plane.iter().filter(|c| **c == FEATURE_UNIT).count(), 1);
        assert_eq!(plane[mirror_square(sq) as usize], FEATURE_UNIT);
    }
}

#[test]
fn move_vector_marks_source_and_destination() {
    let board = Board::start_pos();
    let e2e4 = raw_move(&board, "e2e4");
    let cells = encode_move(&board, e2e4);
    assert_eq!(cells.len(), MOVE_LAYOUT);
    assert_eq!(MOVE_LAYOUT, 896);
    assert_eq!(&cells[0..768], &piece_planes(&board)[..]);
    for c in 0..64 {
        // e2 is square 12, cell 52; e4 is square 28, cell 36.
        assert_eq!(cells[768 + c], if c == 52 { FEATURE_UNIT } else { 0 });
        assert_eq!(cells[832 + c], if c == 36 { FEATURE_UNIT } else { 0 });
    }
}

#[test]
fn labeled_move_sample() {
    let board = Board::start_pos();
    let g1f3 = raw_move(&board, "g1f3");
    let sample = encode_board_with_move(&board, g1f3, -37);
    assert_eq!(sample.features, encode_move(&board, g1f3));
    assert_eq!(sample.label.numerator, -37);
    assert_eq!(sample.label.denominator, 1);
}
