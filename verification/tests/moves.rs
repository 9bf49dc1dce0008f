use chess_trainer::moves::{is_castle, source_square, target_square, NULL_MOVE};
use pleco::{BitMove, Board};

#[test]
fn move_fields_agree_with_the_engine() {
    let mut board = Board::start_pos();
    for ply in 0..60 {
        let moves = board.generate_moves();
        if moves.is_empty() {
            break;
        }
        for m in moves.iter() {
            let raw = m.get_raw();
            assert_eq!(source_square(raw), m.get_src_u8());
            assert_eq!(target_square(raw), m.get_dest_u8());
            assert_eq!(is_castle(raw), m.is_castle());
            assert_eq!(BitMove::new(raw), *m);
        }
        board.apply_move(moves[(ply * 5 + 3) % moves.len()]);
    }
}

#[test]
fn move_fields_of_chosen_bits() {
    assert_eq!(NULL_MOVE, 0);
    assert_eq!(source_square(0), 0);
    assert_eq!(target_square(0), 0);
    assert!(!is_castle(0));
    // e2 (12) to e4 (28) with the double-push flag.
    let e2e4: u16 = (1 << 12) | (28 << 6) | 12;
    assert_eq!(source_square(e2e4), 12);
    assert_eq!(target_square(e2e4), 28);
    assert!(!is_castle(e2e4));
    // King on e1 (4), rook on h1 (7), king-side castle flag.
    let castle: u16 = (0b0010 << 12) | (7 << 6) | 4;
    assert_eq!(source_square(castle), 4);
    assert_eq!(target_square(castle), 7);
    assert!(is_castle(castle));
    let queen_side: u16 = (0b0011 << 12) | 4;
    assert!(is_castle(queen_side));
    let capture: u16 = 0b0100 << 12;
    assert!(!is_castle(capture));
    assert_eq!(source_square(u16::MAX), 63);
    assert_eq!(target_square(u16::MAX), 63);
}

#[test]
fn castles_are_recognised_in_a_position() {
    let board = Board::from_fen("r3k2r/8/8/8/8/8/8/R3K2R w KQkq - 0 1").unwrap();
    let castles: Vec<u16> = board
        .generate_moves()
        .iter()
        .map(|m| m.get_raw())
        .filter(|raw| is_castle(*raw))
        .collect();
    assert_eq!(castles.len(), 2);
    for raw in castles {
        assert_eq!(source_square(raw), 4);
    }
}
