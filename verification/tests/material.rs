use chess_trainer::material::{score_material, Player, MAX_PRICE};
use pleco::Board;

#[test]
fn start_position_has_full_material() {
    let board = Board::start_pos();
    assert_eq!(score_material(&board, Player::White), 40);
    assert_eq!(score_material(&board, Player::Black), 40);
    assert_eq!(MAX_PRICE, 40);
}

#[test]
fn bare_kings_have_no_material() {
    let board = Board::from_fen("8/8/8/4k3/8/8/4K3/8 w - - 0 1").unwrap();
    assert_eq!(score_material(&board, Player::White), 0);
    assert_eq!(score_material(&board, Player::Black), 0);
}

#[test]
fn material_prices_each_kind() {
    // White: queen, rook, bishop, knight, two pawns. Black: one pawn.
    let board = Board::from_fen("4k3/p7/8/8/8/8/PP6/QRBNK3 w - - 0 1").unwrap();
    assert_eq!(score_material(&board, Player::White), 10 + 5 + 3 + 3 + 2);
    assert_eq!(score_material(&board, Player::Black), 1);
}

#[test]
fn material_is_capped_at_the_starting_total() {
    // Five queens are worth fifty, which is more than a side starts with.
    let board = Board::from_fen("6k1/8/8/8/8/8/8/QQQQQK2 w - - 0 1").unwrap();
    assert_eq!(score_material(&board, Player::White), 40);
    assert_eq!(score_material(&board, Player::Black), 0);
}
