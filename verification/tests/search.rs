use chess_trainer::learned::{infer_position, my_alpha_beta_search, my_minimax};
use chess_trainer::material::{score_material, Player};
use chess_trainer::search::{
    clamp_score, full_width_search, leaf_inversion, pruning_search, SearchFailure, SearchResult,
    DRAW_V, MATE_V, SCORE_LIMIT,
};
use pleco::tools::eval::Eval;
use pleco::Board;

const FOOLS_MATE: &str = "rnb1kbnr/pppp1ppp/8/4p3/6Pq/5P2/PPPPP2P/RNBQKBNR w KQkq - 1 3";
const STALEMATE: &str = "7k/5Q2/6K1/8/8/8/8/8 b - - 0 1";
const BACK_RANK: &str = "6k1/5ppp/8/8/8/8/8/R3K3 w - - 0 1";
const PAWN_ENDING: &str = "8/8/8/4k3/8/4K3/4P3/8 w - - 0 1";
const MIDDLE: &str = "r1bqkbnr/pppp1ppp/2n5/4p3/2B1P3/5N2/PPPP1PPP/RNBQK2R b KQkq - 3 3";

fn white_material(b: &Board) -> i16 {
    let value = |p: pleco::Player| -> i16 {
        b.count_piece(p, pleco::PieceType::P) as i16 * 100
            + b.count_piece(p, pleco::PieceType::N) as i16 * 300
            + b.count_piece(p, pleco::PieceType::B) as i16 * 310
            + b.count_piece(p, pleco::PieceType::R) as i16 * 500
            + b.count_piece(p, pleco::PieceType::Q) as i16 * 900
    };
    value(pleco::Player::White) - value(pleco::Player::Black)
}

fn square_sum(b: &Board) -> i16 {
    // Tells positions apart that have the same material.
    let mut sum: i16 = 0;
    for sq in 0..64u8 {
        let piece = b.piece_at_sq(pleco::SQ(sq)) as u8;
        if piece != 0 {
            let sign: i16 = if piece < 8 { 1 } else { -1 };
            sum += sign * ((sq as i16 * 7 + piece as i16 * 3) % 23);
        }
    }
    sum
}

fn classical(b: &Board) -> Option<i16> {
    Some(Eval::eval_low(b) as i16)
}

fn replies_after_pass(b: &Board) -> Vec<u16> {
    let fen = b.fen();
    let mut parts: Vec<String> = fen.split(' ').map(|s| s.to_string()).collect();
    parts[1] = if parts[1] == "w" { "b".to_string() } else { "w".to_string() };
    parts[3] = "-".to_string();
    let passed = Board::from_fen(&parts.join(" ")).unwrap();
    passed.generate_moves().iter().map(|m| m.get_raw()).collect()
}

fn raw_move(b: &Board, uci: &str) -> u16 {
    b.generate_moves().iter().find(|m| m.stringify() == uci).unwrap().get_raw()
}

#[test]
fn unsound_board_is_not_searched() {
    let zero = |_: &Board| -> Option<i16> { Some(0) };
    let net = |_: &Vec<u8>| -> Option<i16> { Some(0) };
    let never = |_: &Board| -> Vec<u16> { Vec::new() };
    for fen in [
        // White to move can take the king on e8.
        "4k3/4R3/8/8/8/8/8/4K3 w - - 0 1",
        // The en-passant square is taken by a knight.
        "k7/8/4n3/3Pp3/8/8/8/7K w - e6 0 1",
        // A castling right with the king on e2.
        "k7/8/8/8/8/8/4K3/7R w K - 0 1",
    ] {
        let mut board = Board::from_fen(fen).unwrap();
        assert!(!chess_trainer::sound::board_is_sound(&board));
        let unsound = Err(SearchFailure::UnsoundBoard);
        assert_eq!(pruning_search(&mut board, -15000, 15000, 2, &zero, &zero, false), unsound);
        assert_eq!(full_width_search(&mut board, 2, &zero, &zero, false), unsound);
        assert_eq!(
            my_alpha_beta_search(&mut board, -15000, 15000, 2, &net, &net, &never, false, false),
            unsound
        );
        assert_eq!(my_minimax(&mut board, 2, &net, &net, &never, false, false), unsound);
        assert_eq!(board.fen(), fen);
    }
    for sound in [MIDDLE, PAWN_ENDING, FOOLS_MATE, STALEMATE, BACK_RANK] {
        assert!(chess_trainer::sound::board_is_sound(&Board::from_fen(sound).unwrap()));
    }
    // The same pieces with Black to move: Black is in check, which is sound.
    let checked = Board::from_fen("4k3/4R3/8/8/8/8/8/4K3 b - - 0 1").unwrap();
    assert!(chess_trainer::sound::board_is_sound(&checked));
}

#[test]
fn scores_stay_in_range_for_bounds_in_range() {
    let wild = |b: &Board| -> Option<i16> { Some(if b.turn() == pleco::Player::White { i16::MAX } else { i16::MIN }) };
    for depth in 0..3u16 {
        let mut board = Board::from_fen(MIDDLE).unwrap();
        let found = pruning_search(&mut board, -32000, 32000, depth, &wild, &wild, false).unwrap();
        assert!(-32000 <= found.score && found.score <= 32000);
        let found = full_width_search(&mut board, depth, &wild, &wild, true).unwrap();
        assert!(-32000 <= found.score && found.score <= 32000);
    }
}

#[test]
fn any_bounds_are_taken() {
    let leaf = |b: &Board| -> Option<i16> { Some(white_material(b) + square_sum(b)) };
    for depth in 0..3u16 {
        let mut board = Board::from_fen(MIDDLE).unwrap();
        let inv = leaf_inversion(false, depth);
        let full = full_width_search(&mut board, depth, &leaf, &leaf, inv).unwrap();
        let widest = pruning_search(&mut board, i16::MIN, i16::MAX, depth, &leaf, &leaf, inv);
        assert_eq!(widest, Ok(full));
        // The least bound counts as the one above it.
        let least = pruning_search(&mut board, i16::MIN, i16::MIN, depth, &leaf, &leaf, inv);
        let above = pruning_search(&mut board, i16::MIN + 1, i16::MIN + 1, depth, &leaf, &leaf, inv);
        assert_eq!(least, above);
    }
}

#[test]
fn clamp_score_keeps_the_range() {
    assert_eq!(clamp_score(0), 0);
    assert_eq!(clamp_score(7500), 7500);
    assert_eq!(clamp_score(-7500), -7500);
    assert_eq!(clamp_score(32000), 32000);
    assert_eq!(clamp_score(32001), 32000);
    assert_eq!(clamp_score(i16::MAX), 32000);
    assert_eq!(clamp_score(-32000), -32000);
    assert_eq!(clamp_score(-32001), -32000);
    assert_eq!(clamp_score(i16::MIN), -32000);
    assert_eq!(SCORE_LIMIT, 32000);
}

#[test]
fn leaf_inversion_follows_the_side_at_the_leaves() {
    assert!(!leaf_inversion(true, 0));
    assert!(leaf_inversion(true, 1));
    assert!(!leaf_inversion(true, 2));
    assert!(leaf_inversion(true, 3));
    assert!(leaf_inversion(false, 0));
    assert!(!leaf_inversion(false, 1));
    assert!(leaf_inversion(false, 2));
    assert!(!leaf_inversion(false, 3));
}

#[test]
fn depth_zero_returns_the_leaf_score() {
    for fen in [MIDDLE, PAWN_ENDING, FOOLS_MATE, STALEMATE, BACK_RANK] {
        let mut board = Board::from_fen(fen).unwrap();
        let before = board.fen();
        let white = |_: &Board| -> Option<i16> { Some(1234) };
        let black = |_: &Board| -> Option<i16> { Some(-4321) };
        let expected = if board.turn() == pleco::Player::White { 1234 } else { -4321 };
        let found = pruning_search(&mut board, -15000, 15000, 0, &white, &black, false).unwrap();
        assert_eq!(found, SearchResult { bit_move: 0, score: expected });
        let found = pruning_search(&mut board, -15000, 15000, 0, &white, &black, true).unwrap();
        assert_eq!(found, SearchResult { bit_move: 0, score: -expected });
        // The bounds do not matter at a leaf.
        let found = pruning_search(&mut board, 5000, 6000, 0, &white, &black, false).unwrap();
        assert_eq!(found, SearchResult { bit_move: 0, score: expected });
        let found = full_width_search(&mut board, 0, &white, &black, false).unwrap();
        assert_eq!(found, SearchResult { bit_move: 0, score: expected });
        assert_eq!(board.fen(), before);
    }
}

#[test]
fn leaf_scores_are_brought_into_range() {
    let mut board = Board::start_pos();
    let high = |_: &Board| -> Option<i16> { Some(i16::MAX) };
    let low = |_: &Board| -> Option<i16> { Some(i16::MIN) };
    assert_eq!(full_width_search(&mut board, 0, &high, &high, false).unwrap().score, 32000);
    assert_eq!(full_width_search(&mut board, 0, &high, &high, true).unwrap().score, -32000);
    assert_eq!(full_width_search(&mut board, 0, &low, &low, false).unwrap().score, -32000);
    assert_eq!(full_width_search(&mut board, 0, &low, &low, true).unwrap().score, 32000);
    assert_eq!(pruning_search(&mut board, -1, 1, 0, &low, &low, true).unwrap().score, 32000);
}

#[test]
fn mated_side_scores_minus_mate() {
    let zero = |_: &Board| -> Option<i16> { Some(0) };
    for depth in 1..4u16 {
        let mut board = Board::from_fen(FOOLS_MATE).unwrap();
        assert!(board.in_check());
        assert_eq!(board.generate_moves().len(), 0);
        let found = pruning_search(&mut board, -15000, 15000, depth, &zero, &zero, false).unwrap();
        assert_eq!(found, SearchResult { bit_move: 0, score: -MATE_V });
        assert_ne!(found.score, 0);
        let found = full_width_search(&mut board, depth, &zero, &zero, false).unwrap();
        assert_eq!(found, SearchResult { bit_move: 0, score: -31000 });
        assert_eq!(board.fen(), FOOLS_MATE);
    }
}

#[test]
fn stalemate_scores_a_draw() {
    let one = |_: &Board| -> Option<i16> { Some(1) };
    for depth in 1..4u16 {
        let mut board = Board::from_fen(STALEMATE).unwrap();
        assert!(!board.in_check());
        let found = pruning_search(&mut board, -15000, 15000, depth, &one, &one, false).unwrap();
        assert_eq!(found, SearchResult { bit_move: 0, score: DRAW_V });
        let found = full_width_search(&mut board, depth, &one, &one, false).unwrap();
        assert_eq!(found, SearchResult { bit_move: 0, score: 0 });
    }
}

#[test]
fn mate_in_one_is_found() {
    let zero = |_: &Board| -> Option<i16> { Some(0) };
    let mut board = Board::from_fen(BACK_RANK).unwrap();
    let mate = raw_move(&board, "a1a8");
    let found = full_width_search(&mut board, 2, &zero, &zero, false).unwrap();
    assert_eq!(found, SearchResult { bit_move: mate, score: MATE_V });
    // The mate lies above the upper bound: the search stops at it.
    let found = pruning_search(&mut board, -15000, 15000, 2, &zero, &zero, false).unwrap();
    assert_eq!(found, SearchResult { bit_move: mate, score: MATE_V });
    // With bounds that hold the mate score the two searches agree as well.
    let found = pruning_search(&mut board, -32000, 32000, 2, &zero, &zero, false).unwrap();
    assert_eq!(found, SearchResult { bit_move: mate, score: MATE_V });
    assert_eq!(board.fen(), BACK_RANK);
}

#[test]
fn depth_one_takes_the_best_reply_value() {
    for fen in [MIDDLE, PAWN_ENDING, BACK_RANK] {
        let mut board = Board::from_fen(fen).unwrap();
        let leaf = |b: &Board| -> Option<i16> { Some(white_material(b) + square_sum(b)) };
        let white_moves = board.turn() == pleco::Player::White;
        // The leaves score for White; after one ply the other side is to move.
        let inv = leaf_inversion(white_moves, 1);
        let mut best: Option<(u16, i16)> = None;
        for m in board.generate_moves().iter() {
            board.apply_move(*m);
            let for_white = leaf(&board).unwrap();
            board.undo_move();
            let for_mover = if white_moves { for_white } else { -for_white };
            if best.map_or(true, |(_, s)| for_mover > s) {
                best = Some((m.get_raw(), for_mover));
            }
        }
        let (mv, score) = best.unwrap();
        let found = full_width_search(&mut board, 1, &leaf, &leaf, inv).unwrap();
        assert_eq!(found, SearchResult { bit_move: mv, score });
        let found = pruning_search(&mut board, -15000, 15000, 1, &leaf, &leaf, inv).unwrap();
        assert_eq!(found, SearchResult { bit_move: mv, score });
    }
}

#[test]
fn both_sides_see_negated_scores() {
    // One evaluator that scores for White, asked at the root: the side to
    // move and the other side see scores that are negations of each other.
    for fen in [MIDDLE, PAWN_ENDING, BACK_RANK] {
        let mut board = Board::from_fen(fen).unwrap();
        let leaf = |b: &Board| -> Option<i16> { Some(white_material(b) + square_sum(b)) };
        let own = full_width_search(&mut board, 0, &leaf, &leaf, false).unwrap();
        let other = full_width_search(&mut board, 0, &leaf, &leaf, true).unwrap();
        assert_eq!(own.score, -other.score);
    }
    // A position and the same position with the colours swapped and the
    // board turned over, scored by an evaluator for the side to move.
    let mut white_side = Board::from_fen("4k3/8/8/8/8/8/4P3/4K3 w - - 0 1").unwrap();
    let mut black_side = Board::from_fen("4k3/4p3/8/8/8/8/8/4K3 b - - 0 1").unwrap();
    let for_mover = |b: &Board| -> Option<i16> {
        Some(if b.turn() == pleco::Player::White { white_material(b) } else { -white_material(b) })
    };
    for depth in 0..4u16 {
        let a = full_width_search(&mut white_side, depth, &for_mover, &for_mover, false).unwrap();
        let b = full_width_search(&mut black_side, depth, &for_mover, &for_mover, false).unwrap();
        assert_eq!(a.score, b.score);
        // Seen by a fixed side, the two scores are negations of each other.
        let white_view_a = a.score;
        let white_view_b = -b.score;
        assert_eq!(white_view_a, -white_view_b);
    }
}

#[test]
fn pruning_returns_what_full_width_returns() {
    for fen in [MIDDLE, PAWN_ENDING, "rnbqkbnr/pppppppp/8/8/8/8/PPPPPPPP/RNBQKBNR w KQkq - 0 1"] {
        for depth in 0..4u16 {
            let mut board = Board::from_fen(fen).unwrap();
            let leaf = |b: &Board| -> Option<i16> { Some(white_material(b) + square_sum(b)) };
            let inv = leaf_inversion(board.turn() == pleco::Player::White, depth);
            let full = full_width_search(&mut board, depth, &leaf, &leaf, inv).unwrap();
            assert!(-15000 < full.score && full.score < 15000);
            let pruned = pruning_search(&mut board, -15000, 15000, depth, &leaf, &leaf, inv).unwrap();
            assert_eq!(pruned, full, "{} at depth {}", fen, depth);
            let pruned = pruning_search(&mut board, -32000, 32000, depth, &leaf, &leaf, inv).unwrap();
            assert_eq!(pruned, full);
            assert_eq!(board.fen(), fen);
        }
    }
}

#[test]
fn pruning_outside_the_bounds_tells_the_side() {
    let mut board = Board::from_fen(MIDDLE).unwrap();
    let leaf = |b: &Board| -> Option<i16> { Some(white_material(b) + square_sum(b)) };
    let inv = leaf_inversion(false, 2);
    let full = full_width_search(&mut board, 2, &leaf, &leaf, inv).unwrap();
    // Bounds above the score: nothing is chosen, the lower bound comes back.
    let low = pruning_search(&mut board, full.score, full.score + 100, 2, &leaf, &leaf, inv).unwrap();
    assert_eq!(low, SearchResult { bit_move: 0, score: full.score });
    let low = pruning_search(&mut board, full.score + 5, full.score + 100, 2, &leaf, &leaf, inv).unwrap();
    assert_eq!(low, SearchResult { bit_move: 0, score: full.score + 5 });
    // The upper bound itself is still respected.
    let top = pruning_search(&mut board, full.score - 100, full.score, 2, &leaf, &leaf, inv).unwrap();
    assert_eq!(top, full);
    // Bounds below the score: what comes back lies between them and the score.
    let high = pruning_search(&mut board, full.score - 100, full.score - 1, 2, &leaf, &leaf, inv).unwrap();
    assert!(high.score >= full.score - 1);
    assert!(high.score <= full.score);
    assert_ne!(high.bit_move, 0);
    // Equal bounds are a window as well.
    let point = pruning_search(&mut board, full.score, full.score, 2, &leaf, &leaf, inv).unwrap();
    assert_eq!(point, SearchResult { bit_move: 0, score: full.score });
}

#[test]
fn search_agrees_with_the_engine_on_its_own_evaluation() {
    for fen in [PAWN_ENDING, MIDDLE, BACK_RANK, FOOLS_MATE, STALEMATE] {
        for depth in 0..4u16 {
            let mut board = Board::from_fen(fen).unwrap();
            let mut other = Board::from_fen(fen).unwrap();
            let ours = pruning_search(&mut board, -14000, 14000, depth, &classical, &classical, false).unwrap();
            let theirs = pleco::bots::alphabeta::alpha_beta_search(&mut other, -14000, 14000, depth);
            assert_eq!(ours.bit_move, theirs.bit_move.get_raw(), "{} at depth {}", fen, depth);
            assert_eq!(ours.score, theirs.score, "{} at depth {}", fen, depth);
        }
    }
}

#[test]
fn pawn_ending_search_returns_a_legal_move_without_mate() {
    let mut board = Board::from_fen(PAWN_ENDING).unwrap();
    let found = pruning_search(&mut board, -14000, 14000, 2, &classical, &classical, false).unwrap();
    assert!(found.score.abs() < MATE_V);
    assert!(board.generate_moves().iter().any(|m| m.get_raw() == found.bit_move));
    assert!(board.legal_move(pleco::BitMove::new(found.bit_move)));
    let full = full_width_search(&mut board, 2, &classical, &classical, false).unwrap();
    assert_eq!(found, full);
    assert_eq!(board.fen(), PAWN_ENDING);
    // Bare kings: every line is level, the score is the leaf's.
    let mut bare = Board::from_fen("8/8/8/4k3/8/8/4K3/8 w - - 0 1").unwrap();
    let zero = |_: &Board| -> Option<i16> { Some(0) };
    let drawn = pruning_search(&mut bare, -14000, 14000, 2, &zero, &zero, false).unwrap();
    assert_eq!(drawn.score, 0);
    assert_ne!(drawn.bit_move, 0);
}

#[test]
fn learned_search_encodes_the_leaves() {
    // A model that reads the two material cells and the side cells.
    let net = |cells: &Vec<u8>| -> Option<i16> {
        assert_eq!(cells.len(), 900);
        Some((cells[897] as i16 - cells[896] as i16) * 100 + cells[898] as i16)
    };
    let same_on_board = |b: &Board| -> Option<i16> {
        let white = score_material(b, Player::White) as i16;
        let black = score_material(b, Player::Black) as i16;
        let side = if b.turn() == pleco::Player::White { 40 } else { 0 };
        Some((white - black) * 100 + side)
    };
    for fen in [MIDDLE, PAWN_ENDING, BACK_RANK, FOOLS_MATE] {
        for depth in 0..3u16 {
            let mut board = Board::from_fen(fen).unwrap();
            let inv = leaf_inversion(board.turn() == pleco::Player::White, depth);
            let learned = my_alpha_beta_search(
                &mut board, -15000, 15000, depth, &net, &net, &replies_after_pass, true, inv,
            ).unwrap();
            let direct =
                pruning_search(&mut board, -15000, 15000, depth, &same_on_board, &same_on_board, inv).unwrap();
            assert_eq!(learned, direct);
            let learned = my_minimax(&mut board, depth, &net, &net, &replies_after_pass, true, inv).unwrap();
            let direct = full_width_search(&mut board, depth, &same_on_board, &same_on_board, inv).unwrap();
            assert_eq!(learned, direct);
            assert_eq!(board.fen(), fen);
        }
    }
}

#[test]
fn learned_search_asks_the_model_of_the_side_to_move() {
    let white_net = |_: &Vec<u8>| -> Option<i16> { Some(700) };
    let black_net = |_: &Vec<u8>| -> Option<i16> { Some(-300) };
    let mut board = Board::start_pos();
    let found = my_alpha_beta_search(
        &mut board, -15000, 15000, 0, &white_net, &black_net, &replies_after_pass, false, false,
    ).unwrap();
    assert_eq!(found, SearchResult { bit_move: 0, score: 700 });
    // After one ply Black is to move at the leaves.
    let found = my_alpha_beta_search(
        &mut board, -15000, 15000, 1, &white_net, &black_net, &replies_after_pass, false, true,
    ).unwrap();
    assert_eq!(found.score, -300);
    let found = my_minimax(&mut board, 1, &white_net, &black_net, &replies_after_pass, false, false).unwrap();
    assert_eq!(found.score, 300);
}

#[test]
fn infer_position_hands_the_vector_to_the_model() {
    let board = Board::start_pos();
    let expected = chess_trainer::features::encode_board(&board, &replies_after_pass(&board), false).unwrap();
    let net = |cells: &Vec<u8>| -> Option<i16> {
        let sum: u32 = cells.iter().map(|c| *c as u32).sum();
        Some((sum / 40) as i16)
    };
    let on: u32 = expected.iter().map(|c| *c as u32).sum::<u32>() / 40;
    // 32 pieces, 16 squares for each side and the side to move.
    assert_eq!(on, 32 + 16 + 16 + 1);
    assert_eq!(infer_position(&board, &net, &replies_after_pass, false), Some(on as i16));
    // In check the passing function is not asked.
    let checked = Board::from_fen(FOOLS_MATE).unwrap();
    let never = |_: &Board| -> Vec<u16> { panic!("asked for a pass in check") };
    let score = infer_position(&checked, &net, &never, false);
    assert_eq!(score, Some(32 + 0 + 1 + 1));
}

#[test]
fn failing_evaluator_reaches_the_caller() {
    let never = |_: &Board| -> Option<i16> { None };
    let net_never = |_: &Vec<u8>| -> Option<i16> { None };
    let failed = Err(SearchFailure::Evaluator);
    for fen in [MIDDLE, PAWN_ENDING, BACK_RANK] {
        for depth in 0..3u16 {
            let mut board = Board::from_fen(fen).unwrap();
            let plies = board.moves_played();
            assert_eq!(full_width_search(&mut board, depth, &never, &never, false), failed);
            assert_eq!(pruning_search(&mut board, -15000, 15000, depth, &never, &never, true), failed);
            assert_eq!(
                my_minimax(&mut board, depth, &net_never, &net_never, &replies_after_pass, true, false),
                failed
            );
            assert_eq!(
                my_alpha_beta_search(
                    &mut board, -15000, 15000, depth, &net_never, &net_never, &replies_after_pass,
                    false, false,
                ),
                failed
            );
            // Every move that was played is taken back.
            assert_eq!(board.fen(), fen);
            assert_eq!(board.moves_played(), plies);
        }
    }
    assert_eq!(infer_position(&Board::start_pos(), &net_never, &replies_after_pass, true), None);
}

#[test]
fn failure_is_met_only_at_a_leaf_that_is_searched() {
    // Without a legal move no leaf is asked.
    let never = |_: &Board| -> Option<i16> { None };
    let mut mated = Board::from_fen(FOOLS_MATE).unwrap();
    let found = full_width_search(&mut mated, 2, &never, &never, false).unwrap();
    assert_eq!(found, SearchResult { bit_move: 0, score: -MATE_V });
    let mut stale = Board::from_fen(STALEMATE).unwrap();
    let found = pruning_search(&mut stale, -15000, 15000, 1, &never, &never, false).unwrap();
    assert_eq!(found, SearchResult { bit_move: 0, score: DRAW_V });
    // At depth zero the position itself is the leaf, also where it is mate.
    assert_eq!(
        full_width_search(&mut mated, 0, &never, &never, false),
        Err(SearchFailure::Evaluator)
    );
    // Only Black's evaluator fails: a search that ends with White to move
    // succeeds, one that ends with Black to move does not.
    let fine = |_: &Board| -> Option<i16> { Some(5) };
    let mut board = Board::start_pos();
    assert_eq!(full_width_search(&mut board, 2, &fine, &never, false).unwrap().score, 5);
    assert_eq!(full_width_search(&mut board, 1, &fine, &never, false), Err(SearchFailure::Evaluator));
    assert_eq!(board.fen(), Board::start_pos().fen());
}

#[test]
fn pruning_skips_the_leaves_behind_a_cut() {
    // Black's evaluator fails on every position but the one after the first
    // move. That leaf scores above beta, so the search cuts off there and
    // asks about no other; the full-width search goes on and fails.
    let mut board = Board::start_pos();
    let first = board.generate_moves()[0];
    let mut after = Board::start_pos();
    after.apply_move(first);
    let kept = after.fen();
    let picky = |b: &Board| -> Option<i16> { if b.fen() == kept { Some(-500) } else { None } };
    let found = pruning_search(&mut board, -100, 100, 1, &picky, &picky, false).unwrap();
    assert_eq!(found, SearchResult { bit_move: first.get_raw(), score: 500 });
    assert_eq!(
        pruning_search(&mut board, -1000, 1000, 1, &picky, &picky, false),
        Err(SearchFailure::Evaluator)
    );
    assert_eq!(full_width_search(&mut board, 1, &picky, &picky, false), Err(SearchFailure::Evaluator));
    assert_eq!(board.fen(), Board::start_pos().fen());
}

#[test]
fn search_needs_room_in_the_counters() {
    let zero = |_: &Board| -> Option<i16> { Some(0) };
    let net = |_: &Vec<u8>| -> Option<i16> { Some(0) };
    for (fen, left) in [
        // The count of quiet plies is full.
        ("4k3/8/8/8/8/8/8/4K3 w - - 32767 1", 0u16),
        ("4k3/8/8/8/8/8/8/4K3 w - - 32765 1", 2),
        // The count of the game's plies is full, or nearly.
        ("4k3/8/8/8/8/8/8/4K3 b - - 0 32768", 0),
        ("4k3/8/8/8/8/8/8/4K3 w - - 0 32768", 1),
    ] {
        let mut board = Board::from_fen(fen).unwrap();
        assert!(chess_trainer::sound::board_is_sound(&board));
        assert_eq!(chess_trainer::sound::count_steps_left(&board), left);
        for depth in 0..4u16 {
            assert_eq!(chess_trainer::sound::board_is_playable(&board, depth), depth <= left);
            let full = full_width_search(&mut board, depth, &zero, &zero, false);
            let pruned = pruning_search(&mut board, -15000, 15000, depth, &zero, &zero, false);
            let learned =
                my_minimax(&mut board, depth, &net, &net, &replies_after_pass, false, false);
            if depth <= left {
                assert!(full.is_ok() && pruned.is_ok() && learned.is_ok());
            } else {
                assert_eq!(full, Err(SearchFailure::UnsoundBoard));
                assert_eq!(pruned, Err(SearchFailure::UnsoundBoard));
                assert_eq!(learned, Err(SearchFailure::UnsoundBoard));
            }
            assert_eq!(board.fen(), fen);
        }
    }
    // A board of a game has room for any search.
    let start = Board::start_pos();
    assert_eq!(chess_trainer::sound::count_steps_left(&start), 32767);
    let mut played = Board::start_pos();
    let first = played.generate_moves()[0];
    played.apply_move(first);
    // A pawn or knight move: one ply more, and perhaps one quiet ply more.
    let left = chess_trainer::sound::count_steps_left(&played);
    assert!(left == 32767 || left == 32766);
    assert!(chess_trainer::sound::board_is_playable(&played, 32766));
}
