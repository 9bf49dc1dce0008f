use chess_trainer::features::encode_move;
use chess_trainer::labels::Fraction;
use chess_trainer::samples::LabeledSample;
use chess_trainer::selfplay::{
    create_dataset, generate_n_random, generate_score_bitmove_vec, in_noise_band, play_desk,
    rate_move, rate_move_list, sample_candidates, DEPTH_SEARCH, MAX_DESK_STEPS, RANDOM_MOVES,
    SEARCH_BOUND, VAL_DIFF,
};
use pleco::tools::eval::Eval;
use pleco::Board;

const QUEEN_ENDING: &str = "7k/8/8/8/8/8/Q7/K7 w - - 0 1";

fn quiet(src: u16, dst: u16) -> u16 {
    (dst << 6) | src
}

fn castle(src: u16, dst: u16) -> u16 {
    (0b0010 << 12) | (dst << 6) | src
}

#[test]
fn noise_band_has_two_widths() {
    assert_eq!(VAL_DIFF, 23);
    // Nearer than 23 is too close, whatever the last label.
    assert!(in_noise_band(0, 0));
    assert!(in_noise_band(22, 0));
    assert!(in_noise_band(-22, 0));
    assert!(!in_noise_band(23, 0));
    assert!(!in_noise_band(-23, 0));
    // Nearer than a fifth of the last label is too close as well.
    assert!(in_noise_band(1199, 1000));
    assert!(!in_noise_band(1200, 1000));
    assert!(in_noise_band(801, 1000));
    assert!(!in_noise_band(800, 1000));
    assert!(in_noise_band(-1199, -1000));
    assert!(!in_noise_band(-1200, -1000));
    // A small last label leaves only the fixed width.
    assert!(!in_noise_band(123, 100));
    assert!(in_noise_band(122, 100));
    assert!(!in_noise_band(i64::MAX, i64::MIN));
    assert!(in_noise_band(i64::MIN, i64::MIN));
}

#[test]
fn random_indices_are_distinct_and_in_range() {
    for (n, max_val) in [(0usize, 0usize), (0, 5), (1, 1), (3, 10), (10, 10), (50, 200)] {
        let drawn = generate_n_random(n, max_val);
        assert_eq!(drawn.len(), n);
        let mut sorted = drawn.clone();
        sorted.sort();
        sorted.dedup();
        assert_eq!(sorted.len(), n);
        assert!(drawn.iter().all(|i| *i < max_val));
    }
    let all = generate_n_random(64, 64);
    let mut sorted = all.clone();
    sorted.sort();
    assert_eq!(sorted, (0..64).collect::<Vec<usize>>());
}

#[test]
fn random_indices_come_in_changing_order() {
    let first = generate_n_random(100, 100);
    let changed = (0..20).any(|_| generate_n_random(100, 100) != first);
    assert!(changed);
}

#[test]
fn moves_are_paired_with_scores() {
    let pairs = generate_score_bitmove_vec(&vec![11, 22, 33], &vec![-1i64, 0, 1, 99]);
    assert_eq!(pairs, vec![(11, -1), (22, 0), (33, 1)]);
    let none = generate_score_bitmove_vec(&Vec::new(), &vec![1.5f32]);
    assert!(none.is_empty());
}

#[test]
fn rating_is_the_negated_reply_search() {
    let mut board = Board::from_fen(QUEEN_ENDING).unwrap();
    let moves: Vec<u16> = board.generate_moves().iter().map(|m| m.get_raw()).collect();
    let stands = Eval::eval_low(&board) as i64;
    let deltas = rate_move_list(&mut board, &moves, 2);
    assert_eq!(deltas.len(), moves.len());
    assert_eq!(board.fen(), QUEEN_ENDING);
    let mut other = Board::from_fen(QUEEN_ENDING).unwrap();
    for (mv, delta) in moves.iter().zip(deltas.iter()) {
        other.apply_move(pleco::BitMove::new(*mv));
        let reply = pleco::bots::alphabeta::alpha_beta_search(&mut other, -14000, 14000, 2);
        other.undo_move();
        assert_eq!(*delta, -(reply.score as i64) - stands);
        assert_eq!(rate_move(&mut board, *mv, -SEARCH_BOUND, SEARCH_BOUND, 2), -(reply.score as i64));
    }
    assert_eq!(board.fen(), QUEEN_ENDING);
    assert_eq!(SEARCH_BOUND, 14000);
}

#[test]
fn candidates_too_close_to_the_last_label_are_dropped() {
    let board = Board::start_pos();
    let candidates: Vec<(u16, i64)> = vec![
        (quiet(12, 28), 10),   // too close to the label handed in, 0
        (quiet(12, 20), 30),   // kept
        (quiet(6, 21), 50),    // 20 from the last: dropped
        (castle(4, 7), 500),   // a castle: dropped
        (quiet(1, 18), 53),    // 23 from the last: kept
        (quiet(11, 27), 1000), // kept
        (quiet(11, 19), 1199), // within a fifth of 1000: dropped
        (quiet(10, 26), 800),  // a fifth below 1000: kept
        (quiet(9, 25), -5000), // beyond the count: not looked at
    ];
    let mut out = vec![LabeledSample { features: vec![9], label: Fraction::whole(77) }];
    let last = sample_candidates(&board, &candidates, 8, 0, &mut out);
    assert_eq!(last, 800);
    assert_eq!(out.len(), 5);
    assert_eq!(out[0].features, vec![9]);
    assert_eq!(out[0].label, Fraction::whole(77));
    let labels: Vec<i64> = out[1..].iter().map(|s| s.label.numerator).collect();
    assert_eq!(labels, vec![30, 53, 1000, 800]);
    assert!(out[1..].iter().all(|s| s.label.denominator == 1));
    assert_eq!(out[1].features, encode_move(&board, quiet(12, 20)));
    assert_eq!(out[2].features, encode_move(&board, quiet(1, 18)));
    assert_eq!(out[3].features, encode_move(&board, quiet(11, 27)));
    assert_eq!(out[4].features, encode_move(&board, quiet(10, 26)));
    // Each label that is kept lies outside the band of the one before.
    let mut prev = 0i64;
    for label in labels {
        assert!((label - prev).abs() >= 23);
        assert!(5 * (label - prev).abs() >= prev.abs());
        prev = label;
    }
}

#[test]
fn candidates_start_from_the_label_handed_in() {
    let board = Board::start_pos();
    let candidates: Vec<(u16, i64)> = vec![(quiet(12, 28), 110), (quiet(12, 20), 95)];
    let mut out = Vec::new();
    // 110 is within 23 of 100, and 95 as well.
    assert_eq!(sample_candidates(&board, &candidates, 2, 100, &mut out), 100);
    assert!(out.is_empty());
    // Held against 0 the first is kept, and the second is too close to it.
    assert_eq!(sample_candidates(&board, &candidates, 2, 0, &mut out), 110);
    assert_eq!(out.len(), 1);
    // Nothing is looked at with a count of zero.
    assert_eq!(sample_candidates(&board, &candidates, 0, 0, &mut out), 0);
    assert_eq!(out.len(), 1);
}

#[test]
fn a_game_adds_samples_of_the_move_layout() {
    let mut board = Board::from_fen(QUEEN_ENDING).unwrap();
    let mut out = vec![LabeledSample { features: vec![1, 2, 3], label: Fraction::whole(5) }];
    play_desk(&mut board, &mut out);
    assert_eq!(out[0].features, vec![1, 2, 3]);
    assert_eq!(out[0].label, Fraction::whole(5));
    // White is to move first: at least the searched move is kept.
    assert!(out.len() >= 2);
    for s in out[1..].iter() {
        assert_eq!(s.features.len(), 896);
        assert_eq!(s.label.denominator, 1);
    }
    // The game went on with the searched moves.
    assert!(board.moves_played() >= 1);
    assert!(board.moves_played() as u32 <= MAX_DESK_STEPS);
    assert!(out.len() <= 1 + 270);
    assert_eq!(MAX_DESK_STEPS, 45);
    assert_eq!(DEPTH_SEARCH, 4);
    assert_eq!(RANDOM_MOVES, 5);
}

#[test]
fn a_game_from_a_mate_adds_nothing() {
    let mut board =
        Board::from_fen("rnb1kbnr/pppp1ppp/8/4p3/6Pq/5P2/PPPPP2P/RNBQKBNR w KQkq - 1 3").unwrap();
    let before = board.fen();
    let mut out = Vec::new();
    play_desk(&mut board, &mut out);
    assert!(out.is_empty());
    assert_eq!(board.fen(), before);
}

#[test]
fn a_game_from_a_stalemate_keeps_the_board() {
    // White is to move and has none: the game ends before anything is kept.
    let mut board = Board::from_fen("8/8/8/8/8/5k2/5p2/5K2 w - - 0 1").unwrap();
    assert_eq!(board.generate_moves().len(), 0);
    assert!(!board.in_check());
    let before = board.fen();
    let mut out = Vec::new();
    play_desk(&mut board, &mut out);
    assert!(out.is_empty());
    assert_eq!(board.fen(), before);
}

#[test]
fn dataset_without_games_is_empty() {
    assert!(create_dataset(0).is_empty());
}

#[test]
fn one_position_is_sampled_from_its_legal_moves() {
    let mut board = Board::from_fen(QUEEN_ENDING).unwrap();
    let legal: Vec<u16> = board.generate_moves().iter().map(|m| m.get_raw()).collect();
    let stands = Eval::eval_low(&board) as i64;
    let mut out = Vec::new();
    let last = chess_trainer::selfplay::sample_position(&mut board, 0, &mut out);
    assert_eq!(board.fen(), QUEEN_ENDING);
    assert!(out.len() <= RANDOM_MOVES);
    let mut prev = 0i64;
    for s in out.iter() {
        assert_eq!(s.label.denominator, 1);
        let label = s.label.numerator;
        // The sample is one of the legal moves with its rating.
        let mv = legal.iter().find(|m| encode_move(&board, **m) == s.features).unwrap();
        assert_eq!(label, rate_move(&mut board, *mv, -SEARCH_BOUND, SEARCH_BOUND, 3) - stands);
        // It lies outside the band of the one kept before.
        assert!(!in_noise_band(label, prev));
        prev = label;
    }
    assert_eq!(last, prev);
}

#[test]
fn a_game_follows_the_searched_moves() {
    let mut board = Board::from_fen(QUEEN_ENDING).unwrap();
    let mut shadow = Board::from_fen(QUEEN_ENDING).unwrap();
    let mut out = Vec::new();
    play_desk(&mut board, &mut out);
    for _ in 0..45 {
        if shadow.checkmate() {
            break;
        }
        if shadow.turn() == pleco::Player::White && shadow.generate_moves().is_empty() {
            break;
        }
        let best = pleco::bots::alphabeta::alpha_beta_search(&mut shadow, -14000, 14000, 4);
        if !shadow.legal_move(best.bit_move) {
            break;
        }
        shadow.apply_move(best.bit_move);
    }
    assert_eq!(board.fen(), shadow.fen());
}

#[test]
fn a_ply_of_white_ends_with_the_searched_move() {
    let mut board = Board::from_fen(QUEEN_ENDING).unwrap();
    let mut shadow = Board::from_fen(QUEEN_ENDING).unwrap();
    let stands = Eval::eval_low(&shadow) as i64;
    let best = pleco::bots::alphabeta::alpha_beta_search(&mut shadow, -14000, 14000, 4);
    let mut out = Vec::new();
    let (goes_on, last) = chess_trainer::selfplay::play_ply(&mut board, 0, &mut out);
    assert!(goes_on);
    assert!(!out.is_empty() && out.len() <= 6);
    let picked = out.last().unwrap();
    assert_eq!(picked.features, encode_move(&shadow, best.bit_move.get_raw()));
    assert_eq!(picked.label, Fraction::whole(best.score as i64 - stands));
    // The label kept last is that of the last candidate, not of the picked move.
    if out.len() > 1 {
        assert_eq!(last, out[out.len() - 2].label.numerator);
    } else {
        assert_eq!(last, 0);
    }
    shadow.apply_move(best.bit_move);
    assert_eq!(board.fen(), shadow.fen());
}

#[test]
fn a_ply_of_black_adds_nothing() {
    let fen = "7k/8/8/8/8/8/Q7/K7 b - - 0 1";
    let mut board = Board::from_fen(fen).unwrap();
    let mut shadow = Board::from_fen(fen).unwrap();
    let best = pleco::bots::alphabeta::alpha_beta_search(&mut shadow, -14000, 14000, 4);
    let mut out = Vec::new();
    let (goes_on, last) = chess_trainer::selfplay::play_ply(&mut board, 321, &mut out);
    assert!(goes_on);
    assert_eq!(last, 321);
    assert!(out.is_empty());
    shadow.apply_move(best.bit_move);
    assert_eq!(board.fen(), shadow.fen());
}

#[test]
fn a_ply_from_a_mate_does_not_go_on() {
    let fen = "rnb1kbnr/pppp1ppp/8/4p3/6Pq/5P2/PPPPP2P/RNBQKBNR w KQkq - 1 3";
    let mut board = Board::from_fen(fen).unwrap();
    let mut out = Vec::new();
    assert_eq!(chess_trainer::selfplay::play_ply(&mut board, 7, &mut out), (false, 7));
    assert!(out.is_empty());
    assert_eq!(board.fen(), fen);
}

#[test]
fn a_game_adds_its_samples_ply_by_ply() {
    let mut board = Board::from_fen(QUEEN_ENDING).unwrap();
    let mut shadow = Board::from_fen(QUEEN_ENDING).unwrap();
    let mut out = Vec::new();
    play_desk(&mut board, &mut out);
    let mut at = 0usize;
    let mut prev = 0i64;
    for _ in 0..45 {
        if shadow.checkmate() {
            break;
        }
        let white = shadow.turn() == pleco::Player::White;
        if white && shadow.generate_moves().is_empty() {
            break;
        }
        let stands = Eval::eval_low(&shadow) as i64;
        let best = pleco::bots::alphabeta::alpha_beta_search(&mut shadow, -14000, 14000, 4);
        if white {
            let picked = LabeledSample {
                features: encode_move(&shadow, best.bit_move.get_raw()),
                label: Fraction::whole(best.score as i64 - stands),
            };
            // Candidates come first: at most five, each a rated legal move
            // that is no castle and lies outside the band of the one before.
            let legal: Vec<u16> = shadow.generate_moves().iter().map(|m| m.get_raw()).collect();
            let ratings: Vec<i64> = rate_move_list(&mut shadow, &legal, 3);
            let here = |s: &LabeledSample| legal.iter().any(|m| encode_move(&shadow, *m) == s.features);
            let mut candidates = 0;
            loop {
                let s = &out[at];
                let is_picked = s.features == picked.features && s.label == picked.label;
                // The picked move's sample is the last one of its position.
                let last_here = out.get(at + 1).map_or(true, |next| !here(next));
                at += 1;
                if is_picked && last_here {
                    break;
                }
                assert!(!last_here, "the picked move's sample is missing");
                candidates += 1;
                assert!(candidates <= 5);
                let rated = legal.iter().zip(ratings.iter()).any(|(m, r)| {
                    !chess_trainer::moves::is_castle(*m)
                        && encode_move(&shadow, *m) == s.features
                        && s.label == Fraction::whole(*r)
                });
                assert!(rated, "a candidate is no rated legal move");
                assert!(!in_noise_band(s.label.numerator, prev));
                prev = s.label.numerator;
            }
        }
        if !shadow.legal_move(best.bit_move) {
            break;
        }
        shadow.apply_move(best.bit_move);
    }
    assert_eq!(board.fen(), shadow.fen());
}
