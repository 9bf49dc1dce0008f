//! The search over learned evaluators: at a leaf the position is encoded, and
//! the vector is handed to the evaluator of the side to move.
//!
//! A learned evaluator is a function from a feature vector to a score, or to
//! nothing where it fails. The vector of a position needs the opponent's
//! replies to a pass; they come from a function of the caller, which is asked
//! only where the side to move is not in check.

use vstd::prelude::*;
use crate::sound::{board_is_playable, playable, same_counters, sound_position};
use crate::features::{encode_position, position_features, position_layout};
use crate::rules::{
    board_history,
    board_position,
    checkers_in,
    in_check,
    legal_moves_in,
    white_to_move_in,
};
use crate::search::{
    alpha_beta,
    full_width_core,
    make_negatable,
    minimax,
    negatable,
    pruning_core,
    pruning_fails,
    search_fails,
    taken,
    terminal_score,
    within_limit,
    SearchFailure,
    SearchResult,
};
use crate::moves::NULL_MOVE;

verus! {

/// Whether a model may give `answer` for some vector with these cells.
pub open spec fn may_infer<N: Fn(&Vec<u8>) -> Option<i16>>(
    net: N,
    cells: Seq<u8>,
    answer: Option<i16>,
) -> bool {
    exists|v: Vec<u8>| v@ == cells && #[trigger] call_ensures(net, (&v,), answer)
}

/// What a model gives for a vector: a score, or nothing where it fails.
pub open spec fn inferred<N: Fn(&Vec<u8>) -> Option<i16>>(net: N, cells: Seq<u8>) -> Option<i16> {
    choose|answer: Option<i16>| may_infer(net, cells, answer)
}

/// A model can be asked about every vector of a position's layout, and what
/// it gives, also whether it fails, depends on the cells alone.
pub open spec fn model_reads_cells<N: Fn(&Vec<u8>) -> Option<i16>>(
    net: N,
    with_material: bool,
) -> bool {
    &&& forall|v: Vec<u8>| v@.len() == position_layout(with_material) ==> call_requires(net, (&v,))
    &&& forall|v: Vec<u8>, answer: Option<i16>| #[trigger]
        call_ensures(net, (&v,), answer) ==> answer == inferred(net, v@)
}

/// Whether the passing function may return these moves for some board that
/// stands in `position`.
pub open spec fn may_reply<P: Fn(&pleco::Board) -> Vec<u16>>(
    passed: P,
    position: Seq<char>,
    replies: Seq<u16>,
) -> bool {
    exists|b: pleco::Board, moves: Vec<u16>|
        board_position(b) == position && moves@ == replies && #[trigger] call_ensures(
            passed,
            (&b,),
            moves,
        )
}

/// The opponent's replies to a pass in a position.
pub open spec fn replies_to_pass<P: Fn(&pleco::Board) -> Vec<u16>>(
    passed: P,
    position: Seq<char>,
) -> Seq<u16> {
    choose|replies: Seq<u16>| may_reply(passed, position, replies)
}

/// The passing function can be asked about every board that is not in check,
/// and what it returns depends on the position alone.
pub open spec fn passing_reads_position<P: Fn(&pleco::Board) -> Vec<u16>>(passed: P) -> bool {
    &&& forall|b: pleco::Board|
        checkers_in(#[trigger] board_position(b)) == 0 && sound_position(board_position(b))
            ==> call_requires(passed, (&b,))
    &&& forall|b: pleco::Board, moves: Vec<u16>| #[trigger]
        call_ensures(passed, (&b,), moves) ==> moves@ == replies_to_pass(
            passed,
            board_position(b),
        )
}

/// What a model gives for a position: its answer to the position's vector.
pub open spec fn learned_score<N: Fn(&Vec<u8>) -> Option<i16>, P: Fn(&pleco::Board) -> Vec<u16>>(
    net: N,
    passed: P,
    with_material: bool,
    position: Seq<char>,
) -> Option<i16> {
    inferred(net, position_features(position, replies_to_pass(passed, position), with_material))
}

/// What the model of the side to move gives for a position.
pub open spec fn learned_answer<
    W: Fn(&Vec<u8>) -> Option<i16>,
    B: Fn(&Vec<u8>) -> Option<i16>,
    P: Fn(&pleco::Board) -> Vec<u16>,
>(net: W, net_black: B, passed: P, with_material: bool, position: Seq<char>) -> Option<i16> {
    if white_to_move_in(position) {
        learned_score(net, passed, with_material, position)
    } else {
        learned_score(net_black, passed, with_material, position)
    }
}

/// The score at a leaf: the answer of White's model where White is to move
/// and of Black's where Black is, brought into range, and negated where
/// `inv_val` is set.
pub open spec fn learned_leaf_score<
    W: Fn(&Vec<u8>) -> Option<i16>,
    B: Fn(&Vec<u8>) -> Option<i16>,
    P: Fn(&pleco::Board) -> Vec<u16>,
>(net: W, net_black: B, passed: P, with_material: bool, inv_val: bool, position: Seq<char>) -> int {
    taken(learned_answer(net, net_black, passed, with_material, position), inv_val)
}

/// The positions at which the model of the side to move fails.
pub open spec fn learned_failing<
    W: Fn(&Vec<u8>) -> Option<i16>,
    B: Fn(&Vec<u8>) -> Option<i16>,
    P: Fn(&pleco::Board) -> Vec<u16>,
>(net: W, net_black: B, passed: P, with_material: bool) -> spec_fn(Seq<char>) -> bool {
    |position: Seq<char>| learned_answer(net, net_black, passed, with_material, position) is None
}

/// The leaf evaluation that two models, a passing function and the two
/// settings stand for.
pub open spec fn learned_leaf<
    W: Fn(&Vec<u8>) -> Option<i16>,
    B: Fn(&Vec<u8>) -> Option<i16>,
    P: Fn(&pleco::Board) -> Vec<u16>,
>(net: W, net_black: B, passed: P, with_material: bool, inv_val: bool) -> spec_fn(
    Seq<char>,
) -> int {
    |position: Seq<char>|
        learned_leaf_score(net, net_black, passed, with_material, inv_val, position)
}

/// Encodes the board as it stands, in a sound position, and asks a model
/// for its score. Where the model fails, so does this.
pub fn infer_position<N, P>(b: &pleco::Board, net: &N, passed: &P, with_material: bool) -> (answer:
    Option<i16>) where N: Fn(&Vec<u8>) -> Option<i16>, P: Fn(&pleco::Board) -> Vec<u16>
    requires
        sound_position(board_position(*b)),
        model_reads_cells(*net, with_material),
        passing_reads_position(*passed),
    ensures
        answer == learned_score(*net, *passed, with_material, board_position(*b)),
{
    let replies = if in_check(b) {
        Vec::new()
    } else {
        passed(b)
    };
    let cells = encode_position(b, &replies, with_material);
    assert(cells@ == position_features(
        board_position(*b),
        replies_to_pass(*passed, board_position(*b)),
        with_material,
    ));
    net(&cells)
}

/// The full-width search over learned evaluators. On a board that cannot be
/// played on for `depth` moves it searches nothing; where a model fails at a
/// leaf it stops. Either way it says so. Else it returns the first move
/// whose score is the greatest. It leaves the board as it found it.
pub fn my_minimax<W, B, P>(
    board: &mut pleco::Board,
    depth: u16,
    net: &W,
    net_black: &B,
    passed: &P,
    with_material: bool,
    inv_val: bool,
) -> (found: Result<SearchResult, SearchFailure>) where
    W: Fn(&Vec<u8>) -> Option<i16>,
    B: Fn(&Vec<u8>) -> Option<i16>,
    P: Fn(&pleco::Board) -> Vec<u16>,

    requires
        model_reads_cells(*net, with_material),
        model_reads_cells(*net_black, with_material),
        passing_reads_position(*passed),
    ensures
        found == Err::<SearchResult, SearchFailure>(SearchFailure::UnsoundBoard) <==> !playable(
            *old(board),
            depth as int,
        ),
        found == Err::<SearchResult, SearchFailure>(SearchFailure::Evaluator) <==> playable(
            *old(board),
            depth as int,
        ) && search_fails(
            learned_failing(*net, *net_black, *passed, with_material),
            board_position(*old(board)),
            depth as nat,
        ),
        found matches Ok(best) ==> {
            &&& best.pair() == minimax(
                learned_leaf(*net, *net_black, *passed, with_material, inv_val),
                board_position(*old(board)),
                depth as nat,
            )
            &&& depth == 0 ==> best.bit_move == NULL_MOVE && best.score == learned_leaf_score(
                *net,
                *net_black,
                *passed,
                with_material,
                inv_val,
                board_position(*old(board)),
            )
            &&& depth > 0 && legal_moves_in(board_position(*old(board))).len() == 0
                ==> best.bit_move == NULL_MOVE && best.score == terminal_score(
                board_position(*old(board)),
            )
            &&& depth > 0 && legal_moves_in(board_position(*old(board))).len() > 0
                ==> legal_moves_in(board_position(*old(board))).contains(best.bit_move)
            &&& within_limit(best.score)
        },
        board_position(*final(board)) == board_position(*old(board)),
        board_history(*final(board)) == board_history(*old(board)),
        same_counters(*old(board), *final(board)),
{
    if !board_is_playable(board, depth) {
        return Err(SearchFailure::UnsoundBoard);
    }
    let white_leaf = |b: &pleco::Board| -> (answer: Option<i16>)
        requires
            sound_position(board_position(*b)),
        ensures
            answer == learned_score(*net, *passed, with_material, board_position(*b)),
        { infer_position(b, net, passed, with_material) };
    let black_leaf = |b: &pleco::Board| -> (answer: Option<i16>)
        requires
            sound_position(board_position(*b)),
        ensures
            answer == learned_score(*net_black, *passed, with_material, board_position(*b)),
        { infer_position(b, net_black, passed, with_material) };
    let found = full_width_core(
        board,
        depth,
        &white_leaf,
        &black_leaf,
        inv_val,
        Ghost(learned_leaf(*net, *net_black, *passed, with_material, inv_val)),
        Ghost(learned_failing(*net, *net_black, *passed, with_material)),
    );
    match found {
        Some(best) => Ok(best),
        None => Err(SearchFailure::Evaluator),
    }
}

/// The search with alpha-beta pruning over learned evaluators. On a board
/// that cannot be played on for `depth` moves it searches nothing; where a
/// model fails at a leaf it stops. Either way it says so. `alpha` and `beta`
/// may be any scores; the least `i16` counts as the one above it. It leaves
/// the board as it found it.
pub fn my_alpha_beta_search<W, B, P>(
    board: &mut pleco::Board,
    alpha: i16,
    beta: i16,
    depth: u16,
    net: &W,
    net_black: &B,
    passed: &P,
    with_material: bool,
    inv_val: bool,
) -> (found: Result<SearchResult, SearchFailure>) where
    W: Fn(&Vec<u8>) -> Option<i16>,
    B: Fn(&Vec<u8>) -> Option<i16>,
    P: Fn(&pleco::Board) -> Vec<u16>,

    requires
        model_reads_cells(*net, with_material),
        model_reads_cells(*net_black, with_material),
        passing_reads_position(*passed),
    ensures
        found == Err::<SearchResult, SearchFailure>(SearchFailure::UnsoundBoard) <==> !playable(
            *old(board),
            depth as int,
        ),
        found == Err::<SearchResult, SearchFailure>(SearchFailure::Evaluator) <==> playable(
            *old(board),
            depth as int,
        ) && pruning_fails(
            learned_leaf(*net, *net_black, *passed, with_material, inv_val),
            learned_failing(*net, *net_black, *passed, with_material),
            board_position(*old(board)),
            negatable(alpha) as int,
            negatable(beta) as int,
            depth as nat,
        ),
        found matches Ok(best) ==> {
            &&& best.pair() == alpha_beta(
                learned_leaf(*net, *net_black, *passed, with_material, inv_val),
                board_position(*old(board)),
                negatable(alpha) as int,
                negatable(beta) as int,
                depth as nat,
            )
            &&& depth == 0 ==> best.bit_move == NULL_MOVE && best.score == learned_leaf_score(
                *net,
                *net_black,
                *passed,
                with_material,
                inv_val,
                board_position(*old(board)),
            )
            &&& depth > 0 && legal_moves_in(board_position(*old(board))).len() == 0
                ==> best.bit_move == NULL_MOVE && best.score == terminal_score(
                board_position(*old(board)),
            )
            &&& best.bit_move == NULL_MOVE || legal_moves_in(
                board_position(*old(board)),
            ).contains(best.bit_move)
            &&& best.score > i16::MIN
            &&& within_limit(alpha) && within_limit(beta) ==> within_limit(best.score)
        },
        board_position(*final(board)) == board_position(*old(board)),
        board_history(*final(board)) == board_history(*old(board)),
        same_counters(*old(board), *final(board)),
{
    if !board_is_playable(board, depth) {
        return Err(SearchFailure::UnsoundBoard);
    }
    let alpha = make_negatable(alpha);
    let beta = make_negatable(beta);
    let white_leaf = |b: &pleco::Board| -> (answer: Option<i16>)
        requires
            sound_position(board_position(*b)),
        ensures
            answer == learned_score(*net, *passed, with_material, board_position(*b)),
        { infer_position(b, net, passed, with_material) };
    let black_leaf = |b: &pleco::Board| -> (answer: Option<i16>)
        requires
            sound_position(board_position(*b)),
        ensures
            answer == learned_score(*net_black, *passed, with_material, board_position(*b)),
        { infer_position(b, net_black, passed, with_material) };
    let found = pruning_core(
        board,
        alpha,
        beta,
        depth,
        &white_leaf,
        &black_leaf,
        inv_val,
        Ghost(learned_leaf(*net, *net_black, *passed, with_material, inv_val)),
        Ghost(learned_failing(*net, *net_black, *passed, with_material)),
    );
    match found {
        Some(best) => Ok(best),
        None => Err(SearchFailure::Evaluator),
    }
}

} // verus!
