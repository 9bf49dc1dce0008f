//! Depth-limited negamax search on a board, with and without alpha-beta
//! pruning, over leaf evaluators that the caller brings.
//!
//! An evaluator is a function from a board to a score, or to nothing where it
//! fails; it is asked only at depth zero. The search plays a move, searches
//! the position reached with the bounds negated and swapped, takes the move
//! back and negates the score. Where an evaluator fails, the search takes
//! back the moves it has played and hands the failure to its caller.

use vstd::prelude::*;
use crate::moves::NULL_MOVE;
use crate::sound::{board_is_playable, playable, same_counters, sound_position, steps_left};
use crate::rules::{
    apply_move,
    board_history,
    board_position,
    checkers_in,
    in_check,
    legal_moves,
    legal_moves_in,
    position_after,
    undo_move,
    white_to_move,
    white_to_move_in,
};

verus! {

/// The score of a position in which the side to move is mated, negated.
pub const MATE_V: i16 = 31000;

/// The score of a position without a legal move and without check.
pub const DRAW_V: i16 = 0;

/// The bound of the conventional score range: what an evaluator returns is
/// brought into `[-SCORE_LIMIT, SCORE_LIMIT]`.
pub const SCORE_LIMIT: i16 = 32000;

/// Below every score that a search compares.
pub const SCORE_FLOOR: i16 = i16::MIN;

/// A move with its score. The null move stands where no move was chosen.
#[derive(Clone, Copy, Debug, PartialEq, Eq, Structural)]
pub struct SearchResult {
    pub bit_move: u16,
    pub score: i16,
}

impl SearchResult {
    /// The pair of move and score, the score as a mathematical integer.
    pub open spec fn pair(self) -> (u16, int) {
        (self.bit_move, self.score as int)
    }

    /// The null move with a score.
    pub fn blank(score: i16) -> (found: SearchResult)
        ensures
            found.bit_move == NULL_MOVE,
            found.score == score,
    {
        SearchResult { bit_move: NULL_MOVE, score }
    }
}

/// Why a search returns no result.
#[derive(Clone, Copy, Debug, PartialEq, Eq, Structural)]
pub enum SearchFailure {
    /// The board does not stand in a sound position, or its counters have
    /// no room for the moves of the search; nothing was searched.
    UnsoundBoard,
    /// An evaluator gave no score at a leaf.
    Evaluator,
}

/// Whether an evaluator may give `answer` for some board that stands in
/// `position`.
pub open spec fn may_score<E: Fn(&pleco::Board) -> Option<i16>>(
    evaluator: E,
    position: Seq<char>,
    answer: Option<i16>,
) -> bool {
    exists|b: pleco::Board| #[trigger]
        board_position(b) == position && call_ensures(evaluator, (&b,), answer)
}

/// What an evaluator gives for a position: a score, or nothing where it
/// fails.
pub open spec fn evaluator_score<E: Fn(&pleco::Board) -> Option<i16>>(
    evaluator: E,
    position: Seq<char>,
) -> Option<i16> {
    choose|answer: Option<i16>| may_score(evaluator, position, answer)
}

/// An evaluator can be asked about every board in a sound position, and what
/// it gives, also whether it fails, depends on the position alone.
pub open spec fn evaluator_reads_position<E: Fn(&pleco::Board) -> Option<i16>>(
    evaluator: E,
) -> bool {
    &&& forall|b: pleco::Board|
        sound_position(#[trigger] board_position(b)) ==> call_requires(evaluator, (&b,))
    &&& forall|b: pleco::Board, answer: Option<i16>| #[trigger]
        call_ensures(evaluator, (&b,), answer) ==> answer == evaluator_score(
            evaluator,
            board_position(b),
        )
}

/// A bound as the search takes it: the least score cannot be negated and
/// stands for the one above it, which no score of a search goes below
/// either.
pub open spec fn negatable(bound: i16) -> i16 {
    if bound == i16::MIN {
        (i16::MIN + 1) as i16
    } else {
        bound
    }
}

/// Whether a score lies in the conventional range.
pub open spec fn within_limit(score: i16) -> bool {
    -SCORE_LIMIT <= score <= SCORE_LIMIT
}

/// A score brought into the conventional range.
pub open spec fn clamped(raw: int) -> int {
    if raw > SCORE_LIMIT {
        SCORE_LIMIT as int
    } else if raw < -SCORE_LIMIT {
        -SCORE_LIMIT
    } else {
        raw
    }
}

/// A score as the search takes it from an evaluator: brought into range, and
/// negated where `inv_val` is set.
pub open spec fn oriented(raw: i16, inv_val: bool) -> int {
    if inv_val {
        -clamped(raw as int)
    } else {
        clamped(raw as int)
    }
}

/// What the evaluator of the side to move gives for a position.
pub open spec fn leaf_answer<
    W: Fn(&pleco::Board) -> Option<i16>,
    B: Fn(&pleco::Board) -> Option<i16>,
>(net: W, net_black: B, position: Seq<char>) -> Option<i16> {
    if white_to_move_in(position) {
        evaluator_score(net, position)
    } else {
        evaluator_score(net_black, position)
    }
}

/// What the search takes from an evaluator's answer: the score brought into
/// range, and negated where `inv_val` is set. No answer has no score; zero
/// stands for it.
pub open spec fn taken(answer: Option<i16>, inv_val: bool) -> int {
    match answer {
        Some(raw) => oriented(raw, inv_val),
        None => 0,
    }
}

/// The score at a leaf: what the search takes from White's evaluator where
/// White is to move, and from Black's where Black is.
pub open spec fn leaf_score<
    W: Fn(&pleco::Board) -> Option<i16>,
    B: Fn(&pleco::Board) -> Option<i16>,
>(net: W, net_black: B, inv_val: bool, position: Seq<char>) -> int {
    taken(leaf_answer(net, net_black, position), inv_val)
}

/// The leaf evaluation that a pair of evaluators and a flag stand for.
pub open spec fn leaf_of<
    W: Fn(&pleco::Board) -> Option<i16>,
    B: Fn(&pleco::Board) -> Option<i16>,
>(net: W, net_black: B, inv_val: bool) -> spec_fn(Seq<char>) -> int {
    |position: Seq<char>| leaf_score(net, net_black, inv_val, position)
}

/// The positions at which the evaluator of the side to move fails.
pub open spec fn failing_of<
    W: Fn(&pleco::Board) -> Option<i16>,
    B: Fn(&pleco::Board) -> Option<i16>,
>(net: W, net_black: B) -> spec_fn(Seq<char>) -> bool {
    |position: Seq<char>| leaf_answer(net, net_black, position) is None
}

/// Whether an answer is what `leaf` and `failing` tell of a position.
pub open spec fn answers(
    leaf: spec_fn(Seq<char>) -> int,
    failing: spec_fn(Seq<char>) -> bool,
    position: Seq<char>,
    answer: Option<i16>,
    inv_val: bool,
) -> bool {
    &&& failing(position) <==> answer is None
    &&& answer is Some ==> leaf(position) == taken(answer, inv_val)
}

/// Whether `leaf` and `failing` tell, for every board, what the search
/// takes from the evaluators there: both can be asked about every board in a
/// sound position, the evaluator of the side to move fails exactly at the
/// positions of `failing`, and what it gives elsewhere is the leaf's score.
pub open spec fn leaf_describes<
    W: Fn(&pleco::Board) -> Option<i16>,
    B: Fn(&pleco::Board) -> Option<i16>,
>(
    leaf: spec_fn(Seq<char>) -> int,
    failing: spec_fn(Seq<char>) -> bool,
    net: W,
    net_black: B,
    inv_val: bool,
) -> bool {
    &&& forall|b: pleco::Board|
        sound_position(#[trigger] board_position(b)) ==> call_requires(net, (&b,))
    &&& forall|b: pleco::Board|
        sound_position(#[trigger] board_position(b)) ==> call_requires(net_black, (&b,))
    &&& forall|b: pleco::Board, answer: Option<i16>| #[trigger]
        call_ensures(net, (&b,), answer) && white_to_move_in(board_position(b)) ==> answers(
            leaf,
            failing,
            board_position(b),
            answer,
            inv_val,
        )
    &&& forall|b: pleco::Board, answer: Option<i16>| #[trigger]
        call_ensures(net_black, (&b,), answer) && !white_to_move_in(board_position(b))
            ==> answers(leaf, failing, board_position(b), answer, inv_val)
}

/// Evaluators whose answers depend on the position alone are described by
/// the leaf evaluation and the failing positions they stand for.
pub proof fn lemma_leaf_of_describes<
    W: Fn(&pleco::Board) -> Option<i16>,
    B: Fn(&pleco::Board) -> Option<i16>,
>(net: W, net_black: B, inv_val: bool)
    requires
        evaluator_reads_position(net),
        evaluator_reads_position(net_black),
    ensures
        leaf_describes(
            leaf_of(net, net_black, inv_val),
            failing_of(net, net_black),
            net,
            net_black,
            inv_val,
        ),
{
}

/// Whether the full-width search meets a leaf that fails: at depth zero the
/// position itself, else one among the positions after the legal moves.
pub open spec fn search_fails(
    failing: spec_fn(Seq<char>) -> bool,
    position: Seq<char>,
    depth: nat,
) -> bool
    decreases depth, legal_moves_in(position).len() + 1,
{
    if depth == 0 {
        failing(position)
    } else {
        search_fails_from(failing, position, depth, 0)
    }
}

/// `search_fails` over the moves from `next` on.
pub open spec fn search_fails_from(
    failing: spec_fn(Seq<char>) -> bool,
    position: Seq<char>,
    depth: nat,
    next: nat,
) -> bool
    decreases depth, legal_moves_in(position).len() - next,
{
    let moves = legal_moves_in(position);
    if depth == 0 || next >= moves.len() {
        false
    } else {
        search_fails(failing, position_after(position, moves[next as int]), (depth - 1) as nat)
            || search_fails_from(failing, position, depth, next + 1)
    }
}

/// Whether the pruning search meets a leaf that fails. It looks at fewer
/// leaves than the full-width search: at none behind a move that it cuts
/// off.
pub open spec fn pruning_fails(
    leaf: spec_fn(Seq<char>) -> int,
    failing: spec_fn(Seq<char>) -> bool,
    position: Seq<char>,
    alpha: int,
    beta: int,
    depth: nat,
) -> bool
    decreases depth, legal_moves_in(position).len() + 1,
{
    if depth == 0 {
        failing(position)
    } else {
        pruning_fails_from(leaf, failing, position, alpha, beta, depth, 0)
    }
}

/// `pruning_fails` over the moves from `next` on, `alpha` being the best
/// score so far.
pub open spec fn pruning_fails_from(
    leaf: spec_fn(Seq<char>) -> int,
    failing: spec_fn(Seq<char>) -> bool,
    position: Seq<char>,
    alpha: int,
    beta: int,
    depth: nat,
    next: nat,
) -> bool
    decreases depth, legal_moves_in(position).len() - next,
{
    let moves = legal_moves_in(position);
    if depth == 0 || next >= moves.len() {
        false
    } else {
        let reply = position_after(position, moves[next as int]);
        if pruning_fails(leaf, failing, reply, -beta, -alpha, (depth - 1) as nat) {
            true
        } else {
            let score = -alpha_beta(leaf, reply, -beta, -alpha, (depth - 1) as nat).1;
            if score > alpha {
                if score > beta {
                    false
                } else {
                    pruning_fails_from(leaf, failing, position, score, beta, depth, next + 1)
                }
            } else {
                pruning_fails_from(leaf, failing, position, alpha, beta, depth, next + 1)
            }
        }
    }
}

/// The score of a position without a legal move: mated where in check, drawn
/// where not.
pub open spec fn terminal_score(position: Seq<char>) -> int {
    if checkers_in(position) != 0 {
        -MATE_V
    } else {
        DRAW_V as int
    }
}

/// What the full-width search returns: at depth zero the leaf's score with the
/// null move, without a legal move the terminal score with the null move, and
/// else the first move whose negated reply score is the greatest, with that
/// score.
pub open spec fn minimax(leaf: spec_fn(Seq<char>) -> int, position: Seq<char>, depth: nat) -> (
    u16,
    int,
)
    decreases depth, legal_moves_in(position).len() + 1,
{
    if depth == 0 {
        (NULL_MOVE, leaf(position))
    } else if legal_moves_in(position).len() == 0 {
        (NULL_MOVE, terminal_score(position))
    } else {
        minimax_scan(leaf, position, depth, 0, (NULL_MOVE, SCORE_FLOOR as int))
    }
}

/// The full-width search over the moves from `next` on, `best` being the best
/// of the moves before.
pub open spec fn minimax_scan(
    leaf: spec_fn(Seq<char>) -> int,
    position: Seq<char>,
    depth: nat,
    next: nat,
    best: (u16, int),
) -> (u16, int)
    decreases depth, legal_moves_in(position).len() - next,
{
    let moves = legal_moves_in(position);
    if depth == 0 || next >= moves.len() {
        best
    } else {
        let mv = moves[next as int];
        let score = -minimax(leaf, position_after(position, mv), (depth - 1) as nat).1;
        minimax_scan(
            leaf,
            position,
            depth,
            next + 1,
            if score > best.1 {
                (mv, score)
            } else {
                best
            },
        )
    }
}

/// What the pruning search returns for the bounds `alpha` and `beta`.
pub open spec fn alpha_beta(
    leaf: spec_fn(Seq<char>) -> int,
    position: Seq<char>,
    alpha: int,
    beta: int,
    depth: nat,
) -> (u16, int)
    decreases depth, legal_moves_in(position).len() + 1,
{
    if depth == 0 {
        (NULL_MOVE, leaf(position))
    } else if legal_moves_in(position).len() == 0 {
        (NULL_MOVE, terminal_score(position))
    } else {
        alpha_beta_scan(leaf, position, alpha, beta, depth, 0, (NULL_MOVE, alpha))
    }
}

/// The pruning search over the moves from `next` on. `alpha` is the best score
/// so far and `best` the move that gave it. A move whose score exceeds `beta`
/// is returned at once; one that only exceeds `alpha` raises it.
pub open spec fn alpha_beta_scan(
    leaf: spec_fn(Seq<char>) -> int,
    position: Seq<char>,
    alpha: int,
    beta: int,
    depth: nat,
    next: nat,
    best: (u16, int),
) -> (u16, int)
    decreases depth, legal_moves_in(position).len() - next,
{
    let moves = legal_moves_in(position);
    if depth == 0 || next >= moves.len() {
        best
    } else {
        let mv = moves[next as int];
        let score = -alpha_beta(
            leaf,
            position_after(position, mv),
            -beta,
            -alpha,
            (depth - 1) as nat,
        ).1;
        if score > alpha {
            if score > beta {
                (mv, score)
            } else {
                alpha_beta_scan(leaf, position, score, beta, depth, next + 1, (mv, score))
            }
        } else {
            alpha_beta_scan(leaf, position, alpha, beta, depth, next + 1, best)
        }
    }
}

/// The value of a position at a depth for one of the two sides: for the side
/// to move (`own`) the greatest value among the replies, for the other side
/// the least.
pub open spec fn value_for(
    leaf: spec_fn(Seq<char>) -> int,
    position: Seq<char>,
    depth: nat,
    own: bool,
) -> int
    decreases depth, legal_moves_in(position).len() + 1,
{
    if depth == 0 {
        if own {
            leaf(position)
        } else {
            -leaf(position)
        }
    } else if legal_moves_in(position).len() == 0 {
        if own {
            terminal_score(position)
        } else {
            -terminal_score(position)
        }
    } else {
        value_scan(
            leaf,
            position,
            depth,
            own,
            0,
            if own {
                SCORE_FLOOR as int
            } else {
                -SCORE_FLOOR
            },
        )
    }
}

/// `value_for` over the moves from `next` on.
pub open spec fn value_scan(
    leaf: spec_fn(Seq<char>) -> int,
    position: Seq<char>,
    depth: nat,
    own: bool,
    next: nat,
    best: int,
) -> int
    decreases depth, legal_moves_in(position).len() - next,
{
    let moves = legal_moves_in(position);
    if depth == 0 || next >= moves.len() {
        best
    } else {
        let reply = value_for(
            leaf,
            position_after(position, moves[next as int]),
            (depth - 1) as nat,
            !own,
        );
        value_scan(
            leaf,
            position,
            depth,
            own,
            next + 1,
            if own == (reply > best) {
                reply
            } else {
                best
            },
        )
    }
}

/// Whether the leaves' scores have to be negated: the evaluators score for
/// White, and the side to move at the leaves is Black where White starts and
/// the depth is odd, or Black starts and the depth is even.
pub open spec fn leaves_are_blacks(white_to_move: bool, depth: u16) -> bool {
    if white_to_move {
        depth % 2 == 1
    } else {
        depth % 2 == 0
    }
}

/// Setting `inv_val` turns every leaf score into its negation: the same
/// evaluators, read for the other side.
pub proof fn lemma_inversion_negates_leaves<
    W: Fn(&pleco::Board) -> Option<i16>,
    B: Fn(&pleco::Board) -> Option<i16>,
>(net: W, net_black: B, position: Seq<char>)
    ensures
        leaf_score(net, net_black, true, position) == -leaf_score(net, net_black, false, position),
{
}

/// The full-width scan never returns less than the best it started from.
proof fn lemma_minimax_scan_at_least(
    leaf: spec_fn(Seq<char>) -> int,
    position: Seq<char>,
    depth: nat,
    next: nat,
    best: (u16, int),
)
    ensures
        minimax_scan(leaf, position, depth, next, best).1 >= best.1,
    decreases legal_moves_in(position).len() - next,
{
    let moves = legal_moves_in(position);
    if depth == 0 || next >= moves.len() {
    } else {
        let mv = moves[next as int];
        let score = -minimax(leaf, position_after(position, mv), (depth - 1) as nat).1;
        lemma_minimax_scan_at_least(
            leaf,
            position,
            depth,
            next + 1,
            if score > best.1 {
                (mv, score)
            } else {
                best
            },
        );
    }
}

/// The scans of the two searches side by side. `alpha0` is the bound the
/// pruning search started with. As long as the full-width search has seen
/// nothing above `alpha0`, the pruning search has changed nothing; after
/// that the two hold the same move and score, until the full-width search
/// sees a score above `beta`: from then on the pruning search holds `beta`.
proof fn lemma_scans_agree(
    leaf: spec_fn(Seq<char>) -> int,
    position: Seq<char>,
    alpha0: int,
    alpha: int,
    beta: int,
    depth: nat,
    next: nat,
    pruned_best: (u16, int),
    full_best: (u16, int),
)
    requires
        depth > 0,
        SCORE_FLOOR <= alpha0 <= alpha <= beta <= -SCORE_FLOOR,
        pruned_best.1 == alpha,
        full_best.1 > beta ==> alpha == beta,
        full_best.1 <= beta ==> full_best.1 <= alpha,
        alpha0 < full_best.1 <= beta ==> full_best == pruned_best,
        full_best.1 <= alpha0 ==> alpha == alpha0 && pruned_best == (NULL_MOVE, alpha0),
    ensures
        ({
            let pruned = alpha_beta_scan(leaf, position, alpha, beta, depth, next, pruned_best);
            let full = minimax_scan(leaf, position, depth, next, full_best);
            &&& full.1 <= alpha0 ==> pruned == (NULL_MOVE, alpha0)
            &&& alpha0 < full.1 <= beta ==> pruned == full
            &&& full.1 > beta ==> beta <= pruned.1 <= full.1
        }),
    decreases depth, legal_moves_in(position).len() - next,
{
    let moves = legal_moves_in(position);
    if next >= moves.len() {
    } else {
        let mv = moves[next as int];
        let child = position_after(position, mv);
        lemma_window(leaf, child, -beta, -alpha, (depth - 1) as nat);
        let full_score = -minimax(leaf, child, (depth - 1) as nat).1;
        let pruned_score = -alpha_beta(leaf, child, -beta, -alpha, (depth - 1) as nat).1;
        let full_next = if full_score > full_best.1 {
            (mv, full_score)
        } else {
            full_best
        };
        if pruned_score > alpha {
            if pruned_score > beta {
                lemma_minimax_scan_at_least(leaf, position, depth, next + 1, full_next);
            } else {
                lemma_scans_agree(
                    leaf,
                    position,
                    alpha0,
                    pruned_score,
                    beta,
                    depth,
                    next + 1,
                    (mv, pruned_score),
                    full_next,
                );
            }
        } else {
            lemma_scans_agree(
                leaf,
                position,
                alpha0,
                alpha,
                beta,
                depth,
                next + 1,
                pruned_best,
                full_next,
            );
        }
    }
}

/// The pruning search against the full-width search on one position: where
/// the full-width score lies above `alpha` and not above `beta` they return
/// the same; at or below `alpha` the pruning search returns something
/// between the true score and `alpha`, above `beta` something between `beta`
/// and the true score.
proof fn lemma_window(
    leaf: spec_fn(Seq<char>) -> int,
    position: Seq<char>,
    alpha: int,
    beta: int,
    depth: nat,
)
    requires
        SCORE_FLOOR <= alpha <= beta <= -SCORE_FLOOR,
    ensures
        ({
            let pruned = alpha_beta(leaf, position, alpha, beta, depth);
            let full = minimax(leaf, position, depth);
            &&& alpha < full.1 <= beta ==> pruned == full
            &&& full.1 <= alpha ==> full.1 <= pruned.1 <= alpha
            &&& full.1 > beta ==> beta <= pruned.1 <= full.1
        }),
    decreases depth, legal_moves_in(position).len() + 1,
{
    if depth == 0 {
    } else if legal_moves_in(position).len() == 0 {
    } else {
        lemma_scans_agree(
            leaf,
            position,
            alpha,
            alpha,
            beta,
            depth,
            0,
            (NULL_MOVE, alpha),
            (NULL_MOVE, SCORE_FLOOR as int),
        );
    }
}

/// Pruning changes nothing where the bounds are respected: for bounds that
/// hold the full-width score, above `alpha` and not above `beta`, the pruning
/// search returns the move and the score of the full-width search.
pub proof fn lemma_pruning_is_exact(
    leaf: spec_fn(Seq<char>) -> int,
    position: Seq<char>,
    alpha: int,
    beta: int,
    depth: nat,
)
    requires
        SCORE_FLOOR <= alpha,
        beta <= -SCORE_FLOOR,
        alpha < minimax(leaf, position, depth).1 <= beta,
    ensures
        alpha_beta(leaf, position, alpha, beta, depth) == minimax(leaf, position, depth),
{
    lemma_window(leaf, position, alpha, beta, depth);
}

/// Outside the bounds the pruning search still tells on which side the score
/// lies: a full-width score at or below `alpha` gives a result at or below
/// `alpha`, one above `beta` a result at or above `beta`, and the result
/// never lies farther out than the full-width score.
pub proof fn lemma_pruning_bounds(
    leaf: spec_fn(Seq<char>) -> int,
    position: Seq<char>,
    alpha: int,
    beta: int,
    depth: nat,
)
    requires
        SCORE_FLOOR <= alpha <= beta <= -SCORE_FLOOR,
    ensures
        minimax(leaf, position, depth).1 <= alpha ==> minimax(leaf, position, depth).1
            <= alpha_beta(leaf, position, alpha, beta, depth).1 <= alpha,
        minimax(leaf, position, depth).1 > beta ==> beta <= alpha_beta(
            leaf,
            position,
            alpha,
            beta,
            depth,
        ).1 <= minimax(leaf, position, depth).1,
{
    lemma_window(leaf, position, alpha, beta, depth);
}

/// Searching a reply with the bounds negated and swapped is consistent with
/// the bounds of the move: where the move's score, the negation of the
/// reply position's full-width score, lies at or above `alpha` and below
/// `beta`, the pruning search of the reply position between `-beta` and
/// `-alpha` gives, negated, exactly that score.
pub proof fn lemma_negated_bounds(
    leaf: spec_fn(Seq<char>) -> int,
    reply_position: Seq<char>,
    alpha: int,
    beta: int,
    depth: nat,
)
    requires
        SCORE_FLOOR <= alpha <= beta <= -SCORE_FLOOR,
        alpha <= -minimax(leaf, reply_position, depth).1 < beta,
    ensures
        -alpha_beta(leaf, reply_position, -beta, -alpha, depth).1 == -minimax(
            leaf,
            reply_position,
            depth,
        ).1,
{
    lemma_window(leaf, reply_position, -beta, -alpha, depth);
}

/// The scan of `value_for` against the scan of the full-width search.
proof fn lemma_value_scan(
    leaf: spec_fn(Seq<char>) -> int,
    position: Seq<char>,
    depth: nat,
    next: nat,
    best: (u16, int),
)
    requires
        depth > 0,
    ensures
        value_scan(leaf, position, depth, true, next, best.1) == minimax_scan(
            leaf,
            position,
            depth,
            next,
            best,
        ).1,
        value_scan(leaf, position, depth, false, next, -best.1) == -minimax_scan(
            leaf,
            position,
            depth,
            next,
            best,
        ).1,
    decreases depth, legal_moves_in(position).len() - next,
{
    let moves = legal_moves_in(position);
    if next >= moves.len() {
    } else {
        let mv = moves[next as int];
        let child = position_after(position, mv);
        lemma_sides_negate(leaf, child, (depth - 1) as nat);
        let score = -minimax(leaf, child, (depth - 1) as nat).1;
        lemma_value_scan(
            leaf,
            position,
            depth,
            next + 1,
            if score > best.1 {
                (mv, score)
            } else {
                best
            },
        );
    }
}

/// The sign convention of negamax: at every depth the value of a position for
/// the side that is not to move is the exact negation of its value for the
/// side to move, and the latter is the score of the full-width search.
pub proof fn lemma_sides_negate(leaf: spec_fn(Seq<char>) -> int, position: Seq<char>, depth: nat)
    ensures
        value_for(leaf, position, depth, true) == minimax(leaf, position, depth).1,
        value_for(leaf, position, depth, false) == -value_for(leaf, position, depth, true),
    decreases depth, legal_moves_in(position).len() + 1,
{
    if depth == 0 {
    } else if legal_moves_in(position).len() == 0 {
    } else {
        lemma_value_scan(leaf, position, depth, 0, (NULL_MOVE, SCORE_FLOOR as int));
    }
}

/// The full-width scan from `next` on fails wherever the pruning scan does.
proof fn lemma_pruning_scan_fails_within(
    leaf: spec_fn(Seq<char>) -> int,
    failing: spec_fn(Seq<char>) -> bool,
    position: Seq<char>,
    alpha: int,
    beta: int,
    depth: nat,
    next: nat,
)
    requires
        pruning_fails_from(leaf, failing, position, alpha, beta, depth, next),
    ensures
        search_fails_from(failing, position, depth, next),
    decreases depth, legal_moves_in(position).len() - next,
{
    let moves = legal_moves_in(position);
    if depth > 0 && next < moves.len() {
        let reply = position_after(position, moves[next as int]);
        if pruning_fails(leaf, failing, reply, -beta, -alpha, (depth - 1) as nat) {
            lemma_pruning_fails_within(leaf, failing, reply, -beta, -alpha, (depth - 1) as nat);
        } else {
            let score = -alpha_beta(leaf, reply, -beta, -alpha, (depth - 1) as nat).1;
            if score > alpha {
                lemma_pruning_scan_fails_within(
                    leaf,
                    failing,
                    position,
                    score,
                    beta,
                    depth,
                    next + 1,
                );
            } else {
                lemma_pruning_scan_fails_within(
                    leaf,
                    failing,
                    position,
                    alpha,
                    beta,
                    depth,
                    next + 1,
                );
            }
        }
    }
}

/// Pruning asks about no leaf that the full-width search leaves out: where
/// the pruning search meets a leaf that fails, whatever its bounds, the
/// full-width search of the same depth meets one too.
pub proof fn lemma_pruning_fails_within(
    leaf: spec_fn(Seq<char>) -> int,
    failing: spec_fn(Seq<char>) -> bool,
    position: Seq<char>,
    alpha: int,
    beta: int,
    depth: nat,
)
    requires
        pruning_fails(leaf, failing, position, alpha, beta, depth),
    ensures
        search_fails(failing, position, depth),
    decreases depth, legal_moves_in(position).len() + 1,
{
    if depth > 0 {
        lemma_pruning_scan_fails_within(leaf, failing, position, alpha, beta, depth, 0);
    }
}

/// The full-width scan from `next` on meets no failing leaf where none fails.
proof fn lemma_scan_never_fails(
    failing: spec_fn(Seq<char>) -> bool,
    position: Seq<char>,
    depth: nat,
    next: nat,
)
    requires
        forall|p: Seq<char>| !#[trigger] failing(p),
    ensures
        !search_fails_from(failing, position, depth, next),
    decreases depth, legal_moves_in(position).len() - next,
{
    let moves = legal_moves_in(position);
    if depth > 0 && next < moves.len() {
        lemma_never_fails(
            failing,
            position_after(position, moves[next as int]),
            (depth - 1) as nat,
        );
        lemma_scan_never_fails(failing, position, depth, next + 1);
    }
}

/// With evaluators that answer at every position no search fails: neither
/// the full-width search nor, by `lemma_pruning_fails_within`, the pruning
/// search.
pub proof fn lemma_never_fails(failing: spec_fn(Seq<char>) -> bool, position: Seq<char>, depth: nat)
    requires
        forall|p: Seq<char>| !#[trigger] failing(p),
    ensures
        !search_fails(failing, position, depth),
    decreases depth, legal_moves_in(position).len() + 1,
{
    if depth > 0 {
        lemma_scan_never_fails(failing, position, depth, 0);
    }
}

/// Brings a score into the conventional range.
pub fn clamp_score(raw: i16) -> (kept: i16)
    ensures
        kept == clamped(raw as int),
        -SCORE_LIMIT <= kept <= SCORE_LIMIT,
{
    if raw > SCORE_LIMIT {
        SCORE_LIMIT
    } else if raw < -SCORE_LIMIT {
        -SCORE_LIMIT
    } else {
        raw
    }
}

/// Whether a search of `depth` from a board with this side to move has to
/// negate what the evaluators return.
pub fn leaf_inversion(white_to_move: bool, depth: u16) -> (inv_val: bool)
    ensures
        inv_val == leaves_are_blacks(white_to_move, depth),
{
    if white_to_move {
        depth % 2 == 1
    } else {
        depth % 2 == 0
    }
}

/// Scores the board as it stands: asks the evaluator of the side to move,
/// brings the answer into range and negates it where `inv_val` is set.
/// Where the evaluator fails, nothing is returned.
pub(crate) fn evaluate_leaf<W, B>(
    board: &pleco::Board,
    net: &W,
    net_black: &B,
    inv_val: bool,
    Ghost(leaf): Ghost<spec_fn(Seq<char>) -> int>,
    Ghost(failing): Ghost<spec_fn(Seq<char>) -> bool>,
) -> (found: Option<SearchResult>) where
    W: Fn(&pleco::Board) -> Option<i16>,
    B: Fn(&pleco::Board) -> Option<i16>,

    requires
        sound_position(board_position(*board)),
        leaf_describes(leaf, failing, *net, *net_black, inv_val),
    ensures
        found is None <==> failing(board_position(*board)),
        found matches Some(best) ==> best.bit_move == NULL_MOVE && best.score == leaf(
            board_position(*board),
        ) && within_limit(best.score),
{
    let answer = if white_to_move(board) {
        net(board)
    } else {
        net_black(board)
    };
    assert(answers(leaf, failing, board_position(*board), answer, inv_val));
    match answer {
        Some(raw) => {
            let kept = clamp_score(raw);
            if inv_val {
                Some(SearchResult::blank(-kept))
            } else {
                Some(SearchResult::blank(kept))
            }
        },
        None => None,
    }
}

/// The full-width search against a leaf evaluation that describes the
/// evaluators. Where a leaf fails, the move that led there is taken back and
/// nothing is returned.
pub(crate) fn full_width_core<W, B>(
    board: &mut pleco::Board,
    depth: u16,
    net: &W,
    net_black: &B,
    inv_val: bool,
    Ghost(leaf): Ghost<spec_fn(Seq<char>) -> int>,
    Ghost(failing): Ghost<spec_fn(Seq<char>) -> bool>,
) -> (found: Option<SearchResult>) where
    W: Fn(&pleco::Board) -> Option<i16>,
    B: Fn(&pleco::Board) -> Option<i16>,

    requires
        playable(*old(board), depth as int),
        leaf_describes(leaf, failing, *net, *net_black, inv_val),
    ensures
        found is None <==> search_fails(failing, board_position(*old(board)), depth as nat),
        found matches Some(best) ==> {
            &&& best.pair() == minimax(leaf, board_position(*old(board)), depth as nat)
            &&& depth == 0 ==> best.bit_move == NULL_MOVE
            &&& depth > 0 && legal_moves_in(board_position(*old(board))).len() == 0
                ==> best.bit_move == NULL_MOVE
            &&& depth > 0 && legal_moves_in(board_position(*old(board))).len() > 0
                ==> legal_moves_in(board_position(*old(board))).contains(best.bit_move)
            &&& within_limit(best.score)
        },
        board_position(*final(board)) == board_position(*old(board)),
        board_history(*final(board)) == board_history(*old(board)),
        same_counters(*old(board), *final(board)),
    decreases depth,
{
    if depth == 0 {
        return evaluate_leaf(board, net, net_black, inv_val, Ghost(leaf), Ghost(failing));
    }
    let moves = legal_moves(board);
    if moves.len() == 0 {
        if in_check(board) {
            return Some(SearchResult::blank(-MATE_V));
        } else {
            return Some(SearchResult::blank(DRAW_V));
        }
    }
    let ghost position = board_position(*board);
    let ghost history = board_history(*board);
    let mut best = SearchResult::blank(SCORE_FLOOR);
    let mut i: usize = 0;
    while i < moves.len()
        invariant
            depth > 0,
            i <= moves.len(),
            moves@ == legal_moves_in(position),
            moves@.len() > 0,
            leaf_describes(leaf, failing, *net, *net_black, inv_val),
            sound_position(position),
            position == board_position(*old(board)),
            history == board_history(*old(board)),
            board_position(*board) == position,
            board_history(*board) == history,
            same_counters(*old(board), *board),
            steps_left(*old(board)) >= depth,
            minimax(leaf, position, depth as nat) == minimax_scan(
                leaf,
                position,
                depth as nat,
                i as nat,
                best.pair(),
            ),
            search_fails(failing, position, depth as nat) == search_fails_from(
                failing,
                position,
                depth as nat,
                i as nat,
            ),
            i == 0 ==> best.score == SCORE_FLOOR,
            i > 0 ==> within_limit(best.score) && moves@.contains(best.bit_move),
        decreases moves.len() - i,
    {
        let mv = moves[i];
        assert(moves@.contains(moves@[i as int]));
        apply_move(board, mv);
        let reply = full_width_core(
            board,
            depth - 1,
            net,
            net_black,
            inv_val,
            Ghost(leaf),
            Ghost(failing),
        );
        assert(board_history(*board).drop_last() =~= history);
        undo_move(board);
        match reply {
            Some(reply) => {
                let score = -reply.score;
                if score > best.score {
                    best = SearchResult { bit_move: mv, score };
                }
            },
            None => {
                return None;
            },
        }
        i += 1;
    }
    Some(best)
}

/// The pruning search against a leaf evaluation that describes the
/// evaluators. Where a leaf fails, the move that led there is taken back and
/// nothing is returned.
pub(crate) fn pruning_core<W, B>(
    board: &mut pleco::Board,
    alpha: i16,
    beta: i16,
    depth: u16,
    net: &W,
    net_black: &B,
    inv_val: bool,
    Ghost(leaf): Ghost<spec_fn(Seq<char>) -> int>,
    Ghost(failing): Ghost<spec_fn(Seq<char>) -> bool>,
) -> (found: Option<SearchResult>) where
    W: Fn(&pleco::Board) -> Option<i16>,
    B: Fn(&pleco::Board) -> Option<i16>,

    requires
        playable(*old(board), depth as int),
        alpha > i16::MIN,
        beta > i16::MIN,
        leaf_describes(leaf, failing, *net, *net_black, inv_val),
    ensures
        found is None <==> pruning_fails(
            leaf,
            failing,
            board_position(*old(board)),
            alpha as int,
            beta as int,
            depth as nat,
        ),
        found matches Some(best) ==> {
            &&& best.pair() == alpha_beta(
                leaf,
                board_position(*old(board)),
                alpha as int,
                beta as int,
                depth as nat,
            )
            &&& best.bit_move == NULL_MOVE || legal_moves_in(
                board_position(*old(board)),
            ).contains(best.bit_move)
            &&& best.score > i16::MIN
            &&& within_limit(alpha) && within_limit(beta) ==> within_limit(best.score)
        },
        board_position(*final(board)) == board_position(*old(board)),
        board_history(*final(board)) == board_history(*old(board)),
        same_counters(*old(board), *final(board)),
    decreases depth,
{
    if depth == 0 {
        return evaluate_leaf(board, net, net_black, inv_val, Ghost(leaf), Ghost(failing));
    }
    let moves = legal_moves(board);
    if moves.len() == 0 {
        if in_check(board) {
            return Some(SearchResult::blank(-MATE_V));
        } else {
            return Some(SearchResult::blank(DRAW_V));
        }
    }
    let ghost position = board_position(*board);
    let ghost history = board_history(*board);
    let mut raised: i16 = alpha;
    let mut best = SearchResult::blank(alpha);
    let mut i: usize = 0;
    while i < moves.len()
        invariant
            depth > 0,
            i <= moves.len(),
            moves@ == legal_moves_in(position),
            moves@.len() > 0,
            leaf_describes(leaf, failing, *net, *net_black, inv_val),
            sound_position(position),
            position == board_position(*old(board)),
            history == board_history(*old(board)),
            board_position(*board) == position,
            board_history(*board) == history,
            same_counters(*old(board), *board),
            steps_left(*old(board)) >= depth,
            raised > i16::MIN,
            beta > i16::MIN,
            within_limit(alpha) && within_limit(beta) ==> within_limit(raised),
            best.score == raised,
            best.bit_move == NULL_MOVE || moves@.contains(best.bit_move),
            alpha_beta(leaf, position, alpha as int, beta as int, depth as nat)
                == alpha_beta_scan(
                leaf,
                position,
                raised as int,
                beta as int,
                depth as nat,
                i as nat,
                best.pair(),
            ),
            pruning_fails(leaf, failing, position, alpha as int, beta as int, depth as nat)
                == pruning_fails_from(
                leaf,
                failing,
                position,
                raised as int,
                beta as int,
                depth as nat,
                i as nat,
            ),
        decreases moves.len() - i,
    {
        let mv = moves[i];
        assert(moves@.contains(moves@[i as int]));
        apply_move(board, mv);
        let reply = pruning_core(
            board,
            -beta,
            -raised,
            depth - 1,
            net,
            net_black,
            inv_val,
            Ghost(leaf),
            Ghost(failing),
        );
        assert(board_history(*board).drop_last() =~= history);
        undo_move(board);
        match reply {
            Some(reply) => {
                let score = -reply.score;
                if score > raised {
                    raised = score;
                    if raised > beta {
                        return Some(SearchResult { bit_move: mv, score });
                    }
                    best = SearchResult { bit_move: mv, score };
                }
            },
            None => {
                return None;
            },
        }
        i += 1;
    }
    Some(best)
}

/// A bound that can be negated: the least score stands for the one above it.
pub fn make_negatable(bound: i16) -> (kept: i16)
    ensures
        kept == negatable(bound),
        kept > i16::MIN,
        within_limit(bound) ==> kept == bound,
{
    if bound == i16::MIN {
        i16::MIN + 1
    } else {
        bound
    }
}

/// The full-width search. On a board that cannot be played on for `depth`
/// moves it searches nothing; where an evaluator fails at a leaf it stops.
/// Either way it says so. Else it returns the first move whose score is the
/// greatest. It leaves the board as it found it.
pub fn full_width_search<W, B>(
    board: &mut pleco::Board,
    depth: u16,
    net: &W,
    net_black: &B,
    inv_val: bool,
) -> (found: Result<SearchResult, SearchFailure>) where
    W: Fn(&pleco::Board) -> Option<i16>,
    B: Fn(&pleco::Board) -> Option<i16>,

    requires
        evaluator_reads_position(*net),
        evaluator_reads_position(*net_black),
    ensures
        found == Err::<SearchResult, SearchFailure>(SearchFailure::UnsoundBoard) <==> !playable(
            *old(board),
            depth as int,
        ),
        found == Err::<SearchResult, SearchFailure>(SearchFailure::Evaluator) <==> playable(
            *old(board),
            depth as int,
        ) && search_fails(
            failing_of(*net, *net_black),
            board_position(*old(board)),
            depth as nat,
        ),
        found matches Ok(best) ==> {
            &&& best.pair() == minimax(
                leaf_of(*net, *net_black, inv_val),
                board_position(*old(board)),
                depth as nat,
            )
            &&& depth == 0 ==> best.bit_move == NULL_MOVE && best.score == leaf_score(
                *net,
                *net_black,
                inv_val,
                board_position(*old(board)),
            )
            &&& depth > 0 && legal_moves_in(board_position(*old(board))).len() == 0
                ==> best.bit_move == NULL_MOVE && best.score == terminal_score(
                board_position(*old(board)),
            )
            &&& depth > 0 && legal_moves_in(board_position(*old(board))).len() > 0
                ==> legal_moves_in(board_position(*old(board))).contains(best.bit_move)
            &&& within_limit(best.score)
        },
        board_position(*final(board)) == board_position(*old(board)),
        board_history(*final(board)) == board_history(*old(board)),
        same_counters(*old(board), *final(board)),
{
    if !board_is_playable(board, depth) {
        return Err(SearchFailure::UnsoundBoard);
    }
    proof {
        lemma_leaf_of_describes(*net, *net_black, inv_val);
    }
    let found = full_width_core(
        board,
        depth,
        net,
        net_black,
        inv_val,
        Ghost(leaf_of(*net, *net_black, inv_val)),
        Ghost(failing_of(*net, *net_black)),
    );
    match found {
        Some(best) => Ok(best),
        None => Err(SearchFailure::Evaluator),
    }
}

/// The search with alpha-beta pruning. On a board that cannot be played on
/// for `depth` moves it searches nothing; where an evaluator fails at a leaf
/// it stops. Either way it says so. `alpha` and `beta` may be any scores;
/// the least `i16` counts as the one above it. It leaves the board as it
/// found it.
pub fn pruning_search<W, B>(
    board: &mut pleco::Board,
    alpha: i16,
    beta: i16,
    depth: u16,
    net: &W,
    net_black: &B,
    inv_val: bool,
) -> (found: Result<SearchResult, SearchFailure>) where
    W: Fn(&pleco::Board) -> Option<i16>,
    B: Fn(&pleco::Board) -> Option<i16>,

    requires
        evaluator_reads_position(*net),
        evaluator_reads_position(*net_black),
    ensures
        found == Err::<SearchResult, SearchFailure>(SearchFailure::UnsoundBoard) <==> !playable(
            *old(board),
            depth as int,
        ),
        found == Err::<SearchResult, SearchFailure>(SearchFailure::Evaluator) <==> playable(
            *old(board),
            depth as int,
        ) && pruning_fails(
            leaf_of(*net, *net_black, inv_val),
            failing_of(*net, *net_black),
            board_position(*old(board)),
            negatable(alpha) as int,
            negatable(beta) as int,
            depth as nat,
        ),
        found matches Ok(best) ==> {
            &&& best.pair() == alpha_beta(
                leaf_of(*net, *net_black, inv_val),
                board_position(*old(board)),
                negatable(alpha) as int,
                negatable(beta) as int,
                depth as nat,
            )
            &&& depth == 0 ==> best.bit_move == NULL_MOVE && best.score == leaf_score(
                *net,
                *net_black,
                inv_val,
                board_position(*old(board)),
            )
            &&& depth > 0 && legal_moves_in(board_position(*old(board))).len() == 0
                ==> best.bit_move == NULL_MOVE && best.score == terminal_score(
                board_position(*old(board)),
            )
            &&& best.bit_move == NULL_MOVE || legal_moves_in(
                board_position(*old(board)),
            ).contains(best.bit_move)
            &&& best.score > i16::MIN
            &&& within_limit(alpha) && within_limit(beta) ==> within_limit(best.score)
        },
        board_position(*final(board)) == board_position(*old(board)),
        board_history(*final(board)) == board_history(*old(board)),
        same_counters(*old(board), *final(board)),
{
    if !board_is_playable(board, depth) {
        return Err(SearchFailure::UnsoundBoard);
    }
    let alpha = make_negatable(alpha);
    let beta = make_negatable(beta);
    proof {
        lemma_leaf_of_describes(*net, *net_black, inv_val);
    }
    let found = pruning_core(
        board,
        alpha,
        beta,
        depth,
        net,
        net_black,
        inv_val,
        Ghost(leaf_of(*net, *net_black, inv_val)),
        Ghost(failing_of(*net, *net_black)),
    );
    match found {
        Some(best) => Ok(best),
        None => Err(SearchFailure::Evaluator),
    }
}

} // verus!
