//! Self-play: games that follow the engine's search from randomized
//! openings, and the labeled samples taken along the way.
//!
//! At each position with White to move a few candidate moves are drawn, rated
//! by a shallow search and labeled with the gain over the static evaluation.
//! A candidate is dropped where it is a castle or where its label lies too
//! close to the label kept last. The move that the full search picks is
//! labeled and kept without that test, and the game goes on with it.

use vstd::prelude::*;
use crate::sound::{playable, same_counters, sound_position, steps_left};
use crate::features::{move_features, MOVE_LAYOUT};
use crate::labels::Fraction;
use crate::moves::{is_castle, move_is_castle};
use crate::rules::{
    apply_move,
    board_history,
    board_position,
    checkers_in,
    checkmate,
    engine_search,
    engine_search_in,
    legal_move,
    legal_moves,
    legal_moves_in,
    legality_check_in,
    position_after,
    random_below,
    random_openings,
    shuffle,
    static_eval,
    static_eval_in,
    undo_move,
    white_to_move,
    white_to_move_in,
    OPENING_PLIES_AT_MOST,
};
use crate::samples::{
    batch_parts,
    encode_board_with_move,
    keeps_sample,
    minmax_normalize_vec_batch,
    remove_threshold,
    rescaled_from,
    within_scale,
    LabeledSample,
};

verus! {

/// The greatest number of plies of one game.
pub const MAX_DESK_STEPS: u32 = 45;

/// The depth of the search that picks the move to play.
pub const DEPTH_SEARCH: u16 = 4;

/// How many candidate moves are looked at in one position.
pub const RANDOM_MOVES: usize = 5;

/// The bound of the search window: the search runs between `-SEARCH_BOUND`
/// and `SEARCH_BOUND`.
pub const SEARCH_BOUND: i16 = 14000;

/// A label is too close to the last one where their gap is below one part in
/// `SCORE_DIFF_PARTS` of the last one's size, that is below 20% of it.
pub const SCORE_DIFF_PARTS: i64 = 5;

/// A label is too close to the last one where their gap is below this.
pub const VAL_DIFF: i64 = 23;

/// The most samples that one ply adds: the candidates and the picked move.
pub const SAMPLES_PER_PLY: usize = 6;

/// The most samples that one game adds.
pub const SAMPLES_PER_DESK: usize = 270;

/// The seeds of the openings are drawn below this bound.
pub const SEED_BOUND: u64 = 10000;

/// The size of a number.
pub open spec fn size(value: int) -> int {
    if value < 0 {
        -value
    } else {
        value
    }
}

/// Whether a label lies in the band around the label kept last in which it
/// tells nothing new: nearer than 20% of the last label's size, or nearer than
/// `VAL_DIFF`.
pub open spec fn too_close(delta: int, prev: int) -> bool {
    SCORE_DIFF_PARTS * size(delta - prev) < size(prev) || size(delta - prev) < VAL_DIFF
}

/// The label that a candidate is held against: the one kept last, or the one
/// that was handed in where none was kept yet.
pub open spec fn last_label(kept: Seq<(u16, i64)>, prev: int) -> int {
    if kept.len() == 0 {
        prev
    } else {
        kept.last().1 as int
    }
}

/// What is kept of the first `count` candidates, each a move with its label:
/// the candidates in their order, without the castles and without those whose
/// label is too close to the label kept just before.
pub open spec fn kept_upto(candidates: Seq<(u16, i64)>, count: nat, prev: int) -> Seq<(u16, i64)>
    decreases count,
{
    if count == 0 {
        Seq::empty()
    } else {
        let before = kept_upto(candidates, (count - 1) as nat, prev);
        let candidate = candidates[count - 1];
        if move_is_castle(candidate.0) || too_close(candidate.1 as int, last_label(before, prev)) {
            before
        } else {
            before.push(candidate)
        }
    }
}

/// The samples of the candidates that are kept.
pub open spec fn candidate_samples(position: Seq<char>, kept: Seq<(u16, i64)>) -> Seq<
    (Seq<u8>, Fraction),
> {
    Seq::new(
        kept.len(),
        |i: int|
            (move_features(position, kept[i].0), Fraction { numerator: kept[i].1, denominator: 1 }),
    )
}

/// How many of the candidates of a position are looked at: `RANDOM_MOVES` of
/// them, all where there are fewer, and none where there is only one.
pub open spec fn candidates_looked_at(available: nat) -> nat {
    if available == 1 {
        0
    } else if available < RANDOM_MOVES {
        available
    } else {
        RANDOM_MOVES as nat
    }
}

/// What a move is worth to the side that plays it: the negated score of the
/// engine's search from the position it leads to, with the bounds negated and
/// swapped.
pub open spec fn move_rating(
    position: Seq<char>,
    mv: u16,
    alpha: i16,
    beta: i16,
    depth: u16,
) -> int {
    -(engine_search_in(
        position_after(position, mv),
        (-beta) as i16,
        (-alpha) as i16,
        depth,
    ).1 as int)
}

/// The label of a candidate move: what the move is worth by a search one ply
/// shallower than the full one, less the static evaluation of the position.
pub open spec fn candidate_label(position: Seq<char>, mv: u16) -> int {
    move_rating(position, mv, -SEARCH_BOUND as i16, SEARCH_BOUND, (DEPTH_SEARCH - 1) as u16)
        - static_eval_in(position)
}

/// The move of a candidate.
pub open spec fn candidate_move() -> spec_fn((u16, i64)) -> u16 {
    |candidate: (u16, i64)| candidate.0
}

/// Whether some candidates are the legal moves of a position in some order,
/// each with its label.
pub open spec fn rated_candidates(position: Seq<char>, candidates: Seq<(u16, i64)>) -> bool {
    &&& candidates.map_values(candidate_move()).to_multiset() == legal_moves_in(
        position,
    ).to_multiset()
    &&& candidates.len() == legal_moves_in(position).len()
    &&& forall|i: int|
        0 <= i < candidates.len() ==> legal_moves_in(position).contains(
            (#[trigger] candidates[i]).0,
        ) && candidates[i].1 == candidate_label(position, candidates[i].0)
}

/// The move that the full search picks in a position.
pub open spec fn picked_move(position: Seq<char>) -> u16 {
    engine_search_in(position, -SEARCH_BOUND as i16, SEARCH_BOUND, DEPTH_SEARCH).0
}

/// Whether a game goes on from a position: the side to move is not mated,
/// White is not left without a move, and the engine takes the move that the
/// search picks for legal.
pub open spec fn game_goes_on(position: Seq<char>) -> bool {
    &&& !(checkers_in(position) != 0 && legal_moves_in(position).len() == 0)
    &&& !(white_to_move_in(position) && legal_moves_in(position).len() == 0)
    &&& legality_check_in(position, picked_move(position))
}

/// Where a game stands that starts in a position and follows the search for
/// at most `plies` plies.
pub open spec fn game_end(position: Seq<char>, plies: nat) -> Seq<char>
    decreases plies,
{
    if plies == 0 || !game_goes_on(position) {
        position
    } else {
        game_end(position_after(position, picked_move(position)), (plies - 1) as nat)
    }
}

/// Whether samples are taken in a position: White is to move and has a move.
pub open spec fn samples_taken(position: Seq<char>) -> bool {
    white_to_move_in(position) && legal_moves_in(position).len() > 0
}

/// The sample of the move that the full search picks: the move's vector,
/// labeled with the search's score less the static evaluation.
pub open spec fn picked_sample(position: Seq<char>) -> (Seq<u8>, Fraction) {
    (
        move_features(position, picked_move(position)),
        Fraction {
            numerator: (engine_search_in(
                position,
                -SEARCH_BOUND as i16,
                SEARCH_BOUND,
                DEPTH_SEARCH,
            ).1 - static_eval_in(position)) as i64,
            denominator: 1,
        },
    )
}

/// The candidates that one ply keeps: none where no samples are taken.
pub open spec fn ply_kept(position: Seq<char>, prev: int, candidates: Seq<(u16, i64)>) -> Seq<
    (u16, i64),
> {
    if samples_taken(position) {
        kept_upto(candidates, candidates_looked_at(candidates.len()), prev)
    } else {
        Seq::empty()
    }
}

/// What one ply adds: where samples are taken, the samples of the
/// candidates that are kept and then the sample of the picked move.
pub open spec fn ply_samples(position: Seq<char>, prev: int, candidates: Seq<(u16, i64)>) -> Seq<
    (Seq<u8>, Fraction),
> {
    if samples_taken(position) {
        candidate_samples(position, ply_kept(position, prev, candidates)).push(
            picked_sample(position),
        )
    } else {
        Seq::empty()
    }
}

/// The label that the next ply holds its candidates against: the one kept
/// last in this ply, or the one handed in where none was kept. The picked
/// move's label does not count.
pub open spec fn ply_last(position: Seq<char>, prev: int, candidates: Seq<(u16, i64)>) -> int {
    last_label(ply_kept(position, prev, candidates), prev)
}

/// The candidates that a game of at most `plies` plies keeps, in the order
/// in which `desk_samples` holds their samples.
pub open spec fn desk_kept(
    position: Seq<char>,
    plies: nat,
    prev: int,
    choices: Seq<Seq<(u16, i64)>>,
) -> Seq<(u16, i64)>
    decreases plies,
{
    if plies == 0 {
        Seq::empty()
    } else if game_goes_on(position) {
        ply_kept(position, prev, choices[0]) + desk_kept(
            position_after(position, picked_move(position)),
            (plies - 1) as nat,
            ply_last(position, prev, choices[0]),
            choices.drop_first(),
        )
    } else {
        ply_kept(position, prev, choices[0])
    }
}

/// What a game of at most `plies` plies adds, ply by ply, where `choices`
/// holds for each ply the candidates in the order in which they were drawn.
/// The ply on which the game stops still adds its samples.
pub open spec fn desk_samples(
    position: Seq<char>,
    plies: nat,
    prev: int,
    choices: Seq<Seq<(u16, i64)>>,
) -> Seq<(Seq<u8>, Fraction)>
    decreases plies,
{
    if plies == 0 {
        Seq::empty()
    } else if game_goes_on(position) {
        ply_samples(position, prev, choices[0]) + desk_samples(
            position_after(position, picked_move(position)),
            (plies - 1) as nat,
            ply_last(position, prev, choices[0]),
            choices.drop_first(),
        )
    } else {
        ply_samples(position, prev, choices[0])
    }
}

/// Whether `choices` can be the draws of a game: for each ply that is played
/// and takes samples, the legal moves of its position in some order, each
/// with its label.
pub open spec fn desk_choices(
    position: Seq<char>,
    plies: nat,
    choices: Seq<Seq<(u16, i64)>>,
) -> bool
    decreases plies,
{
    if plies == 0 {
        true
    } else {
        &&& choices.len() > 0
        &&& samples_taken(position) ==> rated_candidates(position, choices[0])
        &&& game_goes_on(position) ==> desk_choices(
            position_after(position, picked_move(position)),
            (plies - 1) as nat,
            choices.drop_first(),
        )
    }
}

/// Whether a game of at most `plies` plies from `position`, with `prev` as
/// the first label to hold candidates against, can add `added`.
pub open spec fn desk_adds(
    position: Seq<char>,
    plies: nat,
    prev: int,
    choices: Seq<Seq<(u16, i64)>>,
    added: Seq<(Seq<u8>, Fraction)>,
) -> bool {
    desk_choices(position, plies, choices) && added == desk_samples(position, plies, prev, choices)
}

/// What the games from some openings add, one after the other.
pub open spec fn games_samples(
    openings: Seq<Seq<char>>,
    choices: Seq<Seq<Seq<(u16, i64)>>>,
) -> Seq<(Seq<u8>, Fraction)>
    decreases choices.len(),
{
    if choices.len() == 0 {
        Seq::empty()
    } else {
        games_samples(openings, choices.drop_last()) + desk_samples(
            openings[choices.len() - 1],
            MAX_DESK_STEPS as nat,
            0,
            choices.last(),
        )
    }
}

/// Whether `choices` can be the draws of the games from some openings.
pub open spec fn games_choices(
    openings: Seq<Seq<char>>,
    choices: Seq<Seq<Seq<(u16, i64)>>>,
) -> bool {
    &&& choices.len() == openings.len()
    &&& forall|g: int|
        0 <= g < choices.len() ==> desk_choices(
            openings[g],
            MAX_DESK_STEPS as nat,
            #[trigger] choices[g],
        )
}

/// Whether `batch` is a dataset of the games from `openings`: `played` is
/// what the games add in their order, `mixed` holds the same samples in some
/// order, and the batch is what is left of `mixed` without the outliers, with
/// its labels rescaled.
pub open spec fn dataset_of(
    batch: Seq<LabeledSample>,
    openings: Seq<Seq<char>>,
    choices: Seq<Seq<Seq<(u16, i64)>>>,
    played: Seq<LabeledSample>,
    mixed: Seq<LabeledSample>,
) -> bool {
    &&& games_choices(openings, choices)
    &&& batch_parts(played) == games_samples(openings, choices)
    &&& mixed.to_multiset() == played.to_multiset()
    &&& rescaled_from(batch, mixed.filter(keeps_sample()))
}

/// Whether every sample from `from` on has the layout of a move and a whole
/// number as its label.
pub open spec fn raw_samples_from(batch: Seq<LabeledSample>, from: int) -> bool {
    forall|i: int|
        from <= i < batch.len() ==> (#[trigger] batch[i]).features@.len() == MOVE_LAYOUT
            && batch[i].label.denominator == 1
}

/// No two samples that are kept one after the other from one position lie in
/// the band of each other: of the candidates kept, none is a castle, the
/// first is not too close to the label handed in, and each later one is not
/// too close to the one kept before it. So the gap between neighbours is at
/// least `VAL_DIFF` and at least 20% of the earlier label's size.
pub proof fn lemma_kept_are_apart(candidates: Seq<(u16, i64)>, count: nat, prev: int)
    requires
        count <= candidates.len(),
    ensures
        ({
            let kept = kept_upto(candidates, count, prev);
            &&& kept.len() <= count
            &&& forall|j: int| 0 <= j < kept.len() ==> !move_is_castle((#[trigger] kept[j]).0)
            &&& forall|j: int| 0 <= j < kept.len() ==> candidates.contains(#[trigger] kept[j])
            &&& kept.len() > 0 ==> !too_close(kept[0].1 as int, prev)
            &&& forall|j: int|
                0 < j < kept.len() ==> !too_close(
                    (#[trigger] kept[j]).1 as int,
                    kept[j - 1].1 as int,
                )
            &&& forall|j: int|
                0 < j < kept.len() ==> size((#[trigger] kept[j]).1 - kept[j - 1].1) >= VAL_DIFF
                    && SCORE_DIFF_PARTS * size(kept[j].1 - kept[j - 1].1) >= size(
                    kept[j - 1].1 as int,
                )
        }),
    decreases count,
{
    if count > 0 {
        lemma_kept_are_apart(candidates, (count - 1) as nat, prev);
        let before = kept_upto(candidates, (count - 1) as nat, prev);
        let kept = kept_upto(candidates, count, prev);
        let candidate = candidates[count - 1];
        if kept != before {
            assert(kept == before.push(candidate));
            assert forall|j: int| 0 <= j < kept.len() implies candidates.contains(
                #[trigger] kept[j],
            ) by {
                if j < before.len() {
                    assert(kept[j] == before[j]);
                }
            }
            assert forall|j: int| 0 < j < kept.len() implies !too_close(
                (#[trigger] kept[j]).1 as int,
                kept[j - 1].1 as int,
            ) by {
                if j < before.len() {
                    assert(kept[j] == before[j]);
                    assert(kept[j - 1] == before[j - 1]);
                }
            }
        }
    }
}

/// Through a whole game no candidate that is kept is a castle, and none
/// lies in the band of the candidate kept before it, be it in the same
/// position or in an earlier one; the first is held against `prev`. The
/// samples of the picked moves stand between them and do not count.
pub proof fn lemma_game_keeps_apart(
    position: Seq<char>,
    plies: nat,
    prev: int,
    choices: Seq<Seq<(u16, i64)>>,
)
    ensures
        ({
            let kept = desk_kept(position, plies, prev, choices);
            &&& forall|j: int| 0 <= j < kept.len() ==> !move_is_castle((#[trigger] kept[j]).0)
            &&& kept.len() > 0 ==> !too_close(kept[0].1 as int, prev)
            &&& forall|j: int|
                0 < j < kept.len() ==> !too_close(
                    (#[trigger] kept[j]).1 as int,
                    kept[j - 1].1 as int,
                )
        }),
    decreases plies,
{
    if plies > 0 {
        let here = ply_kept(position, prev, choices[0]);
        if samples_taken(position) {
            lemma_kept_are_apart(choices[0], candidates_looked_at(choices[0].len()), prev);
        }
        if game_goes_on(position) {
            let rest = desk_kept(
                position_after(position, picked_move(position)),
                (plies - 1) as nat,
                ply_last(position, prev, choices[0]),
                choices.drop_first(),
            );
            lemma_game_keeps_apart(
                position_after(position, picked_move(position)),
                (plies - 1) as nat,
                ply_last(position, prev, choices[0]),
                choices.drop_first(),
            );
            let kept = here + rest;
            assert forall|j: int| 0 <= j < kept.len() implies !move_is_castle(
                (#[trigger] kept[j]).0,
            ) by {
                if j < here.len() {
                    assert(kept[j] == here[j]);
                } else {
                    assert(kept[j] == rest[j - here.len()]);
                }
            }
            assert forall|j: int| 0 < j < kept.len() implies !too_close(
                (#[trigger] kept[j]).1 as int,
                kept[j - 1].1 as int,
            ) by {
                if j < here.len() {
                    assert(kept[j] == here[j]);
                    assert(kept[j - 1] == here[j - 1]);
                } else if j == here.len() {
                    assert(kept[j] == rest[0]);
                    assert(kept[j - 1] == here[here.len() - 1]);
                } else {
                    assert(kept[j] == rest[j - here.len()]);
                    assert(kept[j - 1] == rest[j - 1 - here.len()]);
                }
            }
            if kept.len() > 0 {
                if here.len() > 0 {
                    assert(kept[0] == here[0]);
                } else {
                    assert(kept[0] == rest[0]);
                }
            }
        }
    }
}

/// Two sequences with the same items, each as often, have the same length
/// and hold the same items.
pub proof fn lemma_same_items<A>(a: Seq<A>, b: Seq<A>)
    requires
        a.to_multiset() == b.to_multiset(),
    ensures
        a.len() == b.len(),
        forall|x: A| a.contains(x) <==> b.contains(x),
{
    a.to_multiset_ensures();
    b.to_multiset_ensures();
    assert forall|x: A| a.contains(x) <==> b.contains(x) by {
        assert(a.contains(x) <==> a.to_multiset().count(x) > 0);
        assert(b.contains(x) <==> b.to_multiset().count(x) > 0);
    }
}

/// Two sequences with the same items, each as often, still have the same
/// items, each as often, after one function was applied to every item.
pub proof fn lemma_same_items_mapped<A, B>(a: Seq<A>, b: Seq<A>, f: spec_fn(A) -> B)
    requires
        a.to_multiset() == b.to_multiset(),
    ensures
        a.map_values(f).to_multiset() == b.map_values(f).to_multiset(),
    decreases a.len(),
{
    a.to_multiset_ensures();
    b.to_multiset_ensures();
    if a.len() == 0 {
        assert(a.map_values(f) =~= b.map_values(f));
    } else {
        let x = a.last();
        let front = a.drop_last();
        assert(a[a.len() - 1] == x);
        assert(a.contains(x));
        assert(a.to_multiset().count(x) > 0);
        assert(b.contains(x));
        let j = choose|j: int| 0 <= j < b.len() && b[j] == x;
        let rest = b.remove(j);
        assert(a.remove(a.len() - 1) =~= front);
        assert(front.to_multiset() =~= rest.to_multiset());
        lemma_same_items_mapped(front, rest, f);
        let fa = a.map_values(f);
        let fb = b.map_values(f);
        fa.to_multiset_ensures();
        fb.to_multiset_ensures();
        front.map_values(f).to_multiset_ensures();
        assert(fa.remove(fa.len() - 1) =~= front.map_values(f));
        assert(fb.remove(j) =~= rest.map_values(f));
        assert(fa[fa.len() - 1] == f(x));
        assert(fb[j] == f(x));
        assert(fa.contains(f(x)));
        assert(fb.contains(f(x)));
        assert(fa.to_multiset() =~= fa.remove(fa.len() - 1).to_multiset().insert(f(x)));
        assert(fb.to_multiset() =~= fb.remove(j).to_multiset().insert(f(x)));
    }
}

/// Whether a label lies too close to the label kept last.
pub fn in_noise_band(delta: i64, prev: i64) -> (close: bool)
    ensures
        close == too_close(delta as int, prev as int),
{
    let gap: i128 = if delta as i128 - prev as i128 >= 0 {
        delta as i128 - prev as i128
    } else {
        prev as i128 - delta as i128
    };
    let last: i128 = if prev >= 0 {
        prev as i128
    } else {
        -(prev as i128)
    };
    assert(0 <= SCORE_DIFF_PARTS * gap <= 0x5_0000_0000_0000_0000) by (nonlinear_arith)
        requires
            SCORE_DIFF_PARTS == 5,
            0 <= gap <= 0x1_0000_0000_0000_0000,
    ;
    SCORE_DIFF_PARTS as i128 * gap < last || gap < VAL_DIFF as i128
}

/// Draws `n` different indices below `max_val`, in random order.
pub fn generate_n_random(n: usize, max_val: usize) -> (drawn: Vec<usize>)
    requires
        n <= max_val,
    ensures
        drawn@.len() == n,
        drawn@.no_duplicates(),
        forall|i: int| 0 <= i < n ==> drawn@[i] < max_val,
{
    let mut v: Vec<usize> = Vec::with_capacity(max_val);
    let mut i: usize = 0;
    while i < max_val
        invariant
            i <= max_val,
            v@.len() == i,
            forall|k: int| 0 <= k < i ==> v@[k] == k,
        decreases max_val - i,
    {
        v.push(i);
        i += 1;
    }
    let ghost ordered = v@;
    shuffle(&mut v);
    proof {
        lemma_same_items(ordered, v@);
        assert(ordered.no_duplicates());
        ordered.lemma_multiset_has_no_duplicates();
        v@.lemma_multiset_has_no_duplicates_conv();
        assert forall|k: int| 0 <= k < v@.len() implies v@[k] < max_val by {
            assert(v@.contains(v@[k]));
            assert(ordered.contains(v@[k]));
            let at = choose|at: int| 0 <= at < ordered.len() && ordered[at] == v@[k];
            assert(ordered[at] == at);
        }
    }
    let mut drawn: Vec<usize> = Vec::with_capacity(n);
    let mut j: usize = 0;
    while j < n
        invariant
            j <= n <= max_val,
            v@.len() == max_val,
            drawn@.len() == j,
            forall|k: int| 0 <= k < j ==> drawn@[k] == v@[k],
        decreases n - j,
    {
        drawn.push(v[j]);
        j += 1;
    }
    assert(drawn@ =~= v@.take(n as int));
    drawn
}

/// Pairs each move with its score.
pub fn generate_score_bitmove_vec<T: Copy>(moves: &Vec<u16>, scores: &Vec<T>) -> (pairs: Vec<
    (u16, T),
>)
    requires
        moves@.len() <= scores@.len(),
    ensures
        pairs@.len() == moves@.len(),
        forall|i: int| 0 <= i < moves@.len() ==> pairs@[i] == (moves@[i], scores@[i]),
{
    let mut pairs: Vec<(u16, T)> = Vec::with_capacity(moves.len());
    let mut i: usize = 0;
    while i < moves.len()
        invariant
            i <= moves@.len() <= scores@.len(),
            pairs@.len() == i,
            forall|k: int| 0 <= k < i ==> pairs@[k] == (moves@[k], scores@[k]),
        decreases moves.len() - i,
    {
        pairs.push((moves[i], scores[i]));
        i += 1;
    }
    pairs
}

/// Rates one legal move for the side that plays it: plays the move, lets the
/// engine search the reply with the bounds negated and swapped, takes the
/// move back and negates the score. The board has to be playable for the
/// move and the plies of the search behind it.
pub fn rate_move(b: &mut pleco::Board, mv: u16, alpha: i16, beta: i16, depth: u16) -> (rating: i64)
    requires
        playable(*old(b), depth + 1),
        legal_moves_in(board_position(*old(b))).contains(mv),
        alpha > i16::MIN,
        beta > i16::MIN,
    ensures
        rating == move_rating(board_position(*old(b)), mv, alpha, beta, depth),
        board_position(*final(b)) == board_position(*old(b)),
        board_history(*final(b)) == board_history(*old(b)),
        same_counters(*old(b), *final(b)),
{
    let ghost history = board_history(*b);
    apply_move(b, mv);
    let reply = engine_search(b, -beta, -alpha, depth);
    assert(board_history(*b).drop_last() =~= history);
    undo_move(b);
    -(reply.1 as i64)
}

/// Rates the moves of a list, all legal on this board, by a search of `depth`
/// behind each: what the move is worth less the static evaluation of the
/// board as it stands.
pub fn rate_move_list(b: &mut pleco::Board, movelist: &Vec<u16>, depth: u16) -> (deltas: Vec<i64>)
    requires
        playable(*old(b), depth + 1),
        forall|i: int|
            0 <= i < movelist@.len() ==> legal_moves_in(board_position(*old(b))).contains(
                #[trigger] movelist@[i],
            ),
    ensures
        deltas@.len() == movelist@.len(),
        forall|i: int|
            0 <= i < movelist@.len() ==> #[trigger] deltas@[i] == move_rating(
                board_position(*old(b)),
                movelist@[i],
                -SEARCH_BOUND as i16,
                SEARCH_BOUND,
                depth,
            ) - static_eval_in(board_position(*old(b))),
        board_position(*final(b)) == board_position(*old(b)),
        board_history(*final(b)) == board_history(*old(b)),
        same_counters(*old(b), *final(b)),
{
    let ghost position = board_position(*b);
    let ghost history = board_history(*b);
    let cur_board_eval: i64 = static_eval(b) as i64;
    let mut v: Vec<i64> = Vec::with_capacity(movelist.len());
    let mut i: usize = 0;
    while i < movelist.len()
        invariant
            i <= movelist@.len(),
            sound_position(position),
            board_position(*b) == position,
            board_history(*b) == history,
            same_counters(*old(b), *b),
            position == board_position(*old(b)),
            steps_left(*old(b)) >= depth + 1,
            cur_board_eval == static_eval_in(position),
            forall|k: int|
                0 <= k < movelist@.len() ==> legal_moves_in(position).contains(
                    #[trigger] movelist@[k],
                ),
            v@.len() == i,
            forall|k: int|
                0 <= k < i ==> #[trigger] v@[k] == move_rating(
                    position,
                    movelist@[k],
                    -SEARCH_BOUND as i16,
                    SEARCH_BOUND,
                    depth,
                ) - static_eval_in(position),
        decreases movelist.len() - i,
    {
        let eval = rate_move(b, movelist[i], -SEARCH_BOUND, SEARCH_BOUND, depth);
        v.push(eval - cur_board_eval);
        i += 1;
    }
    v
}

/// Goes through the first `count` candidates of a position, each a move with
/// its label, and adds a sample for each that is kept. It returns the label
/// kept last, or `prev_score` where nothing was kept.
pub fn sample_candidates(
    b: &pleco::Board,
    candidates: &Vec<(u16, i64)>,
    count: usize,
    prev_score: i64,
    out: &mut Vec<LabeledSample>,
) -> (last: i64)
    requires
        count <= candidates@.len(),
    ensures
        batch_parts(final(out)@) == batch_parts(old(out)@) + candidate_samples(
            board_position(*b),
            kept_upto(candidates@, count as nat, prev_score as int),
        ),
        last == last_label(
            kept_upto(candidates@, count as nat, prev_score as int),
            prev_score as int,
        ),
        raw_samples_from(final(out)@, old(out)@.len() as int),
        forall|i: int| 0 <= i < old(out)@.len() ==> final(out)@[i] == old(out)@[i],
        final(out)@.len() >= old(out)@.len(),
{
    let ghost before = out@;
    let mut prev: i64 = prev_score;
    let mut i: usize = 0;
    assert(batch_parts(out@) =~= batch_parts(before) + candidate_samples(
        board_position(*b),
        kept_upto(candidates@, 0, prev_score as int),
    ));
    while i < count
        invariant
            i <= count <= candidates@.len(),
            batch_parts(out@) == batch_parts(before) + candidate_samples(
                board_position(*b),
                kept_upto(candidates@, i as nat, prev_score as int),
            ),
            prev == last_label(
                kept_upto(candidates@, i as nat, prev_score as int),
                prev_score as int,
            ),
            out@.len() == before.len() + kept_upto(candidates@, i as nat, prev_score as int).len(),
            raw_samples_from(out@, before.len() as int),
            forall|k: int| 0 <= k < before.len() ==> out@[k] == before[k],
        decreases count - i,
    {
        let candidate = candidates[i];
        let ghost kept = kept_upto(candidates@, i as nat, prev_score as int);
        let ghost parts = batch_parts(out@);
        if !is_castle(candidate.0) && !in_noise_band(candidate.1, prev) {
            let sample = encode_board_with_move(b, candidate.0, candidate.1);
            out.push(sample);
            prev = candidate.1;
            assert(batch_parts(out@) =~= parts.push(
                (
                    move_features(board_position(*b), candidate.0),
                    Fraction { numerator: candidate.1, denominator: 1 },
                ),
            ));
            assert(batch_parts(out@) =~= batch_parts(before) + candidate_samples(
                board_position(*b),
                kept.push(candidate),
            ));
        }
        i += 1;
    }
    prev
}

/// Takes the samples of the candidates of one position: lists the legal
/// moves in random order, rates them, puts them in random order once more and
/// goes through the first of them. It returns the label kept last, or
/// `prev_score` where nothing was kept, and leaves the board as it found it.
pub fn sample_position(
    b: &mut pleco::Board,
    prev_score: i64,
    out: &mut Vec<LabeledSample>,
) -> (last: i64)
    requires
        playable(*old(b), DEPTH_SEARCH as int),
    ensures
        board_position(*final(b)) == board_position(*old(b)),
        board_history(*final(b)) == board_history(*old(b)),
        same_counters(*old(b), *final(b)),
        exists|candidates: Seq<(u16, i64)>|
            {
                let kept = kept_upto(
                    candidates,
                    candidates_looked_at(candidates.len()),
                    prev_score as int,
                );
                &&& #[trigger] rated_candidates(board_position(*old(b)), candidates)
                &&& batch_parts(final(out)@) == batch_parts(old(out)@) + candidate_samples(
                    board_position(*old(b)),
                    kept,
                )
                &&& last == last_label(kept, prev_score as int)
            },
        raw_samples_from(final(out)@, old(out)@.len() as int),
        forall|i: int| 0 <= i < old(out)@.len() ==> final(out)@[i] == old(out)@[i],
        old(out)@.len() <= final(out)@.len() <= old(out)@.len() + RANDOM_MOVES,
{
    let ghost position = board_position(*b);
    let ghost before = out@;
    let mut legal = legal_moves(b);
    let ghost listed = legal@;
    shuffle(&mut legal);
    proof {
        lemma_same_items(listed, legal@);
        assert forall|k: int| 0 <= k < legal@.len() implies listed.contains(
            #[trigger] legal@[k],
        ) by {
            assert(legal@.contains(legal@[k]));
        }
    }
    let score_lm = rate_move_list(b, &legal, DEPTH_SEARCH - 1);
    let mut tuple_vec = generate_score_bitmove_vec(&legal, &score_lm);
    let ghost paired = tuple_vec@;
    shuffle(&mut tuple_vec);
    proof {
        lemma_same_items(paired, tuple_vec@);
        assert forall|k: int| 0 <= k < tuple_vec@.len() implies legal_moves_in(position).contains(
            (#[trigger] tuple_vec@[k]).0,
        ) && tuple_vec@[k].1 == candidate_label(position, tuple_vec@[k].0) by {
            assert(tuple_vec@.contains(tuple_vec@[k]));
            assert(paired.contains(tuple_vec@[k]));
            let at = choose|at: int| 0 <= at < paired.len() && paired[at] == tuple_vec@[k];
            assert(paired[at] == (legal@[at], score_lm@[at]));
        }
        lemma_same_items_mapped(paired, tuple_vec@, candidate_move());
        assert(paired.map_values(candidate_move()) =~= legal@);
        assert(rated_candidates(position, tuple_vec@));
    }
    let rand_moves_num = if tuple_vec.len() < RANDOM_MOVES {
        tuple_vec.len()
    } else {
        RANDOM_MOVES
    };
    let looked_at = if rand_moves_num == 1 {
        0
    } else {
        rand_moves_num
    };
    proof {
        lemma_kept_are_apart(tuple_vec@, looked_at as nat, prev_score as int);
    }
    let last = sample_candidates(b, &tuple_vec, looked_at, prev_score, out);
    assert(out@.len() == batch_parts(out@).len());
    assert(before.len() == batch_parts(before).len());
    last
}

/// Plays one ply of a game and adds its samples. Where White is to move
/// and has a move, the candidates that are kept and then the move the search
/// picked are added; else nothing is. The game goes on with the picked
/// move; where it does not go on, the board stays as it is. It returns
/// whether the game goes on, and the label kept last.
pub fn play_ply(b: &mut pleco::Board, prev_score: i64, out: &mut Vec<LabeledSample>) -> (next: (
    bool,
    i64,
))
    requires
        playable(*old(b), DEPTH_SEARCH as int),
    ensures
        sound_position(board_position(*final(b))),
        steps_left(*final(b)) >= steps_left(*old(b)) - 1,
        next.0 == game_goes_on(board_position(*old(b))),
        next.0 ==> board_position(*final(b)) == position_after(
            board_position(*old(b)),
            picked_move(board_position(*old(b))),
        ) && board_history(*final(b)) == board_history(*old(b)).push(
            (board_position(*old(b)), false),
        ),
        !next.0 ==> board_position(*final(b)) == board_position(*old(b)) && board_history(
            *final(b),
        ) == board_history(*old(b)),
        !samples_taken(board_position(*old(b))) ==> final(out)@ == old(out)@ && next.1
            == prev_score,
        samples_taken(board_position(*old(b))) ==> exists|candidates: Seq<(u16, i64)>|
            {
                let kept = kept_upto(
                    candidates,
                    candidates_looked_at(candidates.len()),
                    prev_score as int,
                );
                &&& #[trigger] rated_candidates(board_position(*old(b)), candidates)
                &&& batch_parts(final(out)@) == (batch_parts(old(out)@) + candidate_samples(
                    board_position(*old(b)),
                    kept,
                )).push(picked_sample(board_position(*old(b))))
                &&& next.1 == last_label(kept, prev_score as int)
            },
        raw_samples_from(final(out)@, old(out)@.len() as int),
        forall|i: int| 0 <= i < old(out)@.len() ==> final(out)@[i] == old(out)@[i],
        old(out)@.len() <= final(out)@.len() <= old(out)@.len() + SAMPLES_PER_PLY,
{
    let ghost position = board_position(*b);
    let ghost before = out@;
    if checkmate(b) {
        return (false, prev_score);
    }
    let eval_cur_board: i64 = static_eval(b) as i64;
    let white = white_to_move(b);
    let mut prev: i64 = prev_score;
    if white {
        if legal_moves(b).len() == 0 {
            return (false, prev_score);
        }
        prev = sample_position(b, prev_score, out);
    }
    let ghost sampled = out@;
    let best_move = engine_search(b, -SEARCH_BOUND, SEARCH_BOUND, DEPTH_SEARCH);
    if white {
        let sample = encode_board_with_move(b, best_move.0, best_move.1 as i64 - eval_cur_board);
        out.push(sample);
        assert(batch_parts(out@) =~= batch_parts(sampled).push(picked_sample(position)));
    }
    let picked: u16 = best_move.0;
    if legal_move(b, picked) {
        assert(picked != 0) by (bit_vector)
            requires
                (picked & 0x3f) != ((picked >> 6) & 0x3f),
        ;
        apply_move(b, picked);
        (true, prev)
    } else {
        (false, prev)
    }
}

/// Plays at most `plies` plies of a game and adds their samples, holding the
/// first candidates against `prev_score`.
pub fn play_plies(
    b: &mut pleco::Board,
    prev_score: i64,
    plies: u32,
    out: &mut Vec<LabeledSample>,
)
    requires
        playable(*old(b), plies + DEPTH_SEARCH),
    ensures
        sound_position(board_position(*final(b))),
        steps_left(*final(b)) >= steps_left(*old(b)) - plies,
        board_position(*final(b)) == game_end(board_position(*old(b)), plies as nat),
        exists|choices: Seq<Seq<(u16, i64)>>| #[trigger]
            desk_adds(
                board_position(*old(b)),
                plies as nat,
                prev_score as int,
                choices,
                batch_parts(final(out)@).skip(old(out)@.len() as int),
            ),
        old(out)@.len() <= final(out)@.len() <= old(out)@.len() + SAMPLES_PER_PLY * plies,
        forall|i: int| 0 <= i < old(out)@.len() ==> final(out)@[i] == old(out)@[i],
        raw_samples_from(final(out)@, old(out)@.len() as int),
        board_history(*old(b)).len() <= board_history(*final(b)).len() <= board_history(
            *old(b),
        ).len() + plies,
    decreases plies,
{
    let ghost position = board_position(*b);
    let ghost before = out@;
    if plies == 0 {
        proof {
            let none = Seq::<Seq<(u16, i64)>>::empty();
            assert(batch_parts(out@).skip(before.len() as int) =~= desk_samples(
                position,
                0,
                prev_score as int,
                none,
            ));
            assert(desk_adds(
                position,
                0,
                prev_score as int,
                none,
                batch_parts(out@).skip(before.len() as int),
            ));
        }
        return ;
    }
    let next = play_ply(b, prev_score, out);
    let ghost after_ply = out@;
    let ghost drawn: Seq<(u16, i64)> = if samples_taken(position) {
        choose|candidates: Seq<(u16, i64)>|
            {
                let kept = kept_upto(
                    candidates,
                    candidates_looked_at(candidates.len()),
                    prev_score as int,
                );
                &&& #[trigger] rated_candidates(position, candidates)
                &&& batch_parts(after_ply) == (batch_parts(before) + candidate_samples(
                    position,
                    kept,
                )).push(picked_sample(position))
                &&& next.1 == last_label(kept, prev_score as int)
            }
    } else {
        Seq::empty()
    };
    assert(batch_parts(after_ply).skip(before.len() as int) =~= ply_samples(
        position,
        prev_score as int,
        drawn,
    ));
    assert(next.1 == ply_last(position, prev_score as int, drawn));
    if !next.0 {
        proof {
            let choices = seq![drawn];
            assert(choices[0] == drawn);
            assert(desk_adds(
                position,
                plies as nat,
                prev_score as int,
                choices,
                batch_parts(out@).skip(before.len() as int),
            ));
        }
        return ;
    }
    let ghost reached = board_position(*b);
    play_plies(b, next.1, plies - 1, out);
    proof {
        let rest = choose|rest: Seq<Seq<(u16, i64)>>| #[trigger]
            desk_adds(
                reached,
                (plies - 1) as nat,
                next.1 as int,
                rest,
                batch_parts(out@).skip(after_ply.len() as int),
            );
        let choices = seq![drawn] + rest;
        assert(choices[0] == drawn);
        assert(choices.drop_first() =~= rest);
        assert(batch_parts(out@).skip(before.len() as int) =~= batch_parts(after_ply).skip(
            before.len() as int,
        ) + batch_parts(out@).skip(after_ply.len() as int)) by {
            assert forall|i: int| 0 <= i < after_ply.len() implies batch_parts(out@)[i]
                == batch_parts(after_ply)[i] by {
                assert(out@[i] == after_ply[i]);
            }
        }
        assert(desk_adds(
            position,
            plies as nat,
            prev_score as int,
            choices,
            batch_parts(out@).skip(before.len() as int),
        ));
    }
}

/// Plays one game from an opening, for at most `MAX_DESK_STEPS` plies, and
/// adds its samples: ply by ply, where White is to move and has a move, the
/// candidates that are kept and then the move the search picked. The game
/// follows the search; it ends early at a mate, where White has no move, or
/// where the engine does not take the picked move for legal, and the samples
/// taken until then stay. The board has to be playable for the plies of the
/// game and of the search at its last ply.
pub fn play_desk(b: &mut pleco::Board, out: &mut Vec<LabeledSample>)
    requires
        playable(*old(b), MAX_DESK_STEPS + DEPTH_SEARCH),
    ensures
        sound_position(board_position(*final(b))),
        steps_left(*final(b)) >= steps_left(*old(b)) - MAX_DESK_STEPS,
        board_position(*final(b)) == game_end(board_position(*old(b)), MAX_DESK_STEPS as nat),
        exists|choices: Seq<Seq<(u16, i64)>>| #[trigger]
            desk_adds(
                board_position(*old(b)),
                MAX_DESK_STEPS as nat,
                0,
                choices,
                batch_parts(final(out)@).skip(old(out)@.len() as int),
            ),
        old(out)@.len() <= final(out)@.len() <= old(out)@.len() + SAMPLES_PER_DESK,
        forall|i: int| 0 <= i < old(out)@.len() ==> final(out)@[i] == old(out)@[i],
        raw_samples_from(final(out)@, old(out)@.len() as int),
        board_history(*old(b)).len() <= board_history(*final(b)).len() <= board_history(
            *old(b),
        ).len() + MAX_DESK_STEPS,
{
    play_plies(b, 0, MAX_DESK_STEPS, out);
}

/// Plays `desk_num` games from randomized openings and returns their samples
/// in random order, without the outliers and with the labels rescaled.
/// Where the labels cannot be rescaled, nothing is returned. A game that
/// stops early leaves its samples in, and the games after it are played.
pub fn create_dataset(desk_num: usize) -> (batch: Vec<LabeledSample>)
    ensures
        exists|
            openings: Seq<Seq<char>>,
            choices: Seq<Seq<Seq<(u16, i64)>>>,
            played: Seq<LabeledSample>,
            mixed: Seq<LabeledSample>,
        |
            openings.len() == desk_num && #[trigger] dataset_of(
                batch@,
                openings,
                choices,
                played,
                mixed,
            ),
        batch@.len() <= desk_num * SAMPLES_PER_DESK,
        desk_num == 0 ==> batch@.len() == 0,
        forall|i: int|
            0 <= i < batch@.len() ==> (#[trigger] batch@[i]).features@.len() == MOVE_LAYOUT
                && batch@[i].label.wf() && within_scale(batch@[i].label),
{
    let seed = random_below(SEED_BOUND);
    let mut boards = random_openings(seed, desk_num);
    let ghost openings: Seq<Seq<char>> = Seq::new(
        boards@.len(),
        |g: int| board_position(boards@[g]),
    );
    let ghost mut choices: Seq<Seq<Seq<(u16, i64)>>> = Seq::empty();
    let mut data: Vec<LabeledSample> = Vec::new();
    let mut num_b: usize = 0;
    assert(batch_parts(data@) =~= games_samples(openings, choices));
    while num_b < boards.len()
        invariant
            num_b <= boards@.len() == desk_num,
            openings.len() == desk_num,
            forall|g: int| 0 <= g < openings.len() ==> sound_position(#[trigger] openings[g]),
            forall|g: int|
                num_b <= g < boards@.len() ==> board_position(#[trigger] boards@[g])
                    == openings[g],
            forall|g: int|
                num_b <= g < boards@.len() ==> steps_left(#[trigger] boards@[g]) >= i16::MAX
                    - OPENING_PLIES_AT_MOST,
            choices.len() == num_b,
            forall|g: int|
                0 <= g < num_b ==> desk_choices(
                    openings[g],
                    MAX_DESK_STEPS as nat,
                    #[trigger] choices[g],
                ),
            batch_parts(data@) == games_samples(openings, choices),
            data@.len() <= SAMPLES_PER_DESK * num_b,
            raw_samples_from(data@, 0),
        decreases boards.len() - num_b,
    {
        let ghost before = data@;
        let ghost others = boards@;
        play_desk(&mut boards[num_b], &mut data);
        assert(boards@.len() == others.len());
        assert forall|g: int| num_b < g < boards@.len() implies board_position(
            #[trigger] boards@[g],
        ) == openings[g] && steps_left(boards@[g]) >= i16::MAX - OPENING_PLIES_AT_MOST by {
            assert(boards@[g] == others[g]);
        }
        proof {
            let drawn = choose|drawn: Seq<Seq<(u16, i64)>>| #[trigger]
                desk_adds(
                    openings[num_b as int],
                    MAX_DESK_STEPS as nat,
                    0,
                    drawn,
                    batch_parts(data@).skip(before.len() as int),
                );
            let longer = choices.push(drawn);
            assert(longer.drop_last() =~= choices);
            assert(longer.last() == drawn);
            assert(batch_parts(data@) =~= batch_parts(before) + batch_parts(data@).skip(
                before.len() as int,
            )) by {
                assert forall|i: int| 0 <= i < before.len() implies batch_parts(data@)[i]
                    == batch_parts(before)[i] by {
                    assert(data@[i] == before[i]);
                }
            }
            assert(batch_parts(data@) =~= games_samples(openings, longer));
            choices = longer;
        }
        num_b += 1;
    }
    let ghost played = data@;
    shuffle(&mut data);
    proof {
        lemma_same_items(played, data@);
        assert forall|k: int| 0 <= k < data@.len() implies (#[trigger] data@[k]).features@.len()
            == MOVE_LAYOUT && data@[k].label.denominator == 1 by {
            assert(data@.contains(data@[k]));
            assert(played.contains(data@[k]));
        }
    }
    let ghost mixed = data@;
    remove_threshold(&mut data);
    let ghost kept = data@;
    proof {
        mixed.lemma_filter_len(keeps_sample());
    }
    assert forall|k: int| 0 <= k < kept.len() implies (#[trigger] kept[k]).features@.len()
        == MOVE_LAYOUT && kept[k].label.denominator == 1 by {
        assert(kept.contains(kept[k]));
        mixed.lemma_filter_contains_rev(keeps_sample(), kept[k]);
    }
    minmax_normalize_vec_batch(&mut data);
    assert(dataset_of(data@, openings, choices, played, mixed));
    data
}

} // verus!
