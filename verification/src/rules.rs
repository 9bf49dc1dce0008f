//! The boundary to the chess rules engine and to the random source.
//!
//! Everything in this file that carries `external_body` is believed, not proved.
//! A board is carried through as an opaque value; what the rest of the library
//! knows of it is stated over the text of its position and over the steps that
//! can still be taken back. What the engine computes from a board is named as
//! a function of the position's text, which holds the pieces, the side to
//! move, the castling rights, the en-passant square and the clocks. This
//! holds of boards that were made and changed through the engine's safe
//! functions, and no other board reaches this library.
//!
//! The engine takes from text boards that it cannot list moves for or play
//! on from: with a king that can be taken, with a castling right whose king
//! or rook stands elsewhere, with a piece on the en-passant square, or with
//! more men than a game has. `sound_position` leaves them out, and whatever
//! lists moves, plays or searches asks for a sound position.
//!
//! A board also counts the plies of the game, the steps since it was made
//! and the plies since the last capture or pawn move, in 16 bits each, and
//! adds one with every move. `steps_left` tells how many moves the counters
//! still take, and whatever plays asks for that many.

use vstd::prelude::*;
use crate::sound::{same_counters, sound_position, stepped_back, stepped_on, steps_left};

verus! {

/// The most moves that the engine plays from the start to a random opening.
pub const OPENING_PLIES_AT_MOST: u16 = 100;

/// A chess board of the rules engine.
#[verifier::external_type_specification]
#[verifier::external_body]
pub struct ExBoard(pleco::Board);

/// What a board holds now: the text of its position in Forsyth-Edwards
/// notation, as `Board::fen` writes it.
pub uninterp spec fn board_position(board: pleco::Board) -> Seq<char>;

/// What a board holds of its past: for each step that can still be taken back,
/// oldest first, the position it was made from and whether the step was a pass.
pub uninterp spec fn board_history(board: pleco::Board) -> Seq<(Seq<char>, bool)>;

/// The legal moves in a position, each as its raw 16 bits, in the order in
/// which `Board::generate_moves` lists them.
pub uninterp spec fn legal_moves_in(position: Seq<char>) -> Seq<u16>;

/// The position that `Board::apply_move` reaches from `position` by `mv`.
pub uninterp spec fn position_after(position: Seq<char>, mv: u16) -> Seq<char>;

/// The squares of the pieces that give check to the side to move, one bit per
/// square, as `Board::checkers` returns them.
pub uninterp spec fn checkers_in(position: Seq<char>) -> u64;

/// The code of the piece on a square (0 for none), as the engine numbers its
/// `Piece` variants.
pub uninterp spec fn piece_in(position: Seq<char>, square: u8) -> u8;

/// Whether White is to move.
pub uninterp spec fn white_to_move_in(position: Seq<char>) -> bool;

/// The engine's code of a side's piece of a kind (1 pawn, 2 knight,
/// 3 bishop, 4 rook, 5 queen, 6 king): the kind for White, eight more for
/// Black.
pub open spec fn piece_code(white: bool, kind: u8) -> u8 {
    if white {
        kind
    } else {
        (kind + 8) as u8
    }
}

/// On how many of the first `squares` squares a piece stands.
pub open spec fn pieces_upto(position: Seq<char>, code: u8, squares: nat) -> int
    decreases squares,
{
    if squares == 0 {
        0
    } else {
        pieces_upto(position, code, (squares - 1) as nat) + if piece_in(
            position,
            (squares - 1) as u8,
        ) == code {
            1int
        } else {
            0int
        }
    }
}

/// How many pieces of a kind a side has: the squares of the board on which
/// one stands.
pub open spec fn piece_count_in(position: Seq<char>, white: bool, kind: u8) -> int {
    pieces_upto(position, piece_code(white, kind), 64)
}

/// The engine's static evaluation of a position, for the side to move.
pub uninterp spec fn static_eval_in(position: Seq<char>) -> i32;

/// Move and score that the engine's own alpha-beta search returns.
pub uninterp spec fn engine_search_in(position: Seq<char>, alpha: i16, beta: i16, depth: u16) -> (
    u16,
    i16,
);

/// What `Board::legal_move` answers for a move in a position.
pub uninterp spec fn legality_check_in(position: Seq<char>, mv: u16) -> bool;

/// The squares that hold a piece, one bit per square, as `Board::occupied`
/// returns them.
pub uninterp spec fn occupied_in(position: Seq<char>) -> u64;

/// The squares of the pieces of either side that attack a square when the
/// board is taken to be occupied as `occupied` says, one bit per square, as
/// `Board::attackers_to` returns them.
pub uninterp spec fn attackers_in(position: Seq<char>, square: u8, occupied: u64) -> u64;

/// The castling rights as `Board::castling_bits` returns them: 8 for White's
/// king side, 4 for White's queen side, 2 and 1 for Black's.
pub uninterp spec fn castling_in(position: Seq<char>) -> u8;

/// The en-passant square as `Board::ep_square` returns it; 64 where there is
/// none.
pub uninterp spec fn ep_square_in(position: Seq<char>) -> u8;

/// The plies of the game so far, as `Board::moves_played` returns them.
pub uninterp spec fn board_plies(board: pleco::Board) -> u16;

/// The steps taken on a board since it was made, as `Board::depth` returns
/// them.
pub uninterp spec fn board_depth(board: pleco::Board) -> u16;

/// The steps that a board's state has behind it, as `Board::ply` returns
/// them.
pub uninterp spec fn board_ply(board: pleco::Board) -> u16;

/// The plies since the last capture or pawn move, as `Board::rule_50` returns
/// them; the position's text holds them.
pub uninterp spec fn quiet_plies_in(position: Seq<char>) -> i16;

/// `Board::moves_played`: the plies of the game so far.
#[verifier::external_body]
pub(crate) fn plies(board: &pleco::Board) -> (count: u16)
    ensures
        count == board_plies(*board),
{
    board.moves_played()
}

/// `Board::depth`: the steps taken on the board since it was made.
#[verifier::external_body]
pub(crate) fn depth_taken(board: &pleco::Board) -> (count: u16)
    ensures
        count == board_depth(*board),
{
    board.depth()
}

/// `Board::ply`: the steps that the board's state has behind it.
#[verifier::external_body]
pub(crate) fn ply_taken(board: &pleco::Board) -> (count: u16)
    ensures
        count == board_ply(*board),
{
    board.ply()
}

/// `Board::rule_50`: the plies since the last capture or pawn move.
#[verifier::external_body]
pub(crate) fn quiet_plies(board: &pleco::Board) -> (count: i16)
    ensures
        count == quiet_plies_in(board_position(*board)),
{
    board.rule_50()
}

/// `Board::occupied`: the bitboard of all pieces.
#[verifier::external_body]
pub(crate) fn occupied(board: &pleco::Board) -> (bits: u64)
    ensures
        bits == occupied_in(board_position(*board)),
{
    board.occupied().0
}

/// `Board::attackers_to`: the bitboard of the pieces of both sides that
/// attack a square under a given occupancy.
#[verifier::external_body]
pub(crate) fn attackers(board: &pleco::Board, square: u8, occupied: u64) -> (bits: u64)
    requires
        square < 64,
    ensures
        bits == attackers_in(board_position(*board), square, occupied),
{
    board.attackers_to(pleco::SQ(square), pleco::BitBoard(occupied)).0
}

/// `Board::castling_bits`: the castling rights as raw bits.
#[verifier::external_body]
pub(crate) fn castling_bits(board: &pleco::Board) -> (bits: u8)
    ensures
        bits == castling_in(board_position(*board)),
{
    board.castling_bits()
}

/// `Board::ep_square`: the en-passant square as its number.
#[verifier::external_body]
pub(crate) fn ep_square(board: &pleco::Board) -> (square: u8)
    ensures
        square == ep_square_in(board_position(*board)),
{
    board.ep_square().0
}

/// `Board::generate_moves`: the legal moves of the side to move, for a sound
/// position. The engine writes them into a list of 248 places or more, by
/// the width of the machine's addresses; with the men of a game on the board
/// no position has more than 218 legal moves. Where a
/// castling right stands, the engine walks from the king's goal to the king,
/// which has to stand on its first square.
#[verifier::external_body]
pub(crate) fn legal_moves(board: &pleco::Board) -> (moves: Vec<u16>)
    requires
        sound_position(board_position(*board)),
    ensures
        moves@ == legal_moves_in(board_position(*board)),
{
    board.generate_moves().iter().map(|m| m.get_raw()).collect()
}

/// `Board::apply_move`: plays a move. The engine asks for a legal move of the
/// current position, and the position has to be sound; the board then stands
/// in the position reached, the step can be taken back, and the position
/// reached is sound again: a legal move leaves the mover's king out of
/// check, adds no man, takes the castling right with the king or rook that
/// moves or is taken, and sets the en-passant square only behind a pawn that
/// has just passed it. The engine adds one to each of its counters, which
/// must have room for it; the count of quiet plies starts again from nought
/// with a capture or a pawn move.
#[verifier::external_body]
pub(crate) fn apply_move(board: &mut pleco::Board, mv: u16)
    requires
        sound_position(board_position(*old(board))),
        legal_moves_in(board_position(*old(board))).contains(mv),
        steps_left(*old(board)) > 0,
    ensures
        board_position(*final(board)) == position_after(board_position(*old(board)), mv),
        sound_position(board_position(*final(board))),
        board_history(*final(board)) == board_history(*old(board)).push(
            (board_position(*old(board)), false),
        ),
        stepped_on(*old(board), *final(board)),
{
    board.apply_move(pleco::BitMove::new(mv));
}

/// `Board::undo_move`: takes the last move back. The engine panics where there
/// is no earlier state or the last step was a pass; otherwise the board holds
/// again what it held before that move, and its counters are one less.
#[verifier::external_body]
pub(crate) fn undo_move(board: &mut pleco::Board)
    requires
        board_history(*old(board)).len() > 0,
        !board_history(*old(board)).last().1,
    ensures
        board_position(*final(board)) == board_history(*old(board)).last().0,
        board_history(*final(board)) == board_history(*old(board)).drop_last(),
        stepped_back(*old(board), *final(board)),
{
    board.undo_move();
}

/// `Board::checkers`: the bitboard of the pieces that give check.
#[verifier::external_body]
pub(crate) fn checkers(board: &pleco::Board) -> (bits: u64)
    ensures
        bits == checkers_in(board_position(*board)),
{
    board.checkers().0
}

/// `Board::in_check`: whether any piece gives check, which the engine reads
/// off the same bitboard.
#[verifier::external_body]
pub(crate) fn in_check(board: &pleco::Board) -> (checked: bool)
    ensures
        checked == (checkers_in(board_position(*board)) != 0),
{
    board.in_check()
}

/// `Board::checkmate`: in check and without a legal move. It lists the
/// moves, so the position has to be sound.
#[verifier::external_body]
pub(crate) fn checkmate(board: &pleco::Board) -> (mated: bool)
    requires
        sound_position(board_position(*board)),
    ensures
        mated == (checkers_in(board_position(*board)) != 0 && legal_moves_in(
            board_position(*board),
        ).len() == 0),
{
    board.checkmate()
}

/// `Board::piece_at_sq`: the piece on a square, as the number of its variant.
#[verifier::external_body]
pub(crate) fn piece_at(board: &pleco::Board, square: u8) -> (code: u8)
    requires
        square < 64,
    ensures
        code == piece_in(board_position(*board), square),
{
    board.piece_at_sq(pleco::SQ(square)) as u8
}

/// `Board::turn`: the side to move.
#[verifier::external_body]
pub(crate) fn white_to_move(board: &pleco::Board) -> (white: bool)
    ensures
        white == white_to_move_in(board_position(*board)),
{
    match board.turn() {
        pleco::Player::White => true,
        pleco::Player::Black => false,
    }
}

/// `Board::count_piece`: how many pieces of one kind a side has. The engine
/// keeps the count beside the squares; it is the number of squares that hold
/// the piece.
#[verifier::external_body]
pub(crate) fn count_piece(board: &pleco::Board, white: bool, kind: u8) -> (count: u8)
    requires
        1 <= kind <= 6,
    ensures
        count == piece_count_in(board_position(*board), white, kind),
{
    let player = if white { pleco::Player::White } else { pleco::Player::Black };
    let piece = match kind {
        1 => pleco::PieceType::P,
        2 => pleco::PieceType::N,
        3 => pleco::PieceType::B,
        4 => pleco::PieceType::R,
        5 => pleco::PieceType::Q,
        _ => pleco::PieceType::K,
    };
    board.count_piece(player, piece)
}

/// `Eval::eval_low`: the engine's static evaluation for the side to move. It
/// reads the squares of both kings, so it is asked about sound positions
/// only.
#[verifier::external_body]
pub(crate) fn static_eval(board: &pleco::Board) -> (value: i32)
    requires
        sound_position(board_position(*board)),
    ensures
        value == static_eval_in(board_position(*board)),
{
    pleco::tools::eval::Eval::eval_low(board)
}

/// `Board::legal_move`: the engine's legality test in a sound position, for
/// a move that the engine listed for this position or for the null move; on
/// other bits it may leave the board. Its first lines answer no where source and
/// destination square are the same, which are the low six bits of a move and
/// the six above them.
#[verifier::external_body]
pub(crate) fn legal_move(board: &pleco::Board, mv: u16) -> (legal: bool)
    requires
        sound_position(board_position(*board)),
        mv == 0 || legal_moves_in(board_position(*board)).contains(mv),
    ensures
        legal == legality_check_in(board_position(*board), mv),
        legal ==> (mv & 0x3f) != ((mv >> 6) & 0x3f),
{
    board.legal_move(pleco::BitMove::new(mv))
}

/// `bots::alphabeta::alpha_beta_search`: the engine's own search on its static
/// evaluation. It negates both bounds, which the least `i16` does not allow,
/// and the scores on their way up. It lists and plays moves, so the position
/// has to be sound; with the men of a game on the board the static evaluation
/// stays inside `i16`, its largest part being the material of one side, which
/// nine queens, two rooks, two bishops and two knights bring to 28478. It
/// plays up to `depth` moves in a row, for which the counters must have
/// room, and takes back every move it plays; what it returns is a move it
/// generated for this position, or the null move (all bits zero) with a
/// score.
#[verifier::external_body]
pub(crate) fn engine_search(board: &mut pleco::Board, alpha: i16, beta: i16, depth: u16) -> (found:
    (u16, i16))
    requires
        sound_position(board_position(*old(board))),
        steps_left(*old(board)) >= depth,
        alpha > i16::MIN,
        beta > i16::MIN,
    ensures
        found == engine_search_in(board_position(*old(board)), alpha, beta, depth),
        found.0 == 0 || legal_moves_in(board_position(*old(board))).contains(found.0),
        board_position(*final(board)) == board_position(*old(board)),
        board_history(*final(board)) == board_history(*old(board)),
        same_counters(*old(board), *final(board)),
{
    let best = pleco::bots::alphabeta::alpha_beta_search(board, alpha, beta, depth);
    (best.bit_move.get_raw(), best.score)
}

/// `RandBoard`: boards reached from the start position by at most a hundred
/// plausible moves, none of them in check. Which boards come back depends on
/// the seed; their number is promised, that each stands in a sound position,
/// being reached from the start by the engine's own moves, and that no
/// counter of it is beyond a hundred.
#[verifier::external_body]
pub(crate) fn random_openings(seed: u64, count: usize) -> (boards: Vec<pleco::Board>)
    ensures
        boards@.len() == count,
        forall|i: int|
            0 <= i < boards@.len() ==> sound_position(board_position(#[trigger] boards@[i])),
        forall|i: int|
            0 <= i < boards@.len() ==> steps_left(#[trigger] boards@[i]) >= i16::MAX
                - OPENING_PLIES_AT_MOST,
{
    pleco::board::RandBoard::new().pseudo_random(seed).no_check().from_start_pos().many(count)
}

/// `SliceRandom::shuffle` with the thread's generator: the same items in some
/// order.
#[verifier::external_body]
pub(crate) fn shuffle<T>(items: &mut Vec<T>)
    ensures
        final(items)@.to_multiset() == old(items)@.to_multiset(),
{
    rand::seq::SliceRandom::shuffle(items.as_mut_slice(), &mut rand::thread_rng());
}

/// `Rng::gen_range` on `0..bound` with the thread's generator. An empty range
/// makes it panic.
#[verifier::external_body]
pub(crate) fn random_below(bound: u64) -> (drawn: u64)
    requires
        bound > 0,
    ensures
        drawn < bound,
{
    rand::Rng::gen_range(&mut rand::thread_rng(), 0..bound)
}

} // verus!
