//! Which boards the library plays on.
//!
//! The rules engine builds a board from any text that names pieces, a side,
//! castling rights and an en-passant square. It does not test that the parts
//! agree, and on some boards it cannot list moves or play on. A position is
//! sound where the men are those of a game, no pawn stands on a last rank,
//! every castling right has its king and rook at home, the en-passant square
//! is empty behind a pawn that can be taken, and the king of the side that is
//! not to move cannot be taken. The start position is sound, and a legal move
//! leads from a sound position to a sound one.
//!
//! The engine also counts in 16 bits as it plays. A board is playable for a
//! number of moves where its position is sound and each counter has room for
//! that many.

use vstd::prelude::*;
use crate::features::bit_set;
use crate::rules::{
    attackers,
    attackers_in,
    board_depth,
    board_plies,
    board_ply,
    board_position,
    castling_bits,
    castling_in,
    ep_square,
    ep_square_in,
    occupied,
    occupied_in,
    piece_at,
    piece_code,
    depth_taken,
    piece_in,
    pieces_upto,
    plies,
    ply_taken,
    quiet_plies,
    quiet_plies_in,
    white_to_move,
    white_to_move_in,
};

verus! {

/// What the engine gives for "no square".
pub const NO_SQUARE: u8 = 64;

/// The most pawns a side can have, and the most men that it can have beyond
/// those it starts with, a pawn counting as one of them.
pub const MAX_PAWNS: u32 = 8;

/// Whether a piece code is that of a side's piece.
pub open spec fn belongs_to(code: u8, white: bool) -> bool {
    if white {
        1 <= code <= 6
    } else {
        9 <= code <= 14
    }
}

/// How many pieces a number has beyond those a side starts with.
pub open spec fn beyond(count: int, start: int) -> int {
    if count > start {
        count - start
    } else {
        0
    }
}

/// How many pieces of each kind a side has, from pawn to king.
pub open spec fn counts_of(position: Seq<char>, white: bool) -> Seq<int> {
    Seq::new(6, |k: int| pieces_upto(position, piece_code(white, (k + 1) as u8), 64))
}

/// Whether some counts are those of the men of a game: one king, no more
/// than eight pawns, and no more pieces beyond two knights, two bishops, two
/// rooks and a queen than pawns are missing.
pub open spec fn men_of_a_game(counts: Seq<int>) -> bool {
    &&& counts[5] == 1
    &&& counts[0] + beyond(counts[1], 2) + beyond(counts[2], 2) + beyond(counts[3], 2) + beyond(
        counts[4],
        1,
    ) <= MAX_PAWNS
}

/// Whether no pawn stands on the first or the last rank.
pub open spec fn pawns_in_range(position: Seq<char>) -> bool {
    forall|square: u8|
        (square < 8 || 56 <= square < 64) ==> (#[trigger] piece_in(position, square)) != 1
            && piece_in(position, square) != 9
}

/// Whether a castling right stands in some bits.
pub open spec fn has_right(bits: u8, right: u8) -> bool {
    bits & right != 0
}

/// Whether every castling right has its king and its rook on their first
/// squares.
pub open spec fn castling_at_home(position: Seq<char>) -> bool {
    let bits = castling_in(position);
    &&& has_right(bits, 8) ==> piece_in(position, 4) == 6 && piece_in(position, 7) == 4
    &&& has_right(bits, 4) ==> piece_in(position, 4) == 6 && piece_in(position, 0) == 4
    &&& has_right(bits, 2) ==> piece_in(position, 60) == 14 && piece_in(position, 63) == 12
    &&& has_right(bits, 1) ==> piece_in(position, 60) == 14 && piece_in(position, 56) == 12
}

/// Whether the en-passant square, where there is one, is empty, lies on the
/// sixth rank of the side to move, and has a pawn of the other side before
/// it.
pub open spec fn en_passant_open(position: Seq<char>) -> bool {
    let square = ep_square_in(position);
    square == NO_SQUARE || if white_to_move_in(position) {
        40 <= square < 48 && piece_in(position, square) == 0 && piece_in(
            position,
            (square - 8) as u8,
        ) == 9
    } else {
        16 <= square < 24 && piece_in(position, square) == 0 && piece_in(
            position,
            (square + 8) as u8,
        ) == 1
    }
}

/// Whether one of the first `count` squares holds a piece of a side that
/// attacks `square`.
pub open spec fn attacked_within(position: Seq<char>, square: u8, white: bool, count: int) -> bool {
    exists|from: u8|
        from < count && belongs_to(#[trigger] piece_in(position, from), white) && bit_set(
            attackers_in(position, square, occupied_in(position)),
            from,
        )
}

/// Whether a king of the side that is not to move stands on one of the first
/// `count` squares and is attacked by a piece of the side to move.
pub open spec fn king_taken_within(position: Seq<char>, count: int) -> bool {
    exists|square: u8|
        square < count && #[trigger] piece_in(position, square) == piece_code(
            !white_to_move_in(position),
            6,
        ) && attacked_within(position, square, white_to_move_in(position), 64)
}

/// Whether the side to move can take the king of the other side.
pub open spec fn king_can_be_taken_in(position: Seq<char>) -> bool {
    king_taken_within(position, 64)
}

/// A position on which the engine lists moves and plays.
pub open spec fn sound_position(position: Seq<char>) -> bool {
    &&& men_of_a_game(counts_of(position, true))
    &&& men_of_a_game(counts_of(position, false))
    &&& pawns_in_range(position)
    &&& castling_at_home(position)
    &&& en_passant_open(position)
    &&& !king_can_be_taken_in(position)
}

/// The quiet plies of a position as they count against the counter's limit:
/// none where the counter is below nought.
pub open spec fn quiet_count(position: Seq<char>) -> int {
    if quiet_plies_in(position) < 0 {
        0
    } else {
        quiet_plies_in(position) as int
    }
}

/// How many moves can be played on a board before one of its counters is
/// full: the plies of the game, the steps since the board was made and the
/// steps behind its state count up to the greatest `u16`, and the quiet
/// plies up to the greatest `i16`.
pub open spec fn steps_left(board: pleco::Board) -> int {
    let short = i16::MAX - quiet_count(board_position(board));
    let game = u16::MAX - board_plies(board);
    let made = u16::MAX - board_depth(board);
    let state = u16::MAX - board_ply(board);
    if short <= game && short <= made && short <= state {
        short
    } else if game <= made && game <= state {
        game
    } else if made <= state {
        made
    } else {
        state
    }
}

/// Whether two boards have the same counts of plies and steps.
pub open spec fn same_counters(a: pleco::Board, b: pleco::Board) -> bool {
    &&& board_plies(a) == board_plies(b)
    &&& board_depth(a) == board_depth(b)
    &&& board_ply(a) == board_ply(b)
}

/// What a move does to the counters: each count of plies and steps is one
/// more, and the quiet plies are one more or none.
pub open spec fn stepped_on(before: pleco::Board, after: pleco::Board) -> bool {
    &&& board_plies(after) == board_plies(before) + 1
    &&& board_depth(after) == board_depth(before) + 1
    &&& board_ply(after) == board_ply(before) + 1
    &&& quiet_count(board_position(after)) <= quiet_count(board_position(before)) + 1
}

/// What taking a move back does to the counters: each count of plies and
/// steps is one less.
pub open spec fn stepped_back(before: pleco::Board, after: pleco::Board) -> bool {
    &&& board_plies(after) == board_plies(before) - 1
    &&& board_depth(after) == board_depth(before) - 1
    &&& board_ply(after) == board_ply(before) - 1
}

/// A board on which `steps` moves can be played in a row: its position is
/// sound and its counters have room.
pub open spec fn playable(board: pleco::Board, steps: int) -> bool {
    sound_position(board_position(board)) && steps_left(board) >= steps
}

/// Counts the pieces of each kind of a side, from pawn to king.
pub fn count_men(board: &pleco::Board, white: bool) -> (counts: Vec<u32>)
    ensures
        counts@.len() == 6,
        forall|k: int| 0 <= k < 6 ==> #[trigger] counts@[k] == counts_of(
            board_position(*board),
            white,
        )[k] && counts@[k] <= 64,
{
    let mut counts: Vec<u32> = vec![0u32; 6];
    let own: u8 = if white {
        0
    } else {
        8
    };
    let mut square: u8 = 0;
    while square < 64
        invariant
            square <= 64,
            own == if white {
                0u8
            } else {
                8u8
            },
            counts@.len() == 6,
            forall|k: int|
                0 <= k < 6 ==> #[trigger] counts@[k] == pieces_upto(
                    board_position(*board),
                    piece_code(white, (k + 1) as u8),
                    square as nat,
                ) && counts@[k] <= square,
        decreases 64 - square,
    {
        let code = piece_at(board, square);
        if code > own && code - own <= 6 {
            let kind: usize = (code - own - 1) as usize;
            let seen: u32 = counts[kind];
            counts.set(kind, seen + 1);
        }
        square += 1;
    }
    counts
}

/// Whether some counts are those of the men of a game.
pub fn are_men_of_a_game(counts: &Vec<u32>) -> (fine: bool)
    requires
        counts@.len() == 6,
        forall|k: int| 0 <= k < 6 ==> #[trigger] counts@[k] <= 64,
    ensures
        fine == men_of_a_game(Seq::new(6, |k: int| counts@[k] as int)),
{
    let knights: u32 = if counts[1] > 2 {
        counts[1] - 2
    } else {
        0
    };
    let bishops: u32 = if counts[2] > 2 {
        counts[2] - 2
    } else {
        0
    };
    let rooks: u32 = if counts[3] > 2 {
        counts[3] - 2
    } else {
        0
    };
    let queens: u32 = if counts[4] > 1 {
        counts[4] - 1
    } else {
        0
    };
    counts[5] == 1 && counts[0] + knights + bishops + rooks + queens <= MAX_PAWNS
}

/// Whether no pawn stands on the first or the last rank.
pub fn pawns_are_in_range(board: &pleco::Board) -> (fine: bool)
    ensures
        fine == pawns_in_range(board_position(*board)),
{
    let mut file: u8 = 0;
    while file < 8
        invariant
            file <= 8,
            forall|square: u8|
                (square < file || 56 <= square < 56 + file) ==> (#[trigger] piece_in(
                    board_position(*board),
                    square,
                )) != 1 && piece_in(board_position(*board), square) != 9,
        decreases 8 - file,
    {
        let low = piece_at(board, file);
        let high = piece_at(board, 56 + file);
        if low == 1 || low == 9 || high == 1 || high == 9 {
            return false;
        }
        file += 1;
    }
    true
}

/// Whether every castling right has its king and its rook on their first
/// squares.
pub fn castling_is_at_home(board: &pleco::Board) -> (fine: bool)
    ensures
        fine == castling_at_home(board_position(*board)),
{
    let bits = castling_bits(board);
    let white_king = piece_at(board, 4) == 6;
    let black_king = piece_at(board, 60) == 14;
    (bits & 8 == 0 || (white_king && piece_at(board, 7) == 4)) && (bits & 4 == 0 || (white_king
        && piece_at(board, 0) == 4)) && (bits & 2 == 0 || (black_king && piece_at(board, 63) == 12))
        && (bits & 1 == 0 || (black_king && piece_at(board, 56) == 12))
}

/// Whether the en-passant square, where there is one, can be moved to.
pub fn en_passant_is_open(board: &pleco::Board) -> (fine: bool)
    ensures
        fine == en_passant_open(board_position(*board)),
{
    let square = ep_square(board);
    if square == NO_SQUARE {
        return true;
    }
    if white_to_move(board) {
        40 <= square && square < 48 && piece_at(board, square) == 0 && piece_at(board, square - 8)
            == 9
    } else {
        16 <= square && square < 24 && piece_at(board, square) == 0 && piece_at(board, square + 8)
            == 1
    }
}

/// Whether a piece of a side attacks a square.
pub fn is_attacked(board: &pleco::Board, square: u8, white: bool) -> (attacked: bool)
    requires
        square < 64,
    ensures
        attacked == attacked_within(board_position(*board), square, white, 64),
{
    let all = occupied(board);
    let bits = attackers(board, square, all);
    let mut from: u8 = 0;
    while from < 64
        invariant
            from <= 64,
            square < 64,
            bits == attackers_in(
                board_position(*board),
                square,
                occupied_in(board_position(*board)),
            ),
            !attacked_within(board_position(*board), square, white, from as int),
        decreases 64 - from,
    {
        let code = piece_at(board, from);
        let own = if white {
            1 <= code && code <= 6
        } else {
            9 <= code && code <= 14
        };
        if own && (bits >> (from as u64)) & 1 == 1 {
            assert(belongs_to(piece_in(board_position(*board), from), white));
            return true;
        }
        from += 1;
    }
    false
}

/// Whether the side to move can take the king of the other side.
pub fn king_can_be_taken(board: &pleco::Board) -> (taken: bool)
    ensures
        taken == king_can_be_taken_in(board_position(*board)),
{
    let mover = white_to_move(board);
    let king: u8 = if mover {
        14
    } else {
        6
    };
    let mut square: u8 = 0;
    while square < 64
        invariant
            square <= 64,
            mover == white_to_move_in(board_position(*board)),
            king == piece_code(!mover, 6),
            !king_taken_within(board_position(*board), square as int),
        decreases 64 - square,
    {
        if piece_at(board, square) == king && is_attacked(board, square, mover) {
            assert(piece_in(board_position(*board), square) == piece_code(!mover, 6));
            return true;
        }
        square += 1;
    }
    false
}

/// Whether the board stands in a sound position.
pub fn board_is_sound(board: &pleco::Board) -> (sound: bool)
    ensures
        sound == sound_position(board_position(*board)),
{
    let white = count_men(board, true);
    let black = count_men(board, false);
    assert(Seq::new(6, |k: int| white@[k] as int) =~= counts_of(board_position(*board), true));
    assert(Seq::new(6, |k: int| black@[k] as int) =~= counts_of(board_position(*board), false));
    are_men_of_a_game(&white) && are_men_of_a_game(&black) && pawns_are_in_range(board)
        && castling_is_at_home(board) && en_passant_is_open(board) && !king_can_be_taken(board)
}

/// How many moves the counters of a board still take.
pub fn count_steps_left(board: &pleco::Board) -> (left: u16)
    ensures
        left == steps_left(*board),
{
    let quiet = quiet_plies(board);
    let short: u16 = if quiet < 0 {
        i16::MAX as u16
    } else {
        (i16::MAX - quiet) as u16
    };
    let game: u16 = u16::MAX - plies(board);
    let made: u16 = u16::MAX - depth_taken(board);
    let state: u16 = u16::MAX - ply_taken(board);
    if short <= game && short <= made && short <= state {
        short
    } else if game <= made && game <= state {
        game
    } else if made <= state {
        made
    } else {
        state
    }
}

/// Whether `steps` moves can be played on the board in a row.
pub fn board_is_playable(board: &pleco::Board, steps: u16) -> (fine: bool)
    ensures
        fine == playable(*board, steps as int),
{
    board_is_sound(board) && count_steps_left(board) >= steps
}

} // verus!
