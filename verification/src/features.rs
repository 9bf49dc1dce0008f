//! Fixed-width feature vectors of a position and of a move in a position.
//!
//! A vector is a sequence of cells. A cell holds a number of fortieths: 0 for
//! a feature that is off, `FEATURE_UNIT` for one that is on, and anything in
//! between for the two material scalars.
//!
//! Every plane over the 64 squares uses one order: cell 0 is a8, cell 7 is h8,
//! cell 8 is a7, and so on down to h1 in cell 63.

use vstd::prelude::*;
use crate::sound::{board_is_sound, sound_position};
use crate::material::{lemma_material_bounds, material_units, score_material, Player};
use crate::moves::{move_source, move_target, source_square, target_square};
use crate::rules::{
    board_position,
    checkers,
    checkers_in,
    legal_moves,
    legal_moves_in,
    piece_at,
    piece_in,
    white_to_move,
    white_to_move_in,
};

verus! {

/// What a cell holds for the value one. It is the price of the material a
/// side starts with, so that a material scalar is a whole number of cells'
/// units.
pub const FEATURE_UNIT: u8 = 40;

/// The number of piece planes: six kinds for each side.
pub const PIECE_TYPES: usize = 12;

/// What `piece_to_type` gives for an empty square.
pub const NO_PIECE: usize = 13;

/// The cells of the piece planes: twelve for each square.
pub const PIECE_CELLS: usize = 768;

/// The length of a move's vector: the piece planes, then one plane for the
/// source square and one for the destination square.
pub const MOVE_LAYOUT: usize = 896;

/// The length of a position's vector without the material scalars.
pub const POSITION_LAYOUT: usize = 898;

/// The length of a position's vector with the material scalars.
pub const POSITION_LAYOUT_WITH_MATERIAL: usize = 900;

/// The plane of a piece, by the engine's code for it: White's pawn, knight,
/// bishop, rook, queen and king are 0 to 5, Black's are 6 to 11. Any other
/// code stands for an empty square.
pub open spec fn piece_plane(code: u8) -> int {
    if 1 <= code <= 6 {
        code - 1
    } else if 9 <= code <= 14 {
        code - 3
    } else {
        NO_PIECE as int
    }
}

/// The square shown in a cell of a plane, and the cell that shows a square:
/// the rank is turned over, the file stays.
pub open spec fn mirrored(square: int) -> int {
    8 * (7 - square / 8) + square % 8
}

/// A cell's content for a feature that is on or off.
pub open spec fn unit_if(on: bool) -> u8 {
    if on {
        FEATURE_UNIT
    } else {
        0
    }
}

/// Whether a bitboard has the bit of a square.
pub open spec fn bit_set(bits: u64, square: u8) -> bool {
    (bits >> (square as u64)) & 1 == 1
}

/// Whether one of the first `count` moves ends on a square.
pub open spec fn reaches_within(moves: Seq<u16>, count: int, square: int) -> bool {
    exists|i: int| 0 <= i < count && #[trigger] move_target(moves[i]) == square
}

/// Whether one of the moves ends on a square.
pub open spec fn reaches(moves: Seq<u16>, square: int) -> bool {
    reaches_within(moves, moves.len() as int, square)
}

/// The piece planes of a position: for each cell of the board twelve values,
/// of which the one at `11 - plane` is on where a piece stands there.
pub open spec fn piece_cells(position: Seq<char>) -> Seq<u8> {
    Seq::new(
        PIECE_CELLS as nat,
        |k: int| unit_if(piece_plane(piece_in(position, mirrored(k / 12) as u8)) == 11 - k % 12),
    )
}

/// The plane of the squares that some move of a list ends on.
pub open spec fn reach_cells(moves: Seq<u16>) -> Seq<u8> {
    Seq::new(64, |c: int| unit_if(reaches(moves, mirrored(c))))
}

/// The plane of the squares in a bitboard.
pub open spec fn checker_cells(bits: u64) -> Seq<u8> {
    Seq::new(64, |c: int| unit_if(bit_set(bits, mirrored(c) as u8)))
}

/// The plane with one square on.
pub open spec fn square_cells(square: u8) -> Seq<u8> {
    Seq::new(64, |c: int| unit_if(mirrored(c) == square))
}

/// The two cells for the side to move: White first.
pub open spec fn side_cells(white: bool) -> Seq<u8> {
    seq![unit_if(white), unit_if(!white)]
}

/// The two material scalars, Black's first, or nothing.
pub open spec fn material_cells(position: Seq<char>, with_material: bool) -> Seq<u8> {
    if with_material {
        seq![material_units(position, false) as u8, material_units(position, true) as u8]
    } else {
        Seq::empty()
    }
}

/// The plane of the opponent: where the side to move is not in check, the
/// squares that the opponent could move to if the turn were passed; where it
/// is, the squares of the pieces that give check.
pub open spec fn opponent_cells(position: Seq<char>, replies: Seq<u16>) -> Seq<u8> {
    if checkers_in(position) == 0 {
        reach_cells(replies)
    } else {
        checker_cells(checkers_in(position))
    }
}

/// The length of a position's vector.
pub open spec fn position_layout(with_material: bool) -> nat {
    if with_material {
        POSITION_LAYOUT_WITH_MATERIAL as nat
    } else {
        POSITION_LAYOUT as nat
    }
}

/// The vector of a position: piece planes, the plane of the squares the side
/// to move can reach, the plane of the opponent, the material scalars if they
/// are asked for, and the side to move. `replies` are the opponent's legal
/// moves after a pass; they are read only where the side to move is not in
/// check.
pub open spec fn position_features(
    position: Seq<char>,
    replies: Seq<u16>,
    with_material: bool,
) -> Seq<u8> {
    piece_cells(position) + reach_cells(legal_moves_in(position)) + opponent_cells(
        position,
        replies,
    ) + material_cells(position, with_material) + side_cells(white_to_move_in(position))
}

/// The vector of a move in a position: piece planes, then the source square
/// and the destination square, each alone on a plane of its own.
pub open spec fn move_features(position: Seq<char>, mv: u16) -> Seq<u8> {
    piece_cells(position) + square_cells(move_source(mv)) + square_cells(move_target(mv))
}

/// Turning the rank over twice gives the square back.
pub proof fn lemma_mirrored_twice(square: int)
    requires
        0 <= square < 64,
    ensures
        0 <= mirrored(square) < 64,
        mirrored(mirrored(square)) == square,
{
}

/// No cell of a vector holds more than the unit: every value lies between
/// zero and one.
pub proof fn lemma_cells_within_unit(
    position: Seq<char>,
    replies: Seq<u16>,
    with_material: bool,
    mv: u16,
)
    ensures
        position_features(position, replies, with_material).len() == position_layout(
            with_material,
        ),
        forall|i: int|
            0 <= i < position_layout(with_material) ==> #[trigger] position_features(
                position,
                replies,
                with_material,
            )[i] <= FEATURE_UNIT,
        move_features(position, mv).len() == MOVE_LAYOUT,
        forall|i: int|
            0 <= i < MOVE_LAYOUT ==> #[trigger] move_features(position, mv)[i] <= FEATURE_UNIT,
{
    lemma_material_bounds(position, true);
    lemma_material_bounds(position, false);
}

/// The plane of a piece; `NO_PIECE` for an empty square.
pub fn piece_to_type(code: u8) -> (plane: usize)
    ensures
        plane == piece_plane(code),
        plane < PIECE_TYPES || plane == NO_PIECE,
{
    if 1 <= code && code <= 6 {
        (code - 1) as usize
    } else if 9 <= code && code <= 14 {
        (code - 3) as usize
    } else {
        NO_PIECE
    }
}

/// The square shown in a cell, or the cell that shows a square.
pub fn mirror_square(square: u8) -> (other: u8)
    requires
        square < 64,
    ensures
        other == mirrored(square as int),
        other < 64,
{
    8 * (7 - square / 8) + square % 8
}

/// The piece planes of a board.
pub fn piece_planes(b: &pleco::Board) -> (cells: Vec<u8>)
    ensures
        cells@ == piece_cells(board_position(*b)),
{
    let mut cells: Vec<u8> = Vec::with_capacity(PIECE_CELLS);
    let mut cell: u8 = 0;
    while cell < 64
        invariant
            cell <= 64,
            cells@.len() == 12 * cell,
            forall|k: int|
                0 <= k < cells@.len() ==> cells@[k] == piece_cells(board_position(*b))[k],
        decreases 64 - cell,
    {
        let piece_type = piece_to_type(piece_at(b, mirror_square(cell)));
        let mut slot: usize = 0;
        while slot < PIECE_TYPES
            invariant
                cell < 64,
                slot <= PIECE_TYPES,
                piece_type == piece_plane(
                    piece_in(board_position(*b), mirrored(cell as int) as u8),
                ),
                cells@.len() == 12 * cell + slot,
                forall|k: int|
                    0 <= k < cells@.len() ==> cells@[k] == piece_cells(board_position(*b))[k],
            decreases PIECE_TYPES - slot,
        {
            let ghost k = 12 * cell + slot;
            assert(k / 12 == cell && k % 12 == slot);
            if piece_type == 11 - slot {
                cells.push(FEATURE_UNIT);
            } else {
                cells.push(0);
            }
            slot += 1;
        }
        cell += 1;
    }
    assert(cells@ =~= piece_cells(board_position(*b)));
    cells
}

/// The plane of the squares that the moves of a list end on.
pub fn reach_plane(moves: &Vec<u16>) -> (cells: Vec<u8>)
    ensures
        cells@ == reach_cells(moves@),
{
    let mut cells: Vec<u8> = vec![0u8; 64];
    let mut i: usize = 0;
    while i < moves.len()
        invariant
            i <= moves.len(),
            cells@.len() == 64,
            forall|c: int|
                0 <= c < 64 ==> cells@[c] == unit_if(reaches_within(moves@, i as int, mirrored(c))),
        decreases moves.len() - i,
    {
        let target = target_square(moves[i]);
        let cell = mirror_square(target);
        let ghost before = cells@;
        cells.set(cell as usize, FEATURE_UNIT);
        proof {
            lemma_mirrored_twice(target as int);
            assert forall|c: int| 0 <= c < 64 implies cells@[c] == unit_if(
                reaches_within(moves@, i + 1, mirrored(c)),
            ) by {
                lemma_mirrored_twice(c);
                if c == cell {
                    assert(move_target(moves@[i as int]) == mirrored(c));
                } else {
                    assert(cells@[c] == before[c]);
                    if reaches_within(moves@, i + 1, mirrored(c)) {
                        let j = choose|j: int|
                            0 <= j < i + 1 && #[trigger] move_target(moves@[j]) == mirrored(c);
                        assert(j != i);
                        assert(reaches_within(moves@, i as int, mirrored(c)));
                    }
                    if reaches_within(moves@, i as int, mirrored(c)) {
                        let j = choose|j: int|
                            0 <= j < i && #[trigger] move_target(moves@[j]) == mirrored(c);
                        assert(0 <= j < i + 1 && move_target(moves@[j]) == mirrored(c));
                    }
                }
            }
        }
        i += 1;
    }
    assert(cells@ =~= reach_cells(moves@));
    cells
}

/// The plane of the squares in a bitboard.
pub fn checker_plane(bits: u64) -> (cells: Vec<u8>)
    ensures
        cells@ == checker_cells(bits),
{
    let mut cells: Vec<u8> = Vec::with_capacity(64);
    let mut cell: u8 = 0;
    while cell < 64
        invariant
            cell <= 64,
            cells@.len() == cell,
            forall|c: int| 0 <= c < cell ==> cells@[c] == checker_cells(bits)[c],
        decreases 64 - cell,
    {
        let square = mirror_square(cell);
        if (bits >> (square as u64)) & 1 == 1 {
            cells.push(FEATURE_UNIT);
        } else {
            cells.push(0);
        }
        cell += 1;
    }
    assert(cells@ =~= checker_cells(bits));
    cells
}

/// The plane with one square on.
pub fn square_plane(square: u8) -> (cells: Vec<u8>)
    requires
        square < 64,
    ensures
        cells@ == square_cells(square),
{
    let mut cells: Vec<u8> = vec![0u8; 64];
    let cell = mirror_square(square);
    cells.set(cell as usize, FEATURE_UNIT);
    proof {
        lemma_mirrored_twice(square as int);
        assert forall|c: int| 0 <= c < 64 implies cells@[c] == unit_if(mirrored(c) == square) by {
            lemma_mirrored_twice(c);
        }
    }
    assert(cells@ =~= square_cells(square));
    cells
}

/// Encodes a sound position. `opponent_replies` are the opponent's legal
/// moves after a pass; where the side to move is in check no pass can be
/// made, and the list is not read. The board is only read.
pub fn encode_position(b: &pleco::Board, opponent_replies: &Vec<u16>, with_material: bool) -> (cells:
    Vec<u8>)
    requires
        sound_position(board_position(*b)),
    ensures
        cells@ == position_features(board_position(*b), opponent_replies@, with_material),
        cells@.len() == position_layout(with_material),
{
    let mut cells = piece_planes(b);
    let own_moves = legal_moves(b);
    let mut own = reach_plane(&own_moves);
    cells.append(&mut own);
    let checking = checkers(b);
    let mut opponent = if checking == 0 {
        reach_plane(opponent_replies)
    } else {
        checker_plane(checking)
    };
    cells.append(&mut opponent);
    if with_material {
        cells.push(score_material(b, Player::Black));
        cells.push(score_material(b, Player::White));
    }
    if white_to_move(b) {
        cells.push(FEATURE_UNIT);
        cells.push(0);
    } else {
        cells.push(0);
        cells.push(FEATURE_UNIT);
    }
    assert(cells@ =~= position_features(board_position(*b), opponent_replies@, with_material));
    cells
}

/// Encodes a position, or nothing where the board does not stand in a sound
/// position: no vector is made of a board whose moves cannot be listed.
/// `opponent_replies` are the opponent's legal moves after a pass; where the
/// side to move is in check no pass can be made, and the list is not read.
/// The board is only read.
pub fn encode_board(b: &pleco::Board, opponent_replies: &Vec<u16>, with_material: bool) -> (encoded:
    Option<Vec<u8>>)
    ensures
        encoded is Some <==> sound_position(board_position(*b)),
        encoded matches Some(cells) ==> cells@ == position_features(
            board_position(*b),
            opponent_replies@,
            with_material,
        ) && cells@.len() == position_layout(with_material),
{
    if board_is_sound(b) {
        Some(encode_position(b, opponent_replies, with_material))
    } else {
        None
    }
}

/// Encodes a move in a position. The board is only read.
pub fn encode_move(b: &pleco::Board, m: u16) -> (cells: Vec<u8>)
    ensures
        cells@ == move_features(board_position(*b), m),
        cells@.len() == MOVE_LAYOUT,
{
    let mut cells = piece_planes(b);
    let mut source = square_plane(source_square(m));
    cells.append(&mut source);
    let mut target = square_plane(target_square(m));
    cells.append(&mut target);
    assert(cells@ =~= move_features(board_position(*b), m));
    cells
}

} // verus!
