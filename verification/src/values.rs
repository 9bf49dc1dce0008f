//! The piece-value encoding of a board: one signed value for each square,
//! seen from the side to move.
//!
//! A cell holds a number of twentieths: the king's value stands for one. The
//! side to move has the positive values and sees its own first rank at the
//! bottom.

use vstd::prelude::*;
use crate::features::{mirror_square, mirrored, piece_plane, piece_to_type};
use crate::labels::Fraction;
use crate::rules::{board_position, piece_at, piece_in, white_to_move, white_to_move_in};

verus! {

/// What a cell holds for the value one: the value of a king.
pub const VALUE_UNIT: i8 = 20;

/// The evaluation that stands for one in a label.
pub const EVAL_UNIT: i64 = 6700;

/// A board as piece values, with its label.
#[derive(Debug)]
pub struct ValueSample {
    pub cells: Vec<i8>,
    pub label: Fraction,
}

/// The value of the piece of a plane for White: pawn 1, knight 3, bishop 4,
/// rook 5, queen 10, king 20, Black's pieces negative, no piece 0.
pub open spec fn plane_value(plane: int) -> int {
    if plane == 0 {
        1
    } else if plane == 1 {
        3
    } else if plane == 2 {
        4
    } else if plane == 3 {
        5
    } else if plane == 4 {
        10
    } else if plane == 5 {
        20
    } else if plane == 6 {
        -1
    } else if plane == 7 {
        -3
    } else if plane == 8 {
        -4
    } else if plane == 9 {
        -5
    } else if plane == 10 {
        -10
    } else if plane == 11 {
        -20
    } else {
        0
    }
}

/// The value of a piece for the side to move.
pub open spec fn piece_value(code: u8, white_to_move: bool) -> int {
    if white_to_move {
        plane_value(piece_plane(code))
    } else {
        -plane_value(piece_plane(code))
    }
}

/// A board of 64 cells turned by half a turn.
pub open spec fn flipped(cells: Seq<i8>) -> Seq<i8> {
    Seq::new(64, |k: int| cells[63 - k])
}

/// The square shown in a cell: for White cell 0 is a8 and cell 63 is h1, for
/// Black the board is turned by half a turn.
pub open spec fn seen_square(cell: int, white_to_move: bool) -> int {
    if white_to_move {
        mirrored(cell)
    } else {
        mirrored(63 - cell)
    }
}

/// The piece values of a position, seen from the side to move.
pub open spec fn value_cells(position: Seq<char>) -> Seq<i8> {
    Seq::new(
        64,
        |k: int|
            piece_value(
                piece_in(position, seen_square(k, white_to_move_in(position)) as u8),
                white_to_move_in(position),
            ) as i8,
    )
}

/// The value of a piece for the side to move.
pub fn piece_to_value(code: u8, white_to_move: bool) -> (value: i8)
    ensures
        value == piece_value(code, white_to_move),
        -VALUE_UNIT <= value <= VALUE_UNIT,
{
    let plane = piece_to_type(code);
    let out: i8 = if plane == 0 {
        1
    } else if plane == 1 {
        3
    } else if plane == 2 {
        4
    } else if plane == 3 {
        5
    } else if plane == 4 {
        10
    } else if plane == 5 {
        20
    } else if plane == 6 {
        -1
    } else if plane == 7 {
        -3
    } else if plane == 8 {
        -4
    } else if plane == 9 {
        -5
    } else if plane == 10 {
        -10
    } else if plane == 11 {
        -20
    } else {
        0
    };
    if white_to_move {
        out
    } else {
        -out
    }
}

/// Turns a board of 64 cells by half a turn.
pub fn flip_board(board: &Vec<i8>) -> (out_arr: Vec<i8>)
    requires
        board@.len() == 64,
    ensures
        out_arr@ == flipped(board@),
{
    let mut out_arr: Vec<i8> = Vec::with_capacity(64);
    let mut k: usize = 0;
    while k < 64
        invariant
            k <= 64,
            board@.len() == 64,
            out_arr@.len() == k,
            forall|i: int| 0 <= i < k ==> out_arr@[i] == board@[63 - i],
        decreases 64 - k,
    {
        out_arr.push(board[63 - k]);
        k += 1;
    }
    assert(out_arr@ =~= flipped(board@));
    out_arr
}

/// Encodes a board as piece values seen from the side to move, and labels it
/// with an evaluation in units of `EVAL_UNIT`.
pub fn encode_to_databatch(board: &pleco::Board, val: i32) -> (sample: ValueSample)
    ensures
        sample.cells@ == value_cells(board_position(*board)),
        sample.label.parts() == (val as int, EVAL_UNIT as int),
{
    let turn = white_to_move(board);
    let mut inp_vec: Vec<i8> = Vec::with_capacity(64);
    let mut cell: u8 = 0;
    while cell < 64
        invariant
            cell <= 64,
            turn == white_to_move_in(board_position(*board)),
            inp_vec@.len() == cell,
            forall|k: int|
                0 <= k < cell ==> inp_vec@[k] == piece_value(
                    piece_in(board_position(*board), mirrored(k) as u8),
                    turn,
                ),
        decreases 64 - cell,
    {
        let p = piece_at(board, mirror_square(cell));
        inp_vec.push(piece_to_value(p, turn));
        cell += 1;
    }
    let cells = if turn {
        inp_vec
    } else {
        flip_board(&inp_vec)
    };
    assert(cells@ =~= value_cells(board_position(*board)));
    ValueSample { cells, label: Fraction { numerator: val as i64, denominator: EVAL_UNIT } }
}

} // verus!
