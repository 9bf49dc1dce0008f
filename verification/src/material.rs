//! The material scalar: what a side still has on the board, as a share of what
//! it starts with.

use vstd::prelude::*;
use crate::rules::{board_position, count_piece, piece_code, piece_count_in, pieces_upto};

verus! {

/// One of the two sides.
#[derive(Clone, Copy, Debug, PartialEq, Eq, Structural)]
pub enum Player {
    White,
    Black,
}

pub const PRICE_PAWN: u32 = 1;

pub const PRICE_KNIGHT: u32 = 3;

pub const PRICE_BISHOP: u32 = 3;

pub const PRICE_ROOK: u32 = 5;

pub const PRICE_QUEEN: u32 = 10;

/// The price of the pieces a side starts with, the king left out: eight pawns,
/// two knights, two bishops, two rooks and a queen.
pub const MAX_PRICE: u32 = 40;

/// The priced sum of a side's pieces other than the king.
pub open spec fn priced_material(position: Seq<char>, white: bool) -> int {
    piece_count_in(position, white, 1) * PRICE_PAWN + piece_count_in(position, white, 2)
        * PRICE_KNIGHT + piece_count_in(position, white, 3) * PRICE_BISHOP + piece_count_in(
        position,
        white,
        4,
    ) * PRICE_ROOK + piece_count_in(position, white, 5) * PRICE_QUEEN
}

/// The material scalar of a side in fortieths: the priced sum, capped at the
/// starting total. Divided by `MAX_PRICE` it lies in `[0, 1]`.
pub open spec fn material_units(position: Seq<char>, white: bool) -> int {
    if priced_material(position, white) > MAX_PRICE {
        MAX_PRICE as int
    } else {
        priced_material(position, white)
    }
}

/// A piece stands on no fewer than none and no more than all of the squares
/// that are counted.
pub proof fn lemma_piece_count_bounds(position: Seq<char>, code: u8, squares: nat)
    ensures
        0 <= pieces_upto(position, code, squares) <= squares,
    decreases squares,
{
    if squares > 0 {
        lemma_piece_count_bounds(position, code, (squares - 1) as nat);
    }
}

/// The material scalar lies between nothing and the starting total.
pub proof fn lemma_material_bounds(position: Seq<char>, white: bool)
    ensures
        0 <= material_units(position, white) <= MAX_PRICE,
{
    lemma_piece_count_bounds(position, piece_code(white, 1), 64);
    lemma_piece_count_bounds(position, piece_code(white, 2), 64);
    lemma_piece_count_bounds(position, piece_code(white, 3), 64);
    lemma_piece_count_bounds(position, piece_code(white, 4), 64);
    lemma_piece_count_bounds(position, piece_code(white, 5), 64);
}

/// The material scalar of `p` on this board, as a number of fortieths.
pub fn score_material(b: &pleco::Board, p: Player) -> (units: u8)
    ensures
        units == material_units(board_position(*b), p is White),
        units <= MAX_PRICE,
{
    let white = match p {
        Player::White => true,
        Player::Black => false,
    };
    let pawn_cnt: u32 = count_piece(b, white, 1) as u32;
    let knight_cnt: u32 = count_piece(b, white, 2) as u32;
    let bishop_cnt: u32 = count_piece(b, white, 3) as u32;
    let rook_cnt: u32 = count_piece(b, white, 4) as u32;
    let queen_cnt: u32 = count_piece(b, white, 5) as u32;
    let mut s: u32 = pawn_cnt * PRICE_PAWN + knight_cnt * PRICE_KNIGHT + bishop_cnt * PRICE_BISHOP
        + rook_cnt * PRICE_ROOK + queen_cnt * PRICE_QUEEN;
    if s > MAX_PRICE {
        s = MAX_PRICE;
    }
    s as u8
}

} // verus!
