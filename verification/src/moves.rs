//! The fields of a move as the rules engine packs them into 16 bits: the
//! source square in the low six bits, the destination square in the six above
//! them, and four flag bits on top.

use vstd::prelude::*;

verus! {

/// The move that is no move: all bits zero.
pub const NULL_MOVE: u16 = 0;

/// The square a move starts from.
pub open spec fn move_source(mv: u16) -> u8 {
    (mv & 0x3f) as u8
}

/// The square a move ends on. For a castle this is the rook's square.
pub open spec fn move_target(mv: u16) -> u8 {
    ((mv >> 6) & 0x3f) as u8
}

/// Whether the flag bits mark a castle: the top three bits are `001`.
pub open spec fn move_is_castle(mv: u16) -> bool {
    (mv >> 13) == 1
}

/// The source square of a move.
pub fn source_square(mv: u16) -> (square: u8)
    ensures
        square == move_source(mv),
        square < 64,
{
    assert((mv & 0x3f) < 64) by (bit_vector);
    (mv & 0x3f) as u8
}

/// The destination square of a move.
pub fn target_square(mv: u16) -> (square: u8)
    ensures
        square == move_target(mv),
        square < 64,
{
    assert(((mv >> 6) & 0x3f) < 64) by (bit_vector);
    ((mv >> 6) & 0x3f) as u8
}

/// Whether a move is a castle.
pub fn is_castle(mv: u16) -> (castle: bool)
    ensures
        castle == move_is_castle(mv),
{
    (mv >> 13) == 1
}

} // verus!
