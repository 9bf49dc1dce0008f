//! Playing against the search: whose turn it is, how the board is shown, and
//! how the bot chooses its move.

use vstd::prelude::*;
use crate::sound::{board_is_playable, playable, sound_position};
use crate::features::{mirror_square, mirrored, piece_plane, piece_to_type, NO_PIECE};
use crate::learned::{
    learned_failing,
    learned_leaf,
    model_reads_cells,
    my_alpha_beta_search,
    passing_reads_position,
};
use crate::moves::NULL_MOVE;
use crate::rules::{
    apply_move,
    board_history,
    board_position,
    legal_moves,
    legal_moves_in,
    piece_at,
    piece_in,
    position_after,
    random_below,
    white_to_move,
    white_to_move_in,
};
use crate::search::{
    alpha_beta,
    leaf_inversion,
    leaves_are_blacks,
    pruning_fails,
    SearchFailure,
};

verus! {

/// The depth the bot searches to where none is asked for.
pub const DEFAULT_DEPTH: u16 = 2;

/// The depth of the bot's searches in the opening.
pub const OPENING_DEPTH: u16 = 2;

/// The bound of the search window in the opening.
pub const OPENING_BOUND: i16 = 15000;

/// The bound of the search window after the opening.
pub const PLAY_BOUND: i16 = 16000;

/// Before this many plies the bot moves at random.
pub const RANDOM_PLIES: u16 = 2;

/// Before this many plies the bot is in the opening.
pub const OPENING_PLIES: u16 = 4;

/// Whose turn it is at the table.
#[derive(Clone, Copy, Debug, PartialEq, Eq, Structural)]
pub enum Turn {
    Player,
    PC,
}

impl Turn {
    /// The other one.
    pub open spec fn other(self) -> Turn {
        match self {
            Turn::Player => Turn::PC,
            Turn::PC => Turn::Player,
        }
    }

    /// Hands the turn to the other one.
    pub fn switch(&mut self)
        ensures
            *final(self) == old(self).other(),
    {
        if *self == Turn::PC {
            *self = Turn::Player;
        } else {
            *self = Turn::PC;
        }
    }
}

/// How the bot finds its next move.
#[derive(Clone, Copy, Debug, PartialEq, Eq, Structural)]
pub enum BotPlan {
    /// Any legal move, drawn at random.
    Random,
    /// The move of a search between `-bound` and `bound`.
    Search { bound: i16, depth: u16, inv_val: bool },
}

/// The plan of the bot by the number of plies played: a random move for its
/// first one, a shallow search in the opening, and after that a search of the
/// depth asked for. The leaves are negated where the side to move there is
/// Black.
pub open spec fn bot_plan(moves_played: u16, white_to_move: bool, depth: u16) -> BotPlan {
    if moves_played < RANDOM_PLIES {
        BotPlan::Random
    } else if moves_played < OPENING_PLIES {
        BotPlan::Search {
            bound: OPENING_BOUND,
            depth: OPENING_DEPTH,
            inv_val: leaves_are_blacks(white_to_move, OPENING_DEPTH),
        }
    } else {
        BotPlan::Search {
            bound: PLAY_BOUND,
            depth,
            inv_val: leaves_are_blacks(white_to_move, depth),
        }
    }
}

/// The letter of a piece plane: upper case for White.
pub open spec fn simple_char(plane: int) -> char {
    if plane == 0 {
        'P'
    } else if plane == 1 {
        'N'
    } else if plane == 2 {
        'B'
    } else if plane == 3 {
        'R'
    } else if plane == 4 {
        'Q'
    } else if plane == 5 {
        'K'
    } else if plane == 6 {
        'p'
    } else if plane == 7 {
        'n'
    } else if plane == 8 {
        'b'
    } else if plane == 9 {
        'r'
    } else if plane == 10 {
        'q'
    } else {
        'k'
    }
}

/// The chess symbol of a piece plane.
pub open spec fn pretty_char(plane: int) -> char {
    if plane == 0 {
        '\u{2659}'
    } else if plane == 1 {
        '\u{2658}'
    } else if plane == 2 {
        '\u{2657}'
    } else if plane == 3 {
        '\u{2656}'
    } else if plane == 4 {
        '\u{2655}'
    } else if plane == 5 {
        '\u{2654}'
    } else if plane == 6 {
        '\u{265F}'
    } else if plane == 7 {
        '\u{265E}'
    } else if plane == 8 {
        '\u{265D}'
    } else if plane == 9 {
        '\u{265C}'
    } else if plane == 10 {
        '\u{265B}'
    } else {
        '\u{265A}'
    }
}

/// What is shown for a square: a dash where it is empty, else the piece.
pub open spec fn square_char(code: u8, unicode: bool) -> char {
    if piece_plane(code) == NO_PIECE {
        '-'
    } else if unicode {
        pretty_char(piece_plane(code))
    } else {
        simple_char(piece_plane(code))
    }
}

/// The digit of a rank, counted from zero.
pub open spec fn rank_char(rank: int) -> char {
    if rank == 0 {
        '1'
    } else if rank == 1 {
        '2'
    } else if rank == 2 {
        '3'
    } else if rank == 3 {
        '4'
    } else if rank == 4 {
        '5'
    } else if rank == 5 {
        '6'
    } else if rank == 6 {
        '7'
    } else {
        '8'
    }
}

/// The line above the board.
pub open spec fn heading() -> Seq<char> {
    seq![
        ' ',
        ' ',
        'A',
        ' ',
        'B',
        ' ',
        'C',
        ' ',
        'D',
        ' ',
        'E',
        ' ',
        'F',
        ' ',
        'G',
        ' ',
        'H',
        '\n',
    ]
}

/// The first `count` squares of a row, each followed by a blank. Row 0 is
/// the eighth rank.
pub open spec fn row_squares(position: Seq<char>, unicode: bool, row: int, count: nat) -> Seq<char>
    decreases count,
{
    if count == 0 {
        Seq::empty()
    } else {
        row_squares(position, unicode, row, (count - 1) as nat).push(
            square_char(piece_in(position, mirrored(8 * row + count - 1) as u8), unicode),
        ).push(' ')
    }
}

/// One row of the board: the rank's digit, a blank, the eight squares and a
/// line break.
pub open spec fn row_text(position: Seq<char>, unicode: bool, row: int) -> Seq<char> {
    seq![rank_char(7 - row), ' '] + row_squares(position, unicode, row, 8).push('\n')
}

/// The heading and the first `rows` rows of the board.
pub open spec fn board_rows(position: Seq<char>, unicode: bool, rows: nat) -> Seq<char>
    decreases rows,
{
    if rows == 0 {
        heading()
    } else {
        board_rows(position, unicode, (rows - 1) as nat) + row_text(position, unicode, rows - 1)
    }
}

/// The board as text: the heading and the eight rows from the eighth rank
/// down.
pub open spec fn board_text(position: Seq<char>, unicode: bool) -> Seq<char> {
    board_rows(position, unicode, 8)
}

/// `String::push`: appends one character.
pub assume_specification[ String::push ](text: &mut String, ch: char)
    ensures
        final(text)@ == old(text)@.push(ch),
;

/// The depth to search to: the one asked for, or the default where none is.
pub fn effective_depth(depth: u16) -> (used: u16)
    ensures
        used == if depth == 0 {
            DEFAULT_DEPTH
        } else {
            depth
        },
{
    if depth == 0 {
        DEFAULT_DEPTH
    } else {
        depth
    }
}

/// The chess symbol of a piece.
pub fn piece_to_pretty_char(code: u8) -> (shown: char)
    requires
        piece_plane(code) != NO_PIECE,
    ensures
        shown == pretty_char(piece_plane(code)),
{
    let plane = piece_to_type(code);
    if plane == 0 {
        '\u{2659}'
    } else if plane == 1 {
        '\u{2658}'
    } else if plane == 2 {
        '\u{2657}'
    } else if plane == 3 {
        '\u{2656}'
    } else if plane == 4 {
        '\u{2655}'
    } else if plane == 5 {
        '\u{2654}'
    } else if plane == 6 {
        '\u{265F}'
    } else if plane == 7 {
        '\u{265E}'
    } else if plane == 8 {
        '\u{265D}'
    } else if plane == 9 {
        '\u{265C}'
    } else if plane == 10 {
        '\u{265B}'
    } else {
        '\u{265A}'
    }
}

/// The letter of a piece.
pub fn piece_to_simple_char(code: u8) -> (shown: char)
    requires
        piece_plane(code) != NO_PIECE,
    ensures
        shown == simple_char(piece_plane(code)),
{
    let plane = piece_to_type(code);
    if plane == 0 {
        'P'
    } else if plane == 1 {
        'N'
    } else if plane == 2 {
        'B'
    } else if plane == 3 {
        'R'
    } else if plane == 4 {
        'Q'
    } else if plane == 5 {
        'K'
    } else if plane == 6 {
        'p'
    } else if plane == 7 {
        'n'
    } else if plane == 8 {
        'b'
    } else if plane == 9 {
        'r'
    } else if plane == 10 {
        'q'
    } else {
        'k'
    }
}

/// The digit of a rank, counted from zero.
fn rank_digit(rank: u8) -> (shown: char)
    requires
        rank < 8,
    ensures
        shown == rank_char(rank as int),
{
    if rank == 0 {
        '1'
    } else if rank == 1 {
        '2'
    } else if rank == 2 {
        '3'
    } else if rank == 3 {
        '4'
    } else if rank == 4 {
        '5'
    } else if rank == 5 {
        '6'
    } else if rank == 6 {
        '7'
    } else {
        '8'
    }
}

/// Writes the board as text, with letters or with chess symbols.
pub fn print_board(b: &pleco::Board, unicode: bool) -> (out_str: String)
    ensures
        out_str@ == board_text(board_position(*b), unicode),
{
    let mut out_str = String::new();
    out_str.push(' ');
    out_str.push(' ');
    out_str.push('A');
    out_str.push(' ');
    out_str.push('B');
    out_str.push(' ');
    out_str.push('C');
    out_str.push(' ');
    out_str.push('D');
    out_str.push(' ');
    out_str.push('E');
    out_str.push(' ');
    out_str.push('F');
    out_str.push(' ');
    out_str.push('G');
    out_str.push(' ');
    out_str.push('H');
    out_str.push('\n');
    assert(out_str@ =~= heading());
    let ghost position = board_position(*b);
    let mut row: u8 = 0;
    while row < 8
        invariant
            row <= 8,
            position == board_position(*b),
            out_str@ == board_rows(position, unicode, row as nat),
        decreases 8 - row,
    {
        let ghost before = out_str@;
        out_str.push(rank_digit(7 - row));
        out_str.push(' ');
        let mut file: u8 = 0;
        while file < 8
            invariant
                row < 8,
                file <= 8,
                position == board_position(*b),
                out_str@ == before + seq![rank_char(7 - row), ' '] + row_squares(
                    position,
                    unicode,
                    row as int,
                    file as nat,
                ),
            decreases 8 - file,
        {
            let op = piece_at(b, mirror_square(8 * row + file));
            let shown = if piece_to_type(op) != NO_PIECE {
                if unicode {
                    piece_to_pretty_char(op)
                } else {
                    piece_to_simple_char(op)
                }
            } else {
                '-'
            };
            let ghost so_far = out_str@;
            out_str.push(shown);
            out_str.push(' ');
            assert(out_str@ =~= before + seq![rank_char(7 - row), ' '] + row_squares(
                position,
                unicode,
                row as int,
                (file + 1) as nat,
            ));
            file += 1;
        }
        out_str.push('\n');
        assert(out_str@ =~= before + row_text(position, unicode, row as int));
        row += 1;
    }
    out_str
}

/// How the bot finds its next move after `moves_played` plies.
pub fn plan_bot_step(moves_played: u16, white_to_move: bool, depth: u16) -> (plan: BotPlan)
    ensures
        plan == bot_plan(moves_played, white_to_move, depth),
{
    if moves_played < RANDOM_PLIES {
        BotPlan::Random
    } else if moves_played < OPENING_PLIES {
        BotPlan::Search {
            bound: OPENING_BOUND,
            depth: OPENING_DEPTH,
            inv_val: leaf_inversion(white_to_move, OPENING_DEPTH),
        }
    } else {
        BotPlan::Search { bound: PLAY_BOUND, depth, inv_val: leaf_inversion(white_to_move, depth) }
    }
}

/// How many moves in a row a plan plays on the board: those of its search,
/// and the one that is played at the end.
pub open spec fn plan_steps(plan: BotPlan) -> int {
    match plan {
        BotPlan::Random => 1,
        BotPlan::Search { bound, depth, inv_val } => if depth == 0 {
            1
        } else {
            depth as int
        },
    }
}

/// Lets the bot move on a board on which `moves_played` plies were played.
/// It returns the move it played. Where there is no legal move, or where the
/// search comes back without one, nothing is played. Where the board cannot
/// be played on for the moves of the plan, or where a model fails during the
/// search, it says so. In all of these the board stays as it is.
pub fn do_bot_step<W, B, P>(
    b: &mut pleco::Board,
    orc: &W,
    orc_black: &B,
    passed: &P,
    with_material: bool,
    depth: u16,
    moves_played: u16,
) -> (played: Result<Option<u16>, SearchFailure>) where
    W: Fn(&Vec<u8>) -> Option<i16>,
    B: Fn(&Vec<u8>) -> Option<i16>,
    P: Fn(&pleco::Board) -> Vec<u16>,

    requires
        model_reads_cells(*orc, with_material),
        model_reads_cells(*orc_black, with_material),
        passing_reads_position(*passed),
    ensures
        match played {
            Ok(Some(mv)) => {
                &&& legal_moves_in(board_position(*old(b))).contains(mv)
                &&& board_position(*final(b)) == position_after(board_position(*old(b)), mv)
                &&& board_history(*final(b)) == board_history(*old(b)).push(
                    (board_position(*old(b)), false),
                )
                &&& sound_position(board_position(*final(b)))
            },
            _ => {
                &&& board_position(*final(b)) == board_position(*old(b))
                &&& board_history(*final(b)) == board_history(*old(b))
            },
        },
        ({
            let plan = bot_plan(moves_played, white_to_move_in(board_position(*old(b))), depth);
            if !playable(*old(b), plan_steps(plan)) {
                played == Err::<Option<u16>, SearchFailure>(SearchFailure::UnsoundBoard)
            } else {
                match plan {
                    BotPlan::Random => played is Ok && (played == Ok::<
                        Option<u16>,
                        SearchFailure,
                    >(None) <==> legal_moves_in(board_position(*old(b))).len() == 0),
                    BotPlan::Search { bound, depth, inv_val } => {
                        let leaf = learned_leaf(*orc, *orc_black, *passed, with_material, inv_val);
                        let found = alpha_beta(
                            leaf,
                            board_position(*old(b)),
                            -bound as int,
                            bound as int,
                            depth as nat,
                        );
                        played == if pruning_fails(
                            leaf,
                            learned_failing(*orc, *orc_black, *passed, with_material),
                            board_position(*old(b)),
                            -bound as int,
                            bound as int,
                            depth as nat,
                        ) {
                            Err::<Option<u16>, SearchFailure>(SearchFailure::Evaluator)
                        } else if found.0 == NULL_MOVE {
                            Ok(None)
                        } else {
                            Ok(Some(found.0))
                        }
                    },
                }
            }
        }),
{
    let plan = plan_bot_step(moves_played, white_to_move(b), depth);
    let steps: u16 = match plan {
        BotPlan::Random => 1,
        BotPlan::Search { bound, depth, inv_val } => if depth == 0 {
            1
        } else {
            depth
        },
    };
    if !board_is_playable(b, steps) {
        return Err(SearchFailure::UnsoundBoard);
    }
    let chosen: u16 = match plan {
        BotPlan::Random => {
            let rand_moves = legal_moves(b);
            if rand_moves.len() == 0 {
                return Ok(None);
            }
            let at = random_below(rand_moves.len() as u64);
            let mv = rand_moves[at as usize];
            assert(rand_moves@.contains(rand_moves@[at as int]));
            mv
        },
        BotPlan::Search { bound, depth, inv_val } => {
            let found = my_alpha_beta_search(
                b,
                -bound,
                bound,
                depth,
                orc,
                orc_black,
                passed,
                with_material,
                inv_val,
            );
            match found {
                Ok(best_move) => {
                    if best_move.bit_move == NULL_MOVE {
                        return Ok(None);
                    }
                    best_move.bit_move
                },
                Err(failure) => {
                    return Err(failure);
                },
            }
        },
    };
    apply_move(b, chosen);
    Ok(Some(chosen))
}

} // verus!
