//! The position store: an 8 by 8 grid of optional pieces, plus the helpers
//! that read and rewrite it and the cursor-to-square mapping.

use vstd::prelude::*;

use crate::constants;
use crate::piece::{Piece, PieceVariant, TeamColor};
use crate::produce::{Move, MoveType};

verus! {

broadcast use vstd::array::group_array_axioms;

/// True when `(column, row)` names one of the 64 squares.
pub open spec fn in_board(column: int, row: int) -> bool {
    0 <= column < 8 && 0 <= row < 8
}

/// The 8 by 8 grid.  `pieces[row][column]` is the square in file `column`
/// of rank `row`; rank 0 is the far side, rank 7 the near side.
pub struct Board {
    pub pieces: [[Option<Piece>; 8]; 8],
}

impl Board {
    /// The piece on `(column, row)`, or `None` off the board.
    pub open spec fn spec_at(self, column: int, row: int) -> Option<Piece> {
        if in_board(column, row) {
            self.pieces@[row]@[column]
        } else {
            None
        }
    }

    /// An empty board.
    pub fn init() -> (board: Board)
        ensures
            forall|c: int, r: int| board.spec_at(c, r) is None,
    {
        let pieces = [[None; 8]; 8];
        Board { pieces }
    }

    /// The standard starting array, oriented for the chosen side: the
    /// chosen colour's pieces fill ranks 6 and 7, the opponent's ranks 0
    /// and 1.
    pub fn color(teamcolor: &TeamColor) -> (board: Board)
        ensures
            forall|c: int, r: int| board.spec_at(c, r) == start_square(*teamcolor, c, r),
    {
        let mut board = Board::init();
        let chosen = *teamcolor;
        let enemy = chosen.other();

        let mut column: usize = 0;
        while column < 8
            invariant
                column <= 8,
                enemy == chosen.spec_other(),
                forall|c: int, r: int|
                    board.spec_at(c, r) == if 0 <= c < column as int {
                        start_square(chosen, c, r)
                    } else {
                        Option::<Piece>::None
                    },
            decreases 8 - column,
        {
            board.set_square(column, 1, Some(Piece { variant: PieceVariant::Pawn, color: enemy }));
            board.set_square(column, 6, Some(Piece { variant: PieceVariant::Pawn, color: chosen }));
            board.set_square(column, 0, Some(Piece { variant: back_rank_variant(chosen, column), color: enemy }));
            board.set_square(column, 7, Some(Piece { variant: back_rank_variant(chosen, column), color: chosen }));
            column = column + 1;
        }
        board
    }

    /// The piece on `(column, row)`; total, with `None` off the board.
    pub fn get_square(&self, column: usize, row: usize) -> (square: Option<Piece>)
        ensures
            square == self.spec_at(column as int, row as int),
    {
        if column < 8 && row < 8 {
            self.pieces[row][column]
        } else {
            None
        }
    }

    /// Rewrites one square, leaving every other square as it was.
    pub fn set_square(&mut self, column: usize, row: usize, value: Option<Piece>)
        requires
            column < 8,
            row < 8,
        ensures
            forall|c: int, r: int|
                final(self).spec_at(c, r) == if c == column as int && r == row as int {
                    value
                } else {
                    old(self).spec_at(c, r)
                },
    {
        let mut rank: [Option<Piece>; 8] = self.pieces[row];
        rank[column] = value;
        self.pieces[row] = rank;
    }
}

/// The piece kind that opens the game on `column` of either back rank.
/// The king stands on file 4 when the chosen side is White and on file 3
/// when it is Black, for both colours, since the board is mirrored when
/// Black sits at the bottom.
pub open spec fn spec_back_rank_variant(chosen: TeamColor, column: int) -> PieceVariant {
    if column == 0 || column == 7 {
        PieceVariant::Castle
    } else if column == 1 || column == 6 {
        PieceVariant::Knight
    } else if column == 2 || column == 5 {
        PieceVariant::Bishop
    } else if column == 3 {
        if chosen == TeamColor::White {
            PieceVariant::Queen
        } else {
            PieceVariant::King
        }
    } else {
        if chosen == TeamColor::White {
            PieceVariant::King
        } else {
            PieceVariant::Queen
        }
    }
}

/// Executable twin of [`spec_back_rank_variant`].
fn back_rank_variant(chosen: TeamColor, column: usize) -> (variant: PieceVariant)
    requires
        column < 8,
    ensures
        variant == spec_back_rank_variant(chosen, column as int),
{
    if column == 0 || column == 7 {
        PieceVariant::Castle
    } else if column == 1 || column == 6 {
        PieceVariant::Knight
    } else if column == 2 || column == 5 {
        PieceVariant::Bishop
    } else if column == 3 {
        if chosen == TeamColor::White {
            PieceVariant::Queen
        } else {
            PieceVariant::King
        }
    } else {
        if chosen == TeamColor::White {
            PieceVariant::King
        } else {
            PieceVariant::Queen
        }
    }
}

/// What the starting array holds on `(column, row)` when `chosen` sits at
/// the bottom: pawns on ranks 1 and 6, the back ranks on 0 and 7, nothing
/// between.
pub open spec fn start_square(chosen: TeamColor, column: int, row: int) -> Option<Piece> {
    if !in_board(column, row) {
        None
    } else if row == 1 {
        Some(Piece { variant: PieceVariant::Pawn, color: chosen.spec_other() })
    } else if row == 6 {
        Some(Piece { variant: PieceVariant::Pawn, color: chosen })
    } else if row == 0 {
        Some(Piece { variant: spec_back_rank_variant(chosen, column), color: chosen.spec_other() })
    } else if row == 7 {
        Some(Piece { variant: spec_back_rank_variant(chosen, column), color: chosen })
    } else {
        None
    }
}

/// Relocates the piece on `move_data.from` to `move_data.to`, vacating the
/// source square; whatever held `move_data.to` is discarded.
pub fn move_board_piece(chessboard: &mut Board, move_data: &Move)
    requires
        in_board(move_data.from.0 as int, move_data.from.1 as int),
        in_board(move_data.to.0 as int, move_data.to.1 as int),
    ensures
        forall|c: int, r: int|
            final(chessboard).spec_at(c, r) == if c == move_data.to.0 as int && r == move_data.to.1 as int {
                old(chessboard).spec_at(move_data.from.0 as int, move_data.from.1 as int)
            } else if c == move_data.from.0 as int && r == move_data.from.1 as int {
                Option::<Piece>::None
            } else {
                old(chessboard).spec_at(c, r)
            },
{
    let taken = chessboard.get_square(move_data.from.0, move_data.from.1);
    chessboard.set_square(move_data.from.0, move_data.from.1, None);
    chessboard.set_square(move_data.to.0, move_data.to.1, taken);
}

/// The squares the given moves land on, in the same order.
pub fn get_target_squares(moves: &[Move]) -> (output: Vec<(usize, usize)>)
    ensures
        output@.len() == moves@.len(),
        forall|i: int| 0 <= i < moves@.len() ==> output@[i] == moves@[i].to,
{
    let mut output: Vec<(usize, usize)> = Vec::new();
    let mut i: usize = 0;
    while i < moves.len()
        invariant
            i <= moves@.len(),
            output@.len() == i as int,
            forall|j: int| 0 <= j < i as int ==> output@[j] == moves@[j].to,
        decreases moves@.len() - i,
    {
        output.push(moves[i].to);
        i = i + 1;
    }
    output
}

/// The rook relocation that belongs to a castle whose king lands on
/// `move_data_target`: column 1 or 2 pairs with the rook on file 0, column
/// 5 or 6 with the rook on file 7.
pub fn get_castling_move_data(move_data_target: (usize, usize)) -> (rook_move: Move)
    requires
        move_data_target.0 == 1 || move_data_target.0 == 2 || move_data_target.0 == 5
            || move_data_target.0 == 6,
    ensures
        rook_move.variant == MoveType::NonCapture,
        rook_move.from.1 == move_data_target.1,
        rook_move.to.1 == move_data_target.1,
        move_data_target.0 == 1 ==> rook_move.from.0 == 0 && rook_move.to.0 == 2,
        move_data_target.0 == 2 ==> rook_move.from.0 == 0 && rook_move.to.0 == 3,
        move_data_target.0 == 5 ==> rook_move.from.0 == 7 && rook_move.to.0 == 4,
        move_data_target.0 == 6 ==> rook_move.from.0 == 7 && rook_move.to.0 == 5,
{
    let i: usize = move_data_target.1;
    if move_data_target.0 == 1 {
        Move { variant: MoveType::NonCapture, from: (0, i), to: (2, i) }
    } else if move_data_target.0 == 2 {
        Move { variant: MoveType::NonCapture, from: (0, i), to: (3, i) }
    } else if move_data_target.0 == 5 {
        Move { variant: MoveType::NonCapture, from: (7, i), to: (4, i) }
    } else {
        Move { variant: MoveType::NonCapture, from: (7, i), to: (5, i) }
    }
}

/// True when the cursor rests inside the promotion-selection strip, a
/// six-square band across the middle of the board with a ten-pixel margin.
/// The strip's top edge sits at 190.6 pixels, so the test is carried out
/// in tenths of a pixel.
pub fn is_cursor_inside_promoting_selection(x: u32, y: u32) -> (inside: bool)
    ensures
        inside == (x > 96 && 10 * (y as int) > 1906 && x < 416 && 10 * (y as int) < 2606),
{
    let margin_top_bottom: u32 = (constants::BOARD_IN_WINDOW_SIZE - constants::SQUARE_IN_BOARD_SIZE) / 2;
    let margin_left_right: u32 = constants::SQUARE_IN_BOARD_SIZE;
    let margin_offset: u32 = 10;
    let width: u32 = constants::SQUARE_IN_BOARD_SIZE * 6 + margin_offset * 2;
    let height: u32 = constants::SQUARE_IN_BOARD_SIZE + margin_offset * 2;
    let rect_x: u32 = constants::BOARD_X_OFFSET + margin_left_right - margin_offset;
    let rect_y_tenths: u32 = constants::BOARD_Y_OFFSET_TENTHS + margin_top_bottom * 10
        - margin_offset * 10;
    let x_tenths: u64 = (x as u64) * 10;
    let y_tenths: u64 = (y as u64) * 10;

    (rect_x as u64) * 10 < x_tenths && (rect_y_tenths as u64) < y_tenths
        && x_tenths < ((rect_x + width) as u64) * 10
        && y_tenths < (rect_y_tenths + height * 10) as u64
}

/// True when the square the move landed on now holds a pawn and the move
/// spanned two ranks: the mark of a double push just applied.
pub fn is_move_advancing_pawn(move_data: &Move, chessboard: &Board) -> (advancing: bool)
    ensures
        advancing == (chessboard.spec_at(move_data.to.0 as int, move_data.to.1 as int) matches Some(p)
            && p.variant == PieceVariant::Pawn
            && (move_data.to.1 as int - move_data.from.1 as int == 2
                || move_data.from.1 as int - move_data.to.1 as int == 2)),
{
    let (column, row) = move_data.to;
    let target_square = chessboard.get_square(column, row);
    match target_square {
        Some(piece) => {
            let is_pawn = match piece.variant {
                PieceVariant::Pawn => true,
                _ => false,
            };
            let diff_two: bool = if row >= move_data.from.1 {
                row - move_data.from.1 == 2
            } else {
                move_data.from.1 - row == 2
            };
            is_pawn && diff_two
        },
        None => false,
    }
}

/// True when the cursor rests strictly inside the board's outline.
pub fn is_cursor_inside_board(x: u32, y: u32) -> (inside: bool)
    ensures
        inside == (x > 56 && x < 456 && y > 25 && y < 425),
{
    x > constants::BOARD_X_OFFSET
        && x < constants::BOARD_X_OFFSET + constants::BOARD_IN_WINDOW_SIZE
        && y > constants::BOARD_Y_OFFSET_TENTHS / 10
        && y < constants::BOARD_Y_OFFSET_TENTHS / 10 + constants::BOARD_IN_WINDOW_SIZE
}

/// Converts a board square `(column, row)` into the canvas position of its
/// top-left corner.
pub fn into_absolute_position(column: u32, row: u32) -> (pos: (u32, u32))
    requires
        column < 8,
        row < 8,
    ensures
        pos.0 as int == column as int * 50 + 56,
        pos.1 as int == row as int * 50 + 25,
{
    (
        column * constants::SQUARE_IN_BOARD_SIZE + constants::BOARD_X_OFFSET,
        row * constants::SQUARE_IN_BOARD_SIZE + constants::BOARD_Y_OFFSET_TENTHS / 10,
    )
}

/// Converts a canvas position into the board square under it.
pub fn into_relative_position(x: u32, y: u32) -> (square: (u32, u32))
    requires
        x >= 56,
        y >= 25,
    ensures
        square.0 as int == (x as int - 56) / 50,
        square.1 as int == (y as int - 25) / 50,
{
    (
        (x - constants::BOARD_X_OFFSET) / constants::SQUARE_IN_BOARD_SIZE,
        (y - constants::BOARD_Y_OFFSET_TENTHS / 10) / constants::SQUARE_IN_BOARD_SIZE,
    )
}

} // verus!

