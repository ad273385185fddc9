//! The game value: coarse state, board, and auxiliary data, with its
//! well-formedness predicate and the functions that start a game.

use vstd::prelude::*;

use crate::board::{start_square, Board};
use crate::piece::{Piece, PieceVariant, TeamColor};
use crate::produce::Move;

verus! {

/// The coarse states of the session.
#[derive(Clone, Copy, Debug, PartialEq, Eq, Structural, Hash)]
pub enum GameState {
    StartMenu,
    TeamSelection,
    BoardGame,
    PromoteSelection,
    Terminated,
}

/// A command as the interaction layer hands it to [`crate::amend::update`].
#[derive(Clone, Copy, Debug, PartialEq)]
pub enum Command {
    Move(Move),
    Promote((usize, usize)),
    ChangeTurn,
    Unfocus,
    Focus(usize, usize),
    SelectTeam(TeamColor),
    ExitGame,
    Play,
    Quit,
    Idle,
}

/// The auxiliary state beside the board.
pub struct Data {
    /// The side whose moves `available_moves` describes.
    pub current_turn: TeamColor,
    /// The side seated at the bottom of the board (ranks 6 and 7).
    pub player_color: TeamColor,
    /// The square the user highlighted, if any.
    pub focused_square: Option<(usize, usize)>,
    /// The landing squares of the focused piece's moves.
    pub danger_squares: Vec<(usize, usize)>,
    /// The cached legal-move set, recomputed wholesale after every
    /// committed mutation or side selection.
    pub available_moves: Vec<Move>,
    /// The landing square of the most recent pawn double push, if the
    /// last committed move was one: the en-passant mark.
    pub recent_advancing_pawn: Option<(usize, usize)>,
    /// The square a pawn will be promoted on while the promotion kind is
    /// still being chosen.
    pub recent_promoting_pawn: Option<(usize, usize)>,
    /// Castling rights, indexed by colour (White 0, Black 1) and then by
    /// rook file (file 0 first, file 7 second).  Rights only ever fall.
    pub is_valid_castling: [[bool; 2]; 2],
}

/// The colour's index into `is_valid_castling`.
pub open spec fn color_index(color: TeamColor) -> int {
    match color {
        TeamColor::White => 0,
        TeamColor::Black => 1,
    }
}

impl Data {
    /// The castling right of `color` toward the rook on file 0 (`side` 0)
    /// or file 7 (`side` 1).
    pub open spec fn spec_right(self, color: TeamColor, side: int) -> bool {
        self.is_valid_castling@[color_index(color)]@[side]
    }

    /// Reads one castling right.
    pub fn right(&self, color: TeamColor, side: usize) -> (value: bool)
        requires
            side < 2,
        ensures
            value == self.spec_right(color, side as int),
    {
        let ci: usize = match color {
            TeamColor::White => 0,
            TeamColor::Black => 1,
        };
        self.is_valid_castling[ci][side]
    }

    /// Rewrites one castling right, leaving everything else as it was.
    pub fn set_right(&mut self, color: TeamColor, side: usize, value: bool)
        requires
            side < 2,
        ensures
            forall|co: TeamColor, si: int|
                0 <= si < 2 ==> final(self).spec_right(co, si) == (if co == color && si == side as int {
                    value
                } else {
                    old(self).spec_right(co, si)
                }),
            final(self).current_turn == old(self).current_turn,
            final(self).player_color == old(self).player_color,
            final(self).focused_square == old(self).focused_square,
            final(self).danger_squares == old(self).danger_squares,
            final(self).available_moves == old(self).available_moves,
            final(self).recent_advancing_pawn == old(self).recent_advancing_pawn,
            final(self).recent_promoting_pawn == old(self).recent_promoting_pawn,
    {
        let ci: usize = match color {
            TeamColor::White => 0,
            TeamColor::Black => 1,
        };
        let mut pair: [bool; 2] = self.is_valid_castling[ci];
        pair[side] = value;
        self.is_valid_castling[ci] = pair;
    }
}

/// The whole game: coarse state, position, and auxiliary data.
pub struct Game {
    pub state: GameState,
    pub board: Board,
    pub data: Data,
}

/// The rank colour `color`'s pieces open the game on: rank 7 for the side
/// seated at the bottom, rank 0 for the other.
pub open spec fn home_row(player: TeamColor, color: TeamColor) -> int {
    if color == player {
        7
    } else {
        0
    }
}

/// The file both kings open the game on: 4 when White sits at the bottom,
/// 3 when Black does.
pub open spec fn king_home_column(player: TeamColor) -> int {
    if player == TeamColor::White {
        4
    } else {
        3
    }
}

/// The file the rook of `side` opens the game on.
pub open spec fn rook_home_column(side: int) -> int {
    if side == 0 {
        0
    } else {
        7
    }
}

/// True when `color`'s king and the rook of `side` still stand on their
/// home squares of `board`.
pub open spec fn castle_home_intact(board: Board, player: TeamColor, color: TeamColor, side: int) -> bool {
    board.spec_at(rook_home_column(side), home_row(player, color)) == Some(
        Piece { variant: PieceVariant::Castle, color },
    ) && board.spec_at(king_home_column(player), home_row(player, color)) == Some(
        Piece { variant: PieceVariant::King, color },
    )
}

/// True when a king of `color` stands on `(column, row)`.
pub open spec fn king_at(board: Board, column: int, row: int, color: TeamColor) -> bool {
    board.spec_at(column, row) == Some(Piece { variant: PieceVariant::King, color })
}

impl Game {
    /// The piece on `(column, row)`, or `None` off the board.
    pub open spec fn spec_at(self, column: int, row: int) -> Option<Piece> {
        self.board.spec_at(column, row)
    }

    /// The piece on `(column, row)`; total, with `None` off the board.
    pub fn get_square(&self, column: usize, row: usize) -> (square: Option<Piece>)
        ensures
            square == self.spec_at(column as int, row as int),
    {
        self.board.get_square(column, row)
    }

    /// Each colour has at most one king on the board.
    pub open spec fn kings_unique(self) -> bool {
        forall|c1: int, r1: int, c2: int, r2: int, color: TeamColor|
            king_at(self.board, c1, r1, color) && king_at(self.board, c2, r2, color) ==> c1 == c2
                && r1 == r2
    }

    /// Every castling right still held is backed by the board: the king
    /// and the relevant rook stand untouched on their home squares.
    pub open spec fn rights_backed(self) -> bool {
        forall|color: TeamColor, side: int|
            0 <= side < 2 && #[trigger] self.data.spec_right(color, side) ==> castle_home_intact(
                self.board,
                self.data.player_color,
                color,
                side,
            )
    }

    /// The well-formedness the move generator and applier rely on.
    pub open spec fn wf(self) -> bool {
        self.kings_unique() && self.rights_backed()
    }

    /// The side to move.
    pub fn current_turn(&self) -> (color: TeamColor)
        ensures
            color == self.data.current_turn,
    {
        self.data.current_turn
    }

    /// The cached legal moves that start on `(column, row)`.
    pub fn legal_moves_from(&self, column: usize, row: usize) -> (moves: Vec<Move>)
        ensures
            forall|m: Move| #[trigger] moves@.contains(m)
                <==> self.data.available_moves@.contains(m) && m.from == (column, row),
    {
        let mut moves: Vec<Move> = Vec::new();
        let mut i: usize = 0;
        let n: usize = self.data.available_moves.len();
        while i < n
            invariant
                i <= n,
                n == self.data.available_moves@.len(),
                forall|m: Move| #[trigger] moves@.contains(m) <==> exists|j: int|
                    0 <= j < i as int && #[trigger] self.data.available_moves@[j] == m && m.from
                        == (column, row),
            decreases n - i,
        {
            let m = self.data.available_moves[i];
            if m.from.0 == column && m.from.1 == row {
                let ghost s0 = moves@;
                moves.push(m);
                proof {
                    crate::produce::lemma_push_contains(s0, m);
                    assert(self.data.available_moves@[i as int] == m);
                    assert forall|mm: Move| #[trigger] moves@.contains(mm) <==> exists|j: int|
                        0 <= j < i as int + 1 && #[trigger] self.data.available_moves@[j] == mm
                            && mm.from == (column, row) by {
                        if moves@.contains(mm) && !s0.contains(mm) {
                            assert(mm == m);
                        }
                    }
                }
            } else {
                proof {
                    assert forall|mm: Move| #[trigger] moves@.contains(mm) <==> exists|j: int|
                        0 <= j < i as int + 1 && #[trigger] self.data.available_moves@[j] == mm
                            && mm.from == (column, row) by {
                        if exists|j: int|
                            0 <= j < i as int + 1 && #[trigger] self.data.available_moves@[j] == mm
                                && mm.from == (column, row) {
                            let j = choose|j: int|
                                0 <= j < i as int + 1
                                    && #[trigger] self.data.available_moves@[j] == mm && mm.from
                                    == (column, row);
                            assert(j < i as int);
                        }
                    }
                }
            }
            i = i + 1;
        }
        proof {
            assert forall|m: Move| #[trigger] moves@.contains(m)
                <==> self.data.available_moves@.contains(m) && m.from == (column, row) by {
                if self.data.available_moves@.contains(m) && m.from == (column, row) {
                    let j = choose|j: int|
                        0 <= j < self.data.available_moves@.len()
                            && self.data.available_moves@[j] == m;
                    assert(self.data.available_moves@[j] == m && m.from == (column, row));
                }
            }
        }
        moves
    }
}

/// Fresh auxiliary data: White to move, full castling rights, nothing
/// remembered.
pub fn initialize_data() -> (data: Data)
    ensures
        data.current_turn == TeamColor::White,
        data.player_color == TeamColor::White,
        data.focused_square is None,
        data.danger_squares@.len() == 0,
        data.available_moves@.len() == 0,
        data.recent_advancing_pawn is None,
        data.recent_promoting_pawn is None,
        forall|color: TeamColor, side: int| 0 <= side < 2 ==> data.spec_right(color, side),
        forall|ci: int, si: int| 0 <= ci < 2 && 0 <= si < 2 ==> data.is_valid_castling@[ci]@[si],
{
    Data {
        current_turn: TeamColor::White,
        player_color: TeamColor::White,
        focused_square: None,
        danger_squares: Vec::new(),
        available_moves: Vec::new(),
        recent_advancing_pawn: None,
        recent_promoting_pawn: None,
        is_valid_castling: [[true, true], [true, true]],
    }
}

/// A fresh session: the start menu, an empty board, fresh data.
pub fn initialize_game() -> (game: Game)
    ensures
        game.state == GameState::StartMenu,
        forall|c: int, r: int| game.board.spec_at(c, r) is None,
        game.data.current_turn == TeamColor::White,
        game.data.player_color == TeamColor::White,
        game.data.focused_square is None,
        game.data.danger_squares@.len() == 0,
        game.data.available_moves@.len() == 0,
        game.data.recent_advancing_pawn is None,
        game.data.recent_promoting_pawn is None,
{
    Game { state: GameState::StartMenu, board: Board::init(), data: initialize_data() }
}

/// Rewrites the board to the standard starting array oriented for `color`,
/// touching nothing else.
pub fn init_chess_position(game: &mut Game, color: TeamColor)
    ensures
        forall|c: int, r: int| final(game).board.spec_at(c, r) == start_square(color, c, r),
        final(game).state == old(game).state,
        final(game).data == old(game).data,
{
    game.board = Board::color(&color);
}

/// Executable twin of [`home_row`].
pub fn home_row_of(player: TeamColor, color: TeamColor) -> (row: usize)
    ensures
        row as int == home_row(player, color),
{
    if color == player {
        7
    } else {
        0
    }
}

/// Executable twin of [`king_home_column`].
pub fn king_home_column_of(player: TeamColor) -> (column: usize)
    ensures
        column as int == king_home_column(player),
{
    if player == TeamColor::White {
        4
    } else {
        3
    }
}

/// Executable twin of [`rook_home_column`].
pub fn rook_home_column_of(side: usize) -> (column: usize)
    requires
        side < 2,
    ensures
        column as int == rook_home_column(side as int),
{
    if side == 0 {
        0
    } else {
        7
    }
}

} // verus!
