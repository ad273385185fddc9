//! The move applier and the command dispatch: every mutation of the game
//! passes through here.

use vstd::prelude::*;

use crate::board::in_board;
use crate::game::{
    castle_home_intact, home_row, home_row_of, king_at, king_home_column, king_home_column_of,
    rook_home_column, rook_home_column_of, Command, Game, GameState,
};
use crate::piece::{Piece, PieceVariant, TeamColor};
use crate::produce::{move_allowed, turn, Move, MoveType};

verus! {

/// The file the rook lands on in the castle `m`: just past the king, on
/// the side it came from.
pub open spec fn rook_to_column(m: Move) -> int {
    if m.variant == MoveType::Castling(7usize) {
        m.to.0 - 1
    } else {
        m.to.0 + 1
    }
}

/// What applying `m` to `pre` leaves on `(c, r)`: the mover lands on
/// `m.to` (a promotion lands as the chosen kind), `m.from` is vacated, an
/// en-passant capture also vacates the passed pawn's square, and a castle
/// also relocates the rook.
pub open spec fn square_after(pre: Game, m: Move, c: int, r: int) -> Option<Piece> {
    if c == m.to.0 as int && r == m.to.1 as int {
        match m.variant {
            MoveType::Promotion(v) => Some(Piece { variant: v, color: turn(pre) }),
            _ => pre.board.spec_at(m.from.0 as int, m.from.1 as int),
        }
    } else if c == m.from.0 as int && r == m.from.1 as int {
        None
    } else {
        match m.variant {
            MoveType::Castling(col) => {
                if c == rook_to_column(m) && r == m.from.1 as int {
                    pre.board.spec_at(col as int, m.from.1 as int)
                } else if c == col as int && r == m.from.1 as int {
                    None
                } else {
                    pre.board.spec_at(c, r)
                }
            },
            MoveType::EnPassant => {
                if c == m.to.0 as int && r == m.from.1 as int {
                    None
                } else {
                    pre.board.spec_at(c, r)
                }
            },
            _ => pre.board.spec_at(c, r),
        }
    }
}

/// How [`move_piece`] rewrites the game: the board square by square per
/// [`square_after`], the en-passant mark kept only for a double push, the
/// pending promotion cleared, every castling right reduced to "still held
/// and still backed by the board", the state brought back to the board
/// after a promotion, and everything else untouched.
pub open spec fn move_applied(pre: Game, m: Move, post: Game) -> bool {
    &&& forall|c: int, r: int| post.board.spec_at(c, r) == square_after(pre, m, c, r)
    &&& post.data.current_turn == pre.data.current_turn
    &&& post.data.player_color == pre.data.player_color
    &&& post.data.focused_square == pre.data.focused_square
    &&& post.data.danger_squares == pre.data.danger_squares
    &&& post.data.available_moves == pre.data.available_moves
    &&& post.data.recent_advancing_pawn == (if m.variant == MoveType::AdvancePawn {
        Some(m.to)
    } else {
        Option::<(usize, usize)>::None
    })
    &&& post.data.recent_promoting_pawn is None
    &&& forall|color: TeamColor, side: int|
        0 <= side < 2 ==> #[trigger] post.data.spec_right(color, side) == (pre.data.spec_right(
            color,
            side,
        ) && castle_home_intact(post.board, pre.data.player_color, color, side))
    &&& post.state == (if m.variant matches MoveType::Promotion(_) {
        GameState::BoardGame
    } else {
        pre.state
    })
}

/// Re-checks one castling right against the live board and revokes it if
/// the king or the rook has left its home square.
fn refresh_right(game: &mut Game, color: TeamColor, side: usize)
    requires
        side < 2,
    ensures
        final(game).board == old(game).board,
        final(game).state == old(game).state,
        final(game).data.current_turn == old(game).data.current_turn,
        final(game).data.player_color == old(game).data.player_color,
        final(game).data.focused_square == old(game).data.focused_square,
        final(game).data.danger_squares == old(game).data.danger_squares,
        final(game).data.available_moves == old(game).data.available_moves,
        final(game).data.recent_advancing_pawn == old(game).data.recent_advancing_pawn,
        final(game).data.recent_promoting_pawn == old(game).data.recent_promoting_pawn,
        forall|co: TeamColor, si: int|
            0 <= si < 2 ==> final(game).data.spec_right(co, si) == (if co == color && si
                == side as int {
                old(game).data.spec_right(co, si) && castle_home_intact(
                    old(game).board,
                    old(game).data.player_color,
                    color,
                    side as int,
                )
            } else {
                old(game).data.spec_right(co, si)
            }),
{
    let player = game.data.player_color;
    let row: usize = home_row_of(player, color);
    let rook_column: usize = rook_home_column_of(side);
    let king_column: usize = king_home_column_of(player);

    let rook_ok = match game.board.get_square(rook_column, row) {
        Some(p) => p.variant == PieceVariant::Castle && p.color == color,
        None => false,
    };
    let king_ok = match game.board.get_square(king_column, row) {
        Some(p) => p.variant == PieceVariant::King && p.color == color,
        None => false,
    };
    let intact = rook_ok && king_ok;
    proof {
        assert(intact == castle_home_intact(game.board, player, color, side as int));
    }
    if !intact {
        game.data.set_right(color, side, false);
    }
}

/// Re-checks all six home squares (both rooks and the king, per colour)
/// and revokes every right no longer backed by the board.
fn update_castling_data(game: &mut Game)
    ensures
        final(game).board == old(game).board,
        final(game).state == old(game).state,
        final(game).data.current_turn == old(game).data.current_turn,
        final(game).data.player_color == old(game).data.player_color,
        final(game).data.focused_square == old(game).data.focused_square,
        final(game).data.danger_squares == old(game).data.danger_squares,
        final(game).data.available_moves == old(game).data.available_moves,
        final(game).data.recent_advancing_pawn == old(game).data.recent_advancing_pawn,
        final(game).data.recent_promoting_pawn == old(game).data.recent_promoting_pawn,
        forall|co: TeamColor, si: int|
            0 <= si < 2 ==> final(game).data.spec_right(co, si) == (old(game).data.spec_right(
                co,
                si,
            ) && castle_home_intact(old(game).board, old(game).data.player_color, co, si)),
{
    refresh_right(game, TeamColor::White, 0);
    refresh_right(game, TeamColor::White, 1);
    refresh_right(game, TeamColor::Black, 0);
    refresh_right(game, TeamColor::Black, 1);
}

/// Applies a previously generated move to the game; see
/// [`move_applied`] for everything it rewrites.  The move must come from
/// the current legal set: the applier does not re-validate.
pub fn move_piece(game: &mut Game, move_data: Move)
    requires
        old(game).wf(),
        move_allowed(*old(game), move_data),
    ensures
        move_applied(*old(game), move_data, *final(game)),
        final(game).wf(),
{
    let ghost pre = *game;
    let from = move_data.from;
    let to = move_data.to;

    let piece_taken = game.board.get_square(from.0, from.1);
    game.board.set_square(from.0, from.1, None);
    game.data.recent_advancing_pawn = None;
    game.data.recent_promoting_pawn = None;
    proof {
        lemma_allowed_bounds(pre, move_data);
    }

    match move_data.variant {
        MoveType::Promotion(variant) => {
            game.state = GameState::BoardGame;
            game.board.set_square(
                to.0,
                to.1,
                Some(Piece { variant, color: game.data.current_turn }),
            );
        },
        MoveType::AdvancePawn => {
            game.data.recent_advancing_pawn = Some(to);
            game.board.set_square(to.0, to.1, piece_taken);
        },
        MoveType::EnPassant => {
            game.board.set_square(to.0, from.1, None);
            game.board.set_square(to.0, to.1, piece_taken);
        },
        MoveType::Castling(column) => {
            let to_column: usize = if column == 7 {
                to.0 - 1
            } else {
                to.0 + 1
            };
            let rook = game.board.get_square(column, from.1);
            game.board.set_square(column, from.1, None);
            game.board.set_square(to_column, from.1, rook);
            game.board.set_square(to.0, to.1, piece_taken);
        },
        _ => {
            game.board.set_square(to.0, to.1, piece_taken);
        },
    }
    proof {
        assert forall|c: int, r: int| game.board.spec_at(c, r) == square_after(pre, move_data, c, r)
            by {}
    }
    update_castling_data(game);
    proof {
        lemma_applied_wf(pre, move_data, *game);
    }
}

/// Bounds that every allowed move obeys, strong enough to keep the
/// applier's square arithmetic on the board: both endpoints lie on the
/// board, a castle starts on the king's home file and names rook file 0
/// or 7, and an en-passant capture shifts one file.
pub proof fn lemma_allowed_bounds(g: Game, m: Move)
    requires
        g.wf(),
        move_allowed(g, m),
    ensures
        in_board(m.from.0 as int, m.from.1 as int),
        in_board(m.to.0 as int, m.to.1 as int),
        m.variant matches MoveType::Castling(col) ==> (col == 0 || col == 7) && 3 <= m.from.0 as int
            <= 4 && (m.to.0 as int == m.from.0 as int - 2 || m.to.0 as int == m.from.0 as int + 2)
            && m.to.1 == m.from.1 && 1 <= rook_to_column(m) < 8 && rook_to_column(m)
            != m.from.0 as int,
        m.variant == MoveType::EnPassant ==> m.to.0 as int != m.from.0 as int,
{
    let from = m.from;
    let p = g.spec_at(from.0 as int, from.1 as int).unwrap();
    match p.variant {
        PieceVariant::Queen => {
            let i = choose|i: int|
                0 <= i < 8 && #[trigger] crate::produce::ray_move_allowed(g, from, i, m);
            let k = choose|k: int|
                1 <= k && #[trigger] crate::produce::ray_move_at(g, from, i, k, m);
            assert(crate::produce::ray_move_at(g, from, i, k, m));
        },
        PieceVariant::Castle => {
            let i = choose|i: int|
                0 <= i < 4 && #[trigger] crate::produce::ray_move_allowed(g, from, i, m);
            let k = choose|k: int|
                1 <= k && #[trigger] crate::produce::ray_move_at(g, from, i, k, m);
            assert(crate::produce::ray_move_at(g, from, i, k, m));
        },
        PieceVariant::Bishop => {
            let i = choose|i: int|
                4 <= i < 8 && #[trigger] crate::produce::ray_move_allowed(g, from, i, m);
            let k = choose|k: int|
                1 <= k && #[trigger] crate::produce::ray_move_at(g, from, i, k, m);
            assert(crate::produce::ray_move_at(g, from, i, k, m));
        },
        PieceVariant::King => {
            if exists|k: int| 0 <= k < 9 && #[trigger] crate::produce::king_step_at(g, from, k, m) {
                let k = choose|k: int|
                    0 <= k < 9 && #[trigger] crate::produce::king_step_at(g, from, k, m);
                assert(crate::produce::king_step_at(g, from, k, m));
            } else {
                crate::produce::king_on_home_square(g, from);
            }
        },
        PieceVariant::Knight => {
            let k = choose|k: int|
                0 <= k < 8 && #[trigger] crate::produce::knight_move_at(g, from, k, m);
            assert(crate::produce::knight_move_at(g, from, k, m));
        },
        PieceVariant::Pawn => {},
    }
}

/// Applying an allowed move keeps the game well-formed: the board can
/// gain no second king, and the rights scan leaves no right unbacked.
pub proof fn lemma_applied_wf(pre: Game, m: Move, post: Game)
    requires
        pre.wf(),
        move_allowed(pre, m),
        move_applied(pre, m, post),
    ensures
        post.wf(),
{
    lemma_allowed_bounds(pre, m);
    assert forall|c1: int, r1: int, c2: int, r2: int, color: TeamColor|
        king_at(post.board, c1, r1, color) && king_at(post.board, c2, r2, color) implies c1 == c2
        && r1 == r2 by {
        let s1 = old_king_square(pre, m, c1, r1, color);
        let s2 = old_king_square(pre, m, c2, r2, color);
        assert(king_at(pre.board, s1.0, s1.1, color));
        assert(king_at(pre.board, s2.0, s2.1, color));
        assert(s1 == s2);
        if (c1, r1) != (c2, r2) {
            assert(false);
        }
    }
}

/// The square the king of `color` standing on `(c, r)` after the move
/// stood on before it.
spec fn old_king_square(pre: Game, m: Move, c: int, r: int, color: TeamColor) -> (int, int) {
    if c == m.to.0 as int && r == m.to.1 as int {
        (m.from.0 as int, m.from.1 as int)
    } else {
        (c, r)
    }
}

/// Only the coarse state differs between `pre` and `post`.
pub open spec fn only_state(pre: Game, post: Game, state: GameState) -> bool {
    post.state == state && post.board == pre.board && post.data == pre.data
}

/// How [`select_team`] rewrites the game: a fresh board oriented for
/// `color`, fresh auxiliary data with `color` seated at the bottom, and
/// the opening move set already computed.
pub open spec fn select_team_applied(pre: Game, color: TeamColor, post: Game) -> bool {
    &&& post.state == GameState::BoardGame
    &&& forall|c: int, r: int| post.board.spec_at(c, r) == crate::board::start_square(color, c, r)
    &&& post.data.current_turn == TeamColor::White
    &&& post.data.player_color == color
    &&& post.data.focused_square is None
    &&& post.data.danger_squares@.len() == 0
    &&& post.data.recent_advancing_pawn is None
    &&& post.data.recent_promoting_pawn is None
    &&& forall|co: TeamColor, si: int| 0 <= si < 2 ==> post.data.spec_right(co, si)
    &&& forall|m: Move| #[trigger] post.data.available_moves@.contains(m) <==> move_allowed(post, m)
    &&& post.wf()
}

/// How [`change_turn`] rewrites the game: the turn flips and the move
/// set is recomputed for the new side; nothing else changes.
pub open spec fn change_turn_applied(pre: Game, post: Game) -> bool {
    &&& post.data.current_turn == pre.data.current_turn.spec_other()
    &&& post.board == pre.board
    &&& post.state == pre.state
    &&& post.data.player_color == pre.data.player_color
    &&& post.data.focused_square == pre.data.focused_square
    &&& post.data.danger_squares == pre.data.danger_squares
    &&& post.data.recent_advancing_pawn == pre.data.recent_advancing_pawn
    &&& post.data.recent_promoting_pawn == pre.data.recent_promoting_pawn
    &&& forall|co: TeamColor, si: int|
        0 <= si < 2 ==> post.data.spec_right(co, si) == pre.data.spec_right(co, si)
    &&& forall|m: Move| #[trigger] post.data.available_moves@.contains(m) <==> move_allowed(post, m)
}

/// How [`focus_square`] rewrites the game: the square is highlighted and
/// the landing squares of its moves are collected; nothing else changes.
pub open spec fn focus_applied(pre: Game, column: usize, row: usize, post: Game) -> bool {
    &&& post.data.focused_square == Some((column, row))
    &&& forall|t: (usize, usize)| #[trigger] post.data.danger_squares@.contains(t) <==> exists|m: Move|
        #[trigger] pre.data.available_moves@.contains(m) && m.from == (column, row) && m.to == t
    &&& post.board == pre.board
    &&& post.state == pre.state
    &&& post.data.current_turn == pre.data.current_turn
    &&& post.data.player_color == pre.data.player_color
    &&& post.data.available_moves == pre.data.available_moves
    &&& post.data.recent_advancing_pawn == pre.data.recent_advancing_pawn
    &&& post.data.recent_promoting_pawn == pre.data.recent_promoting_pawn
    &&& post.data.is_valid_castling == pre.data.is_valid_castling
}

/// How [`unfocus_square`] rewrites the game: the highlight and its
/// landing squares are dropped; nothing else changes.
pub open spec fn unfocus_applied(pre: Game, post: Game) -> bool {
    &&& post.data.focused_square is None
    &&& post.data.danger_squares@.len() == 0
    &&& post.board == pre.board
    &&& post.state == pre.state
    &&& post.data.current_turn == pre.data.current_turn
    &&& post.data.player_color == pre.data.player_color
    &&& post.data.available_moves == pre.data.available_moves
    &&& post.data.recent_advancing_pawn == pre.data.recent_advancing_pawn
    &&& post.data.recent_promoting_pawn == pre.data.recent_promoting_pawn
    &&& post.data.is_valid_castling == pre.data.is_valid_castling
}

/// How [`promote`] rewrites the game: the session turns to the promotion
/// menu and the landing square is remembered; nothing else changes.
pub open spec fn promote_applied(pre: Game, pos: (usize, usize), post: Game) -> bool {
    &&& post.state == GameState::PromoteSelection
    &&& post.data.recent_promoting_pawn == Some(pos)
    &&& post.board == pre.board
    &&& post.data.current_turn == pre.data.current_turn
    &&& post.data.player_color == pre.data.player_color
    &&& post.data.focused_square == pre.data.focused_square
    &&& post.data.danger_squares == pre.data.danger_squares
    &&& post.data.available_moves == pre.data.available_moves
    &&& post.data.recent_advancing_pawn == pre.data.recent_advancing_pawn
    &&& post.data.is_valid_castling == pre.data.is_valid_castling
}

/// Starts a new game with `color` seated at the bottom; see
/// [`select_team_applied`].
pub fn select_team(game: &mut Game, color: TeamColor)
    ensures
        select_team_applied(*old(game), color, *final(game)),
{
    game.state = GameState::BoardGame;
    game.data = crate::game::initialize_data();
    game.data.player_color = color;
    crate::game::init_chess_position(game, color);
    proof {
        assert forall|co: TeamColor, si: int| 0 <= si < 2 implies game.data.spec_right(co, si) by {
            assert(crate::game::color_index(co) == 0 || crate::game::color_index(co) == 1);
        }
        lemma_start_position_wf(*game);
    }
    let ghost mid = *game;
    let moves = crate::produce::generate_moves(game);
    game.data.available_moves = moves;
    proof {
        assert forall|m: Move| #[trigger] game.data.available_moves@.contains(m) <==> move_allowed(
            *game,
            m,
        ) by {
            crate::produce::lemma_move_allowed_frame(mid, *game, m);
        }
        assert forall|co: TeamColor, si: int|
            0 <= si < 2 && #[trigger] game.data.spec_right(co, si) implies castle_home_intact(
            game.board,
            game.data.player_color,
            co,
            si,
        ) by {
            assert(mid.data.spec_right(co, si));
        }
        assert forall|c1: int, r1: int, c2: int, r2: int, color2: TeamColor|
            king_at(game.board, c1, r1, color2) && king_at(game.board, c2, r2, color2) implies c1
            == c2 && r1 == r2 by {
            assert(king_at(mid.board, c1, r1, color2) && king_at(mid.board, c2, r2, color2));
            assert(mid.kings_unique());
        }
    }
}

/// The standard starting array, with full rights, is well-formed: both
/// kings stand alone on their home squares, the rooks on theirs.
proof fn lemma_start_position_wf(g: Game)
    requires
        forall|c: int, r: int| g.board.spec_at(c, r) == crate::board::start_square(
            g.data.player_color,
            c,
            r,
        ),
        forall|co: TeamColor, si: int| 0 <= si < 2 ==> g.data.spec_right(co, si),
    ensures
        g.wf(),
{
    let chosen = g.data.player_color;
    assert forall|c1: int, r1: int, c2: int, r2: int, color: TeamColor|
        king_at(g.board, c1, r1, color) && king_at(g.board, c2, r2, color) implies c1 == c2 && r1
        == r2 by {
        assert(g.board.spec_at(c1, r1) == crate::board::start_square(chosen, c1, r1));
        assert(g.board.spec_at(c2, r2) == crate::board::start_square(chosen, c2, r2));
    }
    assert forall|color: TeamColor, side: int|
        0 <= side < 2 && #[trigger] g.data.spec_right(color, side) implies castle_home_intact(
        g.board,
        chosen,
        color,
        side,
    ) by {
        let hr: int = home_row(chosen, color);
        let rc: int = rook_home_column(side);
        let kc: int = king_home_column(chosen);
        assert(g.board.spec_at(rc, hr) == crate::board::start_square(chosen, rc, hr));
        assert(g.board.spec_at(kc, hr) == crate::board::start_square(chosen, kc, hr));
    }
}

/// Flips the turn and recomputes the move set for the new side; see
/// [`change_turn_applied`].
pub fn change_turn(game: &mut Game)
    requires
        old(game).wf(),
    ensures
        change_turn_applied(*old(game), *final(game)),
        final(game).wf(),
{
    game.data.current_turn = game.data.current_turn.other();
    proof {
        assert forall|co: TeamColor, si: int|
            0 <= si < 2 && #[trigger] game.data.spec_right(co, si) implies castle_home_intact(
            game.board,
            game.data.player_color,
            co,
            si,
        ) by {
            assert(old(game).data.spec_right(co, si));
        }
        assert forall|c1: int, r1: int, c2: int, r2: int, color2: TeamColor|
            king_at(game.board, c1, r1, color2) && king_at(game.board, c2, r2, color2) implies c1
            == c2 && r1 == r2 by {
            assert(old(game).kings_unique());
            assert(king_at(old(game).board, c1, r1, color2) && king_at(
                old(game).board,
                c2,
                r2,
                color2,
            ));
        }
        assert(game.wf());
    }
    let ghost mid = *game;
    let moves = crate::produce::generate_moves(game);
    game.data.available_moves = moves;
    proof {
        assert forall|m: Move| #[trigger] game.data.available_moves@.contains(m) <==> move_allowed(
            *game,
            m,
        ) by {
            crate::produce::lemma_move_allowed_frame(mid, *game, m);
        }
        assert forall|co: TeamColor, si: int|
            0 <= si < 2 && #[trigger] game.data.spec_right(co, si) implies castle_home_intact(
            game.board,
            game.data.player_color,
            co,
            si,
        ) by {
            assert(mid.data.spec_right(co, si));
        }
        assert forall|c1: int, r1: int, c2: int, r2: int, color2: TeamColor|
            king_at(game.board, c1, r1, color2) && king_at(game.board, c2, r2, color2) implies c1
            == c2 && r1 == r2 by {
            assert(mid.kings_unique());
            assert(king_at(mid.board, c1, r1, color2) && king_at(mid.board, c2, r2, color2));
        }
    }
}

/// Highlights `(column, row)` and collects the landing squares of the
/// cached moves that start there; see [`focus_applied`].
pub fn focus_square(game: &mut Game, column: usize, row: usize)
    ensures
        focus_applied(*old(game), column, row, *final(game)),
{
    game.data.focused_square = Some((column, row));
    let mut danger: Vec<(usize, usize)> = Vec::new();
    let mut i: usize = 0;
    let n: usize = game.data.available_moves.len();
    while i < n
        invariant
            i <= n,
            n == game.data.available_moves@.len(),
            forall|t: (usize, usize)| #[trigger] danger@.contains(t) <==> exists|j: int|
                0 <= j < i as int && #[trigger] game.data.available_moves@[j].from == (column, row)
                    && game.data.available_moves@[j].to == t,
        decreases n - i,
    {
        let m = game.data.available_moves[i];
        if m.from.0 == column && m.from.1 == row {
            let ghost s0 = danger@;
            danger.push(m.to);
            proof {
                crate::produce::lemma_push_contains(s0, m.to);
                assert(game.data.available_moves@[i as int].from == (column, row));
                assert forall|t: (usize, usize)| #[trigger] danger@.contains(t) <==> exists|j: int|
                    0 <= j < i as int + 1 && #[trigger] game.data.available_moves@[j].from == (
                    column,
                    row,
                ) && game.data.available_moves@[j].to == t by {
                    if danger@.contains(t) {
                        if s0.contains(t) {
                        } else {
                            assert(game.data.available_moves@[i as int].to == t);
                        }
                    }
                }
            }
        } else {
            proof {
                assert forall|t: (usize, usize)| #[trigger] danger@.contains(t) <==> exists|j: int|
                    0 <= j < i as int + 1 && #[trigger] game.data.available_moves@[j].from == (
                    column,
                    row,
                ) && game.data.available_moves@[j].to == t by {
                    if exists|j: int|
                        0 <= j < i as int + 1 && #[trigger] game.data.available_moves@[j].from == (
                        column,
                        row,
                    ) && game.data.available_moves@[j].to == t {
                        let j = choose|j: int|
                            0 <= j < i as int + 1
                                && #[trigger] game.data.available_moves@[j].from == (column, row)
                                && game.data.available_moves@[j].to == t;
                        assert(j < i as int);
                    }
                }
            }
        }
        i = i + 1;
    }
    game.data.danger_squares = danger;
    proof {
        assert forall|t: (usize, usize)| #[trigger] game.data.danger_squares@.contains(t)
            <==> exists|m: Move| #[trigger] old(game).data.available_moves@.contains(m) && m.from
            == (column, row) && m.to == t by {
            if game.data.danger_squares@.contains(t) {
                let j = choose|j: int|
                    0 <= j < n as int && #[trigger] game.data.available_moves@[j].from == (
                    column,
                    row,
                ) && game.data.available_moves@[j].to == t;
                assert(old(game).data.available_moves@.contains(old(game).data.available_moves@[j]));
            }
            if exists|m: Move| #[trigger] old(game).data.available_moves@.contains(m) && m.from == (
                column,
                row,
            ) && m.to == t {
                let m = choose|m: Move|
                    #[trigger] old(game).data.available_moves@.contains(m) && m.from == (
                    column,
                    row,
                ) && m.to == t;
                let j = choose|j: int|
                    0 <= j < old(game).data.available_moves@.len()
                        && old(game).data.available_moves@[j] == m;
                assert(game.data.available_moves@[j].from == (column, row));
            }
        }
    }
}

/// Drops the highlight and its landing squares; see
/// [`unfocus_applied`].
pub fn unfocus_square(game: &mut Game)
    ensures
        unfocus_applied(*old(game), *final(game)),
{
    game.data.focused_square = None;
    game.data.danger_squares = Vec::new();
}

/// Turns to the promotion menu, remembering the landing square; see
/// [`promote_applied`].
pub fn promote(game: &mut Game, pos: (usize, usize))
    ensures
        promote_applied(*old(game), pos, *final(game)),
{
    game.state = GameState::PromoteSelection;
    game.data.recent_promoting_pawn = Some(pos);
}

/// What a command needs of the game it meets: an applied move must be in
/// the current legal set of a well-formed game, and a turn flip needs a
/// well-formed game to regenerate from.  Violating this is the
/// command layer's fault; the engine does not re-validate.
pub open spec fn command_pre(g: Game, cmd: Command) -> bool {
    match cmd {
        Command::Move(m) => g.wf() && move_allowed(g, m),
        Command::ChangeTurn => g.wf(),
        _ => true,
    }
}

/// How one command rewrites the game.  `Quit` only marks the session
/// `Terminated`; the caller ends it.
pub open spec fn step_ok(pre: Game, cmd: Command, post: Game) -> bool {
    match cmd {
        Command::Move(m) => move_applied(pre, m, post) && post.wf(),
        Command::Promote(pos) => promote_applied(pre, pos, post),
        Command::ChangeTurn => change_turn_applied(pre, post) && post.wf(),
        Command::Unfocus => unfocus_applied(pre, post),
        Command::Focus(c, r) => focus_applied(pre, c, r, post),
        Command::SelectTeam(color) => select_team_applied(pre, color, post),
        Command::ExitGame => only_state(pre, post, GameState::StartMenu),
        Command::Play => only_state(pre, post, GameState::TeamSelection),
        Command::Quit => only_state(pre, post, GameState::Terminated),
        Command::Idle => post == pre,
    }
}

/// Every command of the batch meets its precondition in the state it
/// will find.
pub open spec fn steps_safe(pre: Game, cmds: Seq<Command>) -> bool
    decreases cmds.len(),
{
    cmds.len() == 0 || (command_pre(pre, cmds[0]) && (forall|mid: Game|
        #[trigger] step_ok(pre, cmds[0], mid) ==> steps_safe(mid, cmds.skip(1))))
}

/// `post` is reachable from `pre` by applying the batch in order.
pub open spec fn steps_ok(pre: Game, cmds: Seq<Command>, post: Game) -> bool
    decreases cmds.len(),
{
    if cmds.len() == 0 {
        post == pre
    } else {
        exists|mid: Game| #[trigger] step_ok(pre, cmds[0], mid) && steps_ok(mid, cmds.skip(1), post)
    }
}

/// Extends a batch run by one more command at its end.
proof fn lemma_steps_ok_snoc(o: Game, t: Seq<Command>, cur: Game, cmd: Command, new: Game)
    requires
        steps_ok(o, t, cur),
        step_ok(cur, cmd, new),
    ensures
        steps_ok(o, t.push(cmd), new),
    decreases t.len(),
{
    let t2 = t.push(cmd);
    if t.len() == 0 {
        assert(cur == o);
        assert(t2[0] == cmd);
        assert(t2.skip(1) =~= Seq::<Command>::empty());
        assert(steps_ok(new, t2.skip(1), new));
        assert(step_ok(o, t2[0], new) && steps_ok(new, t2.skip(1), new));
    } else {
        let mid = choose|mid: Game|
            #[trigger] step_ok(o, t[0], mid) && steps_ok(mid, t.skip(1), cur);
        lemma_steps_ok_snoc(mid, t.skip(1), cur, cmd, new);
        assert(t2[0] == t[0]);
        assert(t2.skip(1) =~= t.skip(1).push(cmd));
        assert(step_ok(o, t2[0], mid) && steps_ok(mid, t2.skip(1), new));
    }
}

/// Processes a batch of commands in order; see [`step_ok`] for what each
/// one does.  The batch must be safe: each command, in the state it
/// meets, satisfies [`command_pre`].
pub fn update(instructions: Vec<Command>, game: &mut Game)
    requires
        steps_safe(*old(game), instructions@),
    ensures
        steps_ok(*old(game), instructions@, *final(game)),
{
    let n: usize = instructions.len();
    let mut i: usize = 0;
    proof {
        assert(instructions@.skip(0) =~= instructions@);
        assert(instructions@.take(0) =~= Seq::<Command>::empty());
    }
    while i < n
        invariant
            i <= n,
            n == instructions@.len(),
            steps_safe(*game, instructions@.skip(i as int)),
            steps_ok(*old(game), instructions@.take(i as int), *game),
        decreases n - i,
    {
        let ghost pre_step = *game;
        let ghost rest = instructions@.skip(i as int);
        proof {
            assert(rest.len() > 0);
            assert(rest[0] == instructions@[i as int]);
            assert(command_pre(pre_step, rest[0]));
        }
        let cmd = instructions[i];
        match cmd {
            Command::Quit => {
                game.state = GameState::Terminated;
            },
            Command::Play => {
                game.state = GameState::TeamSelection;
            },
            Command::ExitGame => {
                game.state = GameState::StartMenu;
            },
            Command::SelectTeam(color) => select_team(game, color),
            Command::Focus(c, r) => focus_square(game, c, r),
            Command::ChangeTurn => change_turn(game),
            Command::Unfocus => unfocus_square(game),
            Command::Move(move_data) => move_piece(game, move_data),
            Command::Promote(pos) => promote(game, pos),
            Command::Idle => {},
        }
        proof {
            assert(step_ok(pre_step, rest[0], *game));
            assert(steps_safe(*game, rest.skip(1)));
            assert(rest.skip(1) =~= instructions@.skip(i as int + 1));
            lemma_steps_ok_snoc(
                *old(game),
                instructions@.take(i as int),
                pre_step,
                instructions@[i as int],
                *game,
            );
            assert(instructions@.take(i as int).push(instructions@[i as int]) =~= instructions@.take(
                i as int + 1,
            ));
        }
        i = i + 1;
    }
    proof {
        assert(instructions@.take(n as int) =~= instructions@);
    }
}

} // verus!
