//! The decision layer between a click on a board square and the
//! commands it raises.  The pixel-to-square mapping stays outside; this
//! module starts from a square already named.

use vstd::prelude::*;

use crate::amend::{command_pre, step_ok, steps_safe};
use crate::game::{Command, Game};
use crate::piece::{Piece, PieceVariant, TeamColor};
use crate::produce::{
    lemma_allowed_move_shape, lemma_castle_target_empty, lemma_move_allowed_frame, move_allowed,
    pawn_end_row, pawn_forward, pawn_start_row, pawn_step_allowed, square_empty, turn, Move,
    MoveType,
};

verus! {

/// True when `piece` belongs to the side to move.
pub fn is_piece_ally(game: &Game, piece: &Piece) -> (ally: bool)
    ensures
        ally == (piece.color == turn(*game)),
{
    piece.color == game.data.current_turn
}

/// The focused square, or `(8, 8)` — off the board, so empty — when
/// nothing is focused.
pub open spec fn focused_or_off(g: Game) -> (usize, usize) {
    match g.data.focused_square {
        Some(sq) => sq,
        None => (8usize, 8usize),
    }
}

/// Executable twin of [`focused_or_off`].
fn focused_square_or_off(game: &Game) -> (sq: (usize, usize))
    ensures
        sq == focused_or_off(*game),
{
    match game.data.focused_square {
        Some(sq) => sq,
        None => (8, 8),
    }
}

/// A click on rank `row` finishes a promotion: the focused piece is the
/// side to move's pawn and `row` is its far rank.
pub open spec fn click_promotion(g: Game, row: usize) -> bool {
    let f = focused_or_off(g);
    match g.spec_at(f.0 as int, f.1 as int) {
        Some(p) => row as int == pawn_end_row(g) && p.color == turn(g) && p.variant
            == PieceVariant::Pawn,
        None => false,
    }
}

/// True when a click on rank `row` asks for a promotion; see
/// [`click_promotion`].
pub fn is_move_promotion(game: &Game, row: usize) -> (promoting: bool)
    ensures
        promoting == click_promotion(*game, row),
{
    let f = focused_square_or_off(game);
    let is_ally = game.data.current_turn == game.data.player_color;
    let end_row: usize = if is_ally {
        0
    } else {
        7
    };
    match game.get_square(f.0, f.1) {
        Some(piece) => row == end_row && is_piece_ally(game, &piece) && piece.variant
            == PieceVariant::Pawn,
        None => false,
    }
}

/// A click on rank `row` asks for a double push: the focused piece is
/// the side to move's pawn on its starting rank and `row` lies two ranks
/// ahead.
pub open spec fn click_advancing(g: Game, row: usize) -> bool {
    let f = focused_or_off(g);
    let two_ahead: int = if turn(g) == g.data.player_color {
        4
    } else {
        3
    };
    match g.spec_at(f.0 as int, f.1 as int) {
        Some(p) => row as int == two_ahead && f.1 as int == pawn_start_row(g) && p.color == turn(g)
            && p.variant == PieceVariant::Pawn,
        None => false,
    }
}

/// True when a click on rank `row` asks for a double push; see
/// [`click_advancing`].
pub fn is_move_advancing_pawn(game: &Game, row: usize) -> (advancing: bool)
    ensures
        advancing == click_advancing(*game, row),
{
    let f = focused_square_or_off(game);
    let is_ally = game.data.current_turn == game.data.player_color;
    let start_row: usize = if is_ally {
        6
    } else {
        1
    };
    let end_row: usize = if is_ally {
        4
    } else {
        3
    };
    match game.get_square(f.0, f.1) {
        Some(piece) => row == end_row && f.1 == start_row && is_piece_ally(game, &piece)
            && piece.variant == PieceVariant::Pawn,
        None => false,
    }
}

/// A click on file `column` asks for an en-passant capture: the focused
/// piece is the side to move's pawn and the most recent double push
/// ended on `(column, f.1)`, right beside it.
pub open spec fn click_enpassant(g: Game, column: usize) -> bool {
    let f = focused_or_off(g);
    match g.spec_at(f.0 as int, f.1 as int) {
        Some(p) => g.data.recent_advancing_pawn == Some((column, f.1)) && p.color == turn(g)
            && p.variant == PieceVariant::Pawn,
        None => false,
    }
}

/// True when a click on file `column` asks for an en-passant capture;
/// see [`click_enpassant`].
pub fn is_move_enpassant(game: &Game, column: usize) -> (enpassant: bool)
    ensures
        enpassant == click_enpassant(*game, column),
{
    let f = focused_square_or_off(game);
    match game.get_square(f.0, f.1) {
        Some(piece) => {
            let recent_matches = match game.data.recent_advancing_pawn {
                Some(sq) => sq.0 == column && sq.1 == f.1,
                None => false,
            };
            recent_matches && is_piece_ally(game, &piece) && piece.variant == PieceVariant::Pawn
        },
        None => false,
    }
}

/// A click on file `column` asks for a castle: the focused piece is a
/// king and `column` lies two files away.
pub open spec fn click_castling(g: Game, column: usize) -> bool {
    let f = focused_or_off(g);
    match g.spec_at(f.0 as int, f.1 as int) {
        Some(p) => p.variant == PieceVariant::King && (f.0 as int - column as int == 2
            || column as int - f.0 as int == 2),
        None => false,
    }
}

/// True when a click on file `column` asks for a castle; see
/// [`click_castling`].
pub fn is_move_castling(game: &Game, column: usize) -> (castling: bool)
    ensures
        castling == click_castling(*game, column),
{
    let f = focused_square_or_off(game);
    match game.get_square(f.0, f.1) {
        Some(piece) => {
            let two_away: bool = if f.0 >= column {
                f.0 - column == 2
            } else {
                column - f.0 == 2
            };
            piece.variant == PieceVariant::King && two_away
        },
        None => false,
    }
}

/// The commands a click on `(column, row)` raises, in order: a legal
/// landing square commits the matching move, then drops the highlight
/// and flips the turn (a promotion only opens the promotion menu); a
/// click on an own piece focuses it; anything else drops the highlight.
pub open spec fn board_click_commands(g: Game, column: usize, row: usize) -> Seq<Command> {
    let f = focused_or_off(g);
    let is_valid = g.data.danger_squares@.contains((column, row));
    let has_focus = g.data.focused_square is Some;
    if is_valid && click_castling(g, column) {
        let castle_column: usize = if f.0 < column {
            7usize
        } else {
            0usize
        };
        seq![
            Command::Move(
                Move { variant: MoveType::Castling(castle_column), from: f, to: (column, row) },
            ),
            Command::Unfocus,
            Command::ChangeTurn,
        ]
    } else if is_valid && click_promotion(g, row) {
        seq![Command::Promote((column, row))]
    } else if is_valid && click_advancing(g, row) {
        seq![
            Command::Move(Move { variant: MoveType::AdvancePawn, from: f, to: (column, row) }),
            Command::Unfocus,
            Command::ChangeTurn,
        ]
    } else if is_valid && click_enpassant(g, column) {
        seq![
            Command::Move(Move { variant: MoveType::EnPassant, from: f, to: (column, row) }),
            Command::Unfocus,
            Command::ChangeTurn,
        ]
    } else {
        match g.spec_at(column as int, row as int) {
            Some(p) => {
                if is_valid && p.color != turn(g) && has_focus {
                    seq![
                        Command::Unfocus,
                        Command::Move(
                            Move { variant: MoveType::Capture, from: f, to: (column, row) },
                        ),
                        Command::ChangeTurn,
                    ]
                } else if p.color == turn(g) {
                    seq![Command::Focus(column, row)]
                } else {
                    seq![Command::Unfocus]
                }
            },
            None => {
                if is_valid && has_focus {
                    seq![
                        Command::Unfocus,
                        Command::Move(
                            Move { variant: MoveType::NonCapture, from: f, to: (column, row) },
                        ),
                        Command::ChangeTurn,
                    ]
                } else {
                    seq![Command::Unfocus]
                }
            },
        }
    }
}

/// True when `squares` holds `(column, row)`.
fn contains_square(squares: &Vec<(usize, usize)>, column: usize, row: usize) -> (found: bool)
    ensures
        found == squares@.contains((column, row)),
{
    let mut i: usize = 0;
    let n = squares.len();
    while i < n
        invariant
            i <= n,
            n == squares@.len(),
            forall|j: int| 0 <= j < i as int ==> squares@[j] != (column, row),
        decreases n - i,
    {
        let sq = squares[i];
        if sq.0 == column && sq.1 == row {
            proof {
                assert(squares@[i as int] == (column, row));
            }
            return true;
        }
        i = i + 1;
    }
    proof {
        assert forall|j: int| 0 <= j < squares@.len() implies squares@[j] != (column, row) by {}
    }
    false
}

/// Turns a click on board square `(column, row)` into the commands it
/// raises; see [`board_click_commands`].
pub fn handle_mouse_on_board(game: &Game, column: usize, row: usize) -> (commands: Vec<Command>)
    ensures
        commands@ == board_click_commands(*game, column, row),
{
    let f = focused_square_or_off(game);
    let is_valid = contains_square(&game.data.danger_squares, column, row);
    let has_focus = match game.data.focused_square {
        Some(_) => true,
        None => false,
    };
    let mut commands: Vec<Command> = Vec::new();
    if is_valid && is_move_castling(game, column) {
        let castle_column: usize = if f.0 < column {
            7
        } else {
            0
        };
        commands.push(
            Command::Move(
                Move { variant: MoveType::Castling(castle_column), from: f, to: (column, row) },
            ),
        );
        commands.push(Command::Unfocus);
        commands.push(Command::ChangeTurn);
    } else if is_valid && is_move_promotion(game, row) {
        commands.push(Command::Promote((column, row)));
    } else if is_valid && is_move_advancing_pawn(game, row) {
        commands.push(
            Command::Move(Move { variant: MoveType::AdvancePawn, from: f, to: (column, row) }),
        );
        commands.push(Command::Unfocus);
        commands.push(Command::ChangeTurn);
    } else if is_valid && is_move_enpassant(game, column) {
        commands.push(
            Command::Move(Move { variant: MoveType::EnPassant, from: f, to: (column, row) }),
        );
        commands.push(Command::Unfocus);
        commands.push(Command::ChangeTurn);
    } else {
        match game.get_square(column, row) {
            Some(piece) => {
                if is_valid && !is_piece_ally(game, &piece) && has_focus {
                    commands.push(Command::Unfocus);
                    commands.push(
                        Command::Move(
                            Move { variant: MoveType::Capture, from: f, to: (column, row) },
                        ),
                    );
                    commands.push(Command::ChangeTurn);
                } else if is_piece_ally(game, &piece) {
                    commands.push(Command::Focus(column, row));
                } else {
                    commands.push(Command::Unfocus);
                }
            },
            None => {
                if is_valid && has_focus {
                    commands.push(Command::Unfocus);
                    commands.push(
                        Command::Move(
                            Move { variant: MoveType::NonCapture, from: f, to: (column, row) },
                        ),
                    );
                    commands.push(Command::ChangeTurn);
                } else {
                    commands.push(Command::Unfocus);
                }
            },
        }
    }
    proof {
        assert(commands@ =~= board_click_commands(*game, column, row));
    }
    commands
}

/// The commands a promotion-menu pick raises: the promotion move itself,
/// then dropping the highlight and flipping the turn.
pub fn handle_promotion_choice(game: &Game, piece_variant: PieceVariant) -> (commands: Vec<Command>)
    requires
        game.data.focused_square is Some,
        game.data.recent_promoting_pawn is Some,
    ensures
        commands@ == seq![
            Command::Move(
                Move {
                    variant: MoveType::Promotion(piece_variant),
                    from: game.data.focused_square.unwrap(),
                    to: game.data.recent_promoting_pawn.unwrap(),
                },
            ),
            Command::Unfocus,
            Command::ChangeTurn,
        ],
{
    let from = match game.data.focused_square {
        Some(sq) => sq,
        None => (8, 8),
    };
    let to = match game.data.recent_promoting_pawn {
        Some(sq) => sq,
        None => (8, 8),
    };
    let mut commands: Vec<Command> = Vec::new();
    commands.push(
        Command::Move(Move { variant: MoveType::Promotion(piece_variant), from, to }),
    );
    commands.push(Command::Unfocus);
    commands.push(Command::ChangeTurn);
    proof {
        assert(commands@ =~= seq![
            Command::Move(
                Move {
                    variant: MoveType::Promotion(piece_variant),
                    from: game.data.focused_square.unwrap(),
                    to: game.data.recent_promoting_pawn.unwrap(),
                },
            ),
            Command::Unfocus,
            Command::ChangeTurn,
        ]);
    }
    commands
}

/// The cached fields are honest: `available_moves` holds exactly the
/// allowed moves, and `danger_squares` holds exactly where the focused
/// piece's moves land (or nothing while nothing is focused).  The state
/// machine re-establishes this after every committed mutation.
pub open spec fn cache_honest(g: Game) -> bool {
    &&& forall|m: Move| #[trigger] g.data.available_moves@.contains(m) <==> move_allowed(g, m)
    &&& match g.data.focused_square {
        Some(f) => forall|t: (usize, usize)| #[trigger] g.data.danger_squares@.contains(t)
            <==> exists|m: Move| #[trigger] g.data.available_moves@.contains(m) && m.from == f
                && m.to == t,
        None => g.data.danger_squares@.len() == 0,
    }
}

/// The en-passant mark is honest: the recorded square holds the enemy
/// pawn that just double-pushed, and the square it skipped — one rank
/// back toward the side to move — is still empty.
pub open spec fn en_passant_mark_ok(g: Game) -> bool {
    match g.data.recent_advancing_pawn {
        Some(adv) => {
            &&& g.spec_at(adv.0 as int, adv.1 as int) == Some(
                Piece { variant: PieceVariant::Pawn, color: turn(g).spec_other() },
            )
            &&& square_empty(g, adv.0 as int, adv.1 as int + pawn_forward(g))
        },
        None => true,
    }
}

/// Well-formedness rests only on the board, the seated side and the
/// rights, so it survives any change to the other fields.
proof fn lemma_wf_frame(g1: Game, g2: Game)
    requires
        g1.wf(),
        g2.board == g1.board,
        g2.data.player_color == g1.data.player_color,
        g2.data.is_valid_castling == g1.data.is_valid_castling,
    ensures
        g2.wf(),
{
    assert forall|c1: int, r1: int, c2: int, r2: int, color: TeamColor|
        crate::game::king_at(g2.board, c1, r1, color) && crate::game::king_at(
            g2.board,
            c2,
            r2,
            color,
        ) implies c1 == c2 && r1 == r2 by {
        assert(crate::game::king_at(g1.board, c1, r1, color));
        assert(crate::game::king_at(g1.board, c2, r2, color));
    }
    assert forall|color: TeamColor, side: int|
        0 <= side < 2 && #[trigger] g2.data.spec_right(color, side) implies
        crate::game::castle_home_intact(g2.board, g2.data.player_color, color, side) by {
        assert(g1.data.spec_right(color, side));
    }
}

/// The batch `[Move, Unfocus, ChangeTurn]` is safe before an allowed
/// move in a well-formed game.
proof fn lemma_move_batch_safe(g: Game, mv: Move)
    requires
        g.wf(),
        move_allowed(g, mv),
    ensures
        steps_safe(g, seq![Command::Move(mv), Command::Unfocus, Command::ChangeTurn]),
{
    let cmds = seq![Command::Move(mv), Command::Unfocus, Command::ChangeTurn];
    assert(command_pre(g, cmds[0]));
    assert forall|mid: Game| #[trigger] step_ok(g, cmds[0], mid) implies steps_safe(
        mid,
        cmds.skip(1),
    ) by {
        let rest = seq![Command::Unfocus, Command::ChangeTurn];
        assert(cmds.skip(1) =~= rest);
        assert forall|mid2: Game| #[trigger] step_ok(mid, rest[0], mid2) implies steps_safe(
            mid2,
            rest.skip(1),
        ) by {
            let rest2 = seq![Command::ChangeTurn];
            assert(rest.skip(1) =~= rest2);
            lemma_wf_frame(mid, mid2);
            assert(command_pre(mid2, rest2[0]));
            assert forall|mid3: Game| #[trigger] step_ok(mid2, rest2[0], mid3) implies steps_safe(
                mid3,
                rest2.skip(1),
            ) by {
                assert(rest2.skip(1) =~= Seq::<Command>::empty());
            }
            assert(steps_safe(mid2, rest2));
        }
        assert(steps_safe(mid, rest));
    }
    assert(steps_safe(g, cmds));
}

/// The batch `[Unfocus, Move, ChangeTurn]` is safe before an allowed
/// move in a well-formed game.
proof fn lemma_unfocus_move_batch_safe(g: Game, mv: Move)
    requires
        g.wf(),
        move_allowed(g, mv),
    ensures
        steps_safe(g, seq![Command::Unfocus, Command::Move(mv), Command::ChangeTurn]),
{
    let cmds = seq![Command::Unfocus, Command::Move(mv), Command::ChangeTurn];
    assert(command_pre(g, cmds[0]));
    assert forall|mid: Game| #[trigger] step_ok(g, cmds[0], mid) implies steps_safe(
        mid,
        cmds.skip(1),
    ) by {
        let rest = seq![Command::Move(mv), Command::ChangeTurn];
        assert(cmds.skip(1) =~= rest);
        lemma_wf_frame(g, mid);
        lemma_move_allowed_frame(g, mid, mv);
        assert(command_pre(mid, rest[0]));
        assert forall|mid2: Game| #[trigger] step_ok(mid, rest[0], mid2) implies steps_safe(
            mid2,
            rest.skip(1),
        ) by {
            let rest2 = seq![Command::ChangeTurn];
            assert(rest.skip(1) =~= rest2);
            assert(command_pre(mid2, rest2[0]));
            assert forall|mid3: Game| #[trigger] step_ok(mid2, rest2[0], mid3) implies steps_safe(
                mid3,
                rest2.skip(1),
            ) by {
                assert(rest2.skip(1) =~= Seq::<Command>::empty());
            }
            assert(steps_safe(mid2, rest2));
        }
        assert(steps_safe(mid, rest));
    }
    assert(steps_safe(g, cmds));
}

/// A batch of one command that is not a move or a turn flip is always
/// safe.
proof fn lemma_single_safe(g: Game, cmd: Command)
    requires
        !(cmd matches Command::Move(_)),
        cmd != Command::ChangeTurn,
    ensures
        steps_safe(g, seq![cmd]),
{
    let cmds = seq![cmd];
    assert(command_pre(g, cmds[0]));
    assert forall|mid: Game| #[trigger] step_ok(g, cmds[0], mid) implies steps_safe(
        mid,
        cmds.skip(1),
    ) by {
        assert(cmds.skip(1) =~= Seq::<Command>::empty());
    }
    assert(steps_safe(g, cmds));
}

/// Whatever square is clicked, the commands raised for it are safe to
/// process: every move they carry is drawn from the honest cache, so the
/// engine's preconditions hold along the whole batch.  This is the
/// discipline the error-handling design demands of the command layer,
/// discharged once and for all.
pub proof fn lemma_board_click_safe(g: Game, column: usize, row: usize)
    requires
        g.wf(),
        cache_honest(g),
        en_passant_mark_ok(g),
    ensures
        steps_safe(g, board_click_commands(g, column, row)),
{
    let f = focused_or_off(g);
    let is_valid = g.data.danger_squares@.contains((column, row));
    let has_focus = g.data.focused_square is Some;
    if is_valid {
        assert(has_focus) by {
            if g.data.focused_square is None {
                assert(g.data.danger_squares@.len() == 0);
                let i = choose|i: int|
                    0 <= i < g.data.danger_squares@.len() && g.data.danger_squares@[i] == (
                    column,
                    row,
                );
                assert(false);
            }
        }
    }
    if is_valid && click_castling(g, column) {
        let m = choose|m: Move|
            #[trigger] g.data.available_moves@.contains(m) && m.from == f && m.to == (column, row);
        assert(move_allowed(g, m));
        lemma_allowed_move_shape(g, m);
        let castle_column: usize = if f.0 < column {
            7usize
        } else {
            0usize
        };
        let mv = Move { variant: MoveType::Castling(castle_column), from: f, to: (column, row) };
        assert(m == mv) by {
            match m.variant {
                MoveType::Castling(col) => {
                    if f.0 < column {
                        assert(col == 7);
                    } else {
                        assert(col == 0);
                    }
                },
                _ => {
                    assert(false);
                },
            }
        }
        lemma_move_batch_safe(g, mv);
    } else if is_valid && click_promotion(g, row) {
        lemma_single_safe(g, Command::Promote((column, row)));
    } else if is_valid && click_advancing(g, row) {
        let m = choose|m: Move|
            #[trigger] g.data.available_moves@.contains(m) && m.from == f && m.to == (column, row);
        assert(move_allowed(g, m));
        lemma_allowed_move_shape(g, m);
        let mv = Move { variant: MoveType::AdvancePawn, from: f, to: (column, row) };
        assert(m == mv) by {
            match m.variant {
                MoveType::AdvancePawn => {},
                _ => {
                    assert(false);
                },
            }
        }
        lemma_move_batch_safe(g, mv);
    } else if is_valid && click_enpassant(g, column) {
        let m = choose|m: Move|
            #[trigger] g.data.available_moves@.contains(m) && m.from == f && m.to == (column, row);
        assert(move_allowed(g, m));
        lemma_allowed_move_shape(g, m);
        let mv = Move { variant: MoveType::EnPassant, from: f, to: (column, row) };
        assert(f.0 != column) by {
            if f.0 == column {
                assert(g.spec_at(f.0 as int, f.1 as int) == Some(
                    Piece { variant: PieceVariant::Pawn, color: turn(g).spec_other() },
                ));
            }
        }
        assert(m == mv) by {
            match m.variant {
                MoveType::EnPassant => {},
                MoveType::Capture => {
                    assert(square_empty(g, m.to.0 as int, m.to.1 as int));
                    assert(false);
                },
                _ => {
                    assert(false);
                },
            }
        }
        lemma_move_batch_safe(g, mv);
    } else {
        match g.spec_at(column as int, row as int) {
            Some(p) => {
                if is_valid && p.color != turn(g) && has_focus {
                    let m = choose|m: Move|
                        #[trigger] g.data.available_moves@.contains(m) && m.from == f && m.to == (
                        column,
                        row,
                    );
                    assert(move_allowed(g, m));
                    lemma_allowed_move_shape(g, m);
                    let mv = Move { variant: MoveType::Capture, from: f, to: (column, row) };
                    assert(m == mv) by {
                        match m.variant {
                            MoveType::Capture => {},
                            MoveType::Castling(col) => {
                                lemma_castle_target_empty(g, m);
                                assert(false);
                            },
                            _ => {
                                assert(false);
                            },
                        }
                    }
                    lemma_unfocus_move_batch_safe(g, mv);
                } else if p.color == turn(g) {
                    lemma_single_safe(g, Command::Focus(column, row));
                } else {
                    lemma_single_safe(g, Command::Unfocus);
                }
            },
            None => {
                if is_valid && has_focus {
                    let m = choose|m: Move|
                        #[trigger] g.data.available_moves@.contains(m) && m.from == f && m.to == (
                        column,
                        row,
                    );
                    assert(move_allowed(g, m));
                    lemma_allowed_move_shape(g, m);
                    let mv = Move { variant: MoveType::NonCapture, from: f, to: (column, row) };
                    assert(m == mv) by {
                        match m.variant {
                            MoveType::NonCapture => {},
                            MoveType::Capture => {
                                assert(false);
                            },
                            MoveType::Castling(col) => {
                                assert(click_castling(g, column));
                                assert(false);
                            },
                            MoveType::Promotion(v) => {
                                assert(click_promotion(g, row));
                                assert(false);
                            },
                            MoveType::AdvancePawn => {
                                assert(click_advancing(g, row));
                                assert(false);
                            },
                            MoveType::EnPassant => {
                                assert(click_enpassant(g, column));
                                assert(false);
                            },
                        }
                    }
                    lemma_unfocus_move_batch_safe(g, mv);
                } else {
                    lemma_single_safe(g, Command::Unfocus);
                }
            },
        }
    }
}

/// A promotion pick raises a safe batch: while the promotion menu is
/// honest — a pending pawn one step short of the far rank, focused, the
/// landing square free — the chosen promotion move is allowed.
pub proof fn lemma_promotion_choice_safe(g: Game, v: PieceVariant)
    requires
        g.wf(),
        crate::produce::promotion_variant(v),
        g.data.focused_square is Some,
        g.data.recent_promoting_pawn is Some,
        ({
            let f = g.data.focused_square.unwrap();
            let p = g.data.recent_promoting_pawn.unwrap();
            &&& g.spec_at(f.0 as int, f.1 as int) == Some(
                Piece { variant: PieceVariant::Pawn, color: turn(g) },
            )
            &&& p.0 == f.0
            &&& p.1 as int == f.1 as int + pawn_forward(g)
            &&& p.1 as int == pawn_end_row(g)
            &&& square_empty(g, p.0 as int, p.1 as int)
            &&& crate::board::in_board(p.0 as int, p.1 as int)
        }),
    ensures
        steps_safe(
            g,
            seq![
                Command::Move(
                    Move {
                        variant: MoveType::Promotion(v),
                        from: g.data.focused_square.unwrap(),
                        to: g.data.recent_promoting_pawn.unwrap(),
                    },
                ),
                Command::Unfocus,
                Command::ChangeTurn,
            ],
        ),
{
    let f = g.data.focused_square.unwrap();
    let p = g.data.recent_promoting_pawn.unwrap();
    let mv = Move { variant: MoveType::Promotion(v), from: f, to: p };
    assert(pawn_step_allowed(g, f, mv));
    assert(move_allowed(g, mv));
    lemma_move_batch_safe(g, mv);
}

} // verus!
