//! The engine's laws, each proved from the contracts of the generator
//! and the applier alone.

use vstd::prelude::*;

use crate::board::{in_board, Board};
use crate::game::{
    castle_home_intact, home_row, king_at, king_home_column, rook_home_column, Command, Game,
};
use crate::piece::{Piece, PieceVariant, TeamColor};
use crate::produce::{
    castle_move_allowed, castle_scan_ok, enemy_at, is_promotion_kind, king_step_at,
    knight_move_at, move_allowed, pawn_diagonal_allowed, pawn_double_allowed, pawn_end_row,
    pawn_forward, pawn_move_allowed, pawn_step_allowed, ray_clear, ray_move_at, ray_move_allowed,
    ray_square, square_empty, turn, Move, MoveType,
};
use crate::amend::{
    change_turn_applied, focus_applied, move_applied, promote_applied, select_team_applied,
    square_after, step_ok, steps_ok, unfocus_applied,
};
use crate::listener::{cache_honest, en_passant_mark_ok};

verus! {

broadcast use vstd::array::group_array_axioms;

/// Determinism: the generator's contract pins its result down to one set
/// of moves, so two runs on the same game return the same set, whatever
/// order their vectors put it in.
pub proof fn lemma_generate_moves_deterministic(g: Game, s1: Seq<Move>, s2: Seq<Move>)
    requires
        forall|m: Move| #[trigger] s1.contains(m) <==> move_allowed(g, m),
        forall|m: Move| #[trigger] s2.contains(m) <==> move_allowed(g, m),
    ensures
        s1.to_set() == s2.to_set(),
{
    assert(s1.to_set() =~= s2.to_set());
}

/// A sliding move never passes the first occupied square of its
/// direction: every square strictly between its endpoints is empty, and
/// the landing square, when occupied, holds an enemy piece and the move
/// is a capture; when empty, the move is not.
pub proof fn lemma_sliding_first_blocker(g: Game, m: Move)
    requires
        move_allowed(g, m),
        match g.spec_at(m.from.0 as int, m.from.1 as int) {
            Some(p) => p.variant == PieceVariant::Queen || p.variant == PieceVariant::Castle
                || p.variant == PieceVariant::Bishop,
            None => false,
        },
    ensures
        exists|i: int, k: int|
            0 <= i < 8 && 1 <= k && m.to.0 as int == ray_square(m.from, i, k).0 && m.to.1 as int
                == ray_square(m.from, i, k).1 && #[trigger] ray_clear(g, m.from, i, k),
        g.spec_at(m.to.0 as int, m.to.1 as int) is Some ==> enemy_at(
            g,
            m.to.0 as int,
            m.to.1 as int,
        ) && m.variant == MoveType::Capture,
        g.spec_at(m.to.0 as int, m.to.1 as int) is None ==> m.variant == MoveType::NonCapture,
{
    let from = m.from;
    let p = g.spec_at(from.0 as int, from.1 as int).unwrap();
    let (start, end): (int, int) = match p.variant {
        PieceVariant::Queen => (0, 8),
        PieceVariant::Castle => (0, 4),
        PieceVariant::Bishop => (4, 8),
        _ => (0, 8),
    };
    let i = choose|i: int| start <= i < end && #[trigger] ray_move_allowed(g, from, i, m);
    let k = choose|k: int| 1 <= k && #[trigger] ray_move_at(g, from, i, k, m);
    assert(ray_move_at(g, from, i, k, m));
    assert(0 <= i < 8 && 1 <= k && m.to.0 as int == ray_square(m.from, i, k).0 && m.to.1 as int
        == ray_square(m.from, i, k).1 && ray_clear(g, m.from, i, k));
}

/// A move tagged `NonCapture` lands on an empty square, so in
/// particular it never lands where it started.
pub proof fn lemma_noncapture_target_empty(g: Game, m: Move)
    requires
        move_allowed(g, m),
        m.variant == MoveType::NonCapture,
    ensures
        g.spec_at(m.to.0 as int, m.to.1 as int) is None,
        m.to != m.from,
{
    let from = m.from;
    let p = g.spec_at(from.0 as int, from.1 as int).unwrap();
    match p.variant {
        PieceVariant::Queen => {
            let i = choose|i: int| 0 <= i < 8 && #[trigger] ray_move_allowed(g, from, i, m);
            let k = choose|k: int| 1 <= k && #[trigger] ray_move_at(g, from, i, k, m);
            assert(ray_move_at(g, from, i, k, m));
        },
        PieceVariant::Castle => {
            let i = choose|i: int| 0 <= i < 4 && #[trigger] ray_move_allowed(g, from, i, m);
            let k = choose|k: int| 1 <= k && #[trigger] ray_move_at(g, from, i, k, m);
            assert(ray_move_at(g, from, i, k, m));
        },
        PieceVariant::Bishop => {
            let i = choose|i: int| 4 <= i < 8 && #[trigger] ray_move_allowed(g, from, i, m);
            let k = choose|k: int| 1 <= k && #[trigger] ray_move_at(g, from, i, k, m);
            assert(ray_move_at(g, from, i, k, m));
        },
        PieceVariant::King => {
            if exists|k: int| 0 <= k < 9 && #[trigger] king_step_at(g, from, k, m) {
                let k = choose|k: int| 0 <= k < 9 && #[trigger] king_step_at(g, from, k, m);
                assert(king_step_at(g, from, k, m));
            }
        },
        PieceVariant::Knight => {
            let k = choose|k: int| 0 <= k < 8 && #[trigger] knight_move_at(g, from, k, m);
            assert(knight_move_at(g, from, k, m));
        },
        PieceVariant::Pawn => {},
    }
}

/// Boards that agree on every square are the same board.
pub proof fn lemma_board_ext(b1: Board, b2: Board)
    requires
        forall|c: int, r: int| in_board(c, r) ==> b1.spec_at(c, r) == b2.spec_at(c, r),
    ensures
        b1 == b2,
{
    assert forall|r: int| 0 <= r < 8 implies b1.pieces@[r] == b2.pieces@[r] by {
        assert forall|c: int| 0 <= c < 8 implies b1.pieces@[r]@[c] == b2.pieces@[r]@[c] by {
            assert(b1.spec_at(c, r) == b2.spec_at(c, r));
        }
        assert(b1.pieces@[r]@ =~= b2.pieces@[r]@);
    }
    assert(b1.pieces@ =~= b2.pieces@);
    assert(b1.pieces == b2.pieces);
}

/// Round trip: a `NonCapture` move from A to B, followed by the
/// `NonCapture` move from B back to A, restores the board exactly.  The
/// auxiliary fields need not return: castling rights fall monotonically
/// and the en-passant mark is transient.
pub proof fn lemma_noncapture_round_trip(g0: Game, g1: Game, g2: Game, m: Move, back: Move)
    requires
        move_allowed(g0, m),
        m.variant == MoveType::NonCapture,
        move_applied(g0, m, g1),
        back == (Move { variant: MoveType::NonCapture, from: m.to, to: m.from }),
        move_applied(g1, back, g2),
    ensures
        g2.board == g0.board,
{
    lemma_noncapture_target_empty(g0, m);
    assert forall|c: int, r: int| in_board(c, r) implies g2.board.spec_at(c, r)
        == g0.board.spec_at(c, r) by {
        assert(g2.board.spec_at(c, r) == square_after(g1, back, c, r));
        assert(g1.board.spec_at(c, r) == square_after(g0, m, c, r));
        assert(g1.board.spec_at(m.to.0 as int, m.to.1 as int) == square_after(
            g0,
            m,
            m.to.0 as int,
            m.to.1 as int,
        ));
    }
    lemma_board_ext(g2.board, g0.board);
}

/// Only a pawn move beside a freshly recorded double push is tagged
/// `EnPassant`: without the mark no allowed move carries the tag.
pub proof fn lemma_en_passant_needs_mark(g: Game, m: Move)
    requires
        move_allowed(g, m),
        m.variant == MoveType::EnPassant,
    ensures
        g.data.recent_advancing_pawn is Some,
{
    let from = m.from;
    let p = g.spec_at(from.0 as int, from.1 as int).unwrap();
    match p.variant {
        PieceVariant::Queen => {
            let i = choose|i: int| 0 <= i < 8 && #[trigger] ray_move_allowed(g, from, i, m);
            let k = choose|k: int| 1 <= k && #[trigger] ray_move_at(g, from, i, k, m);
            assert(ray_move_at(g, from, i, k, m));
        },
        PieceVariant::Castle => {
            let i = choose|i: int| 0 <= i < 4 && #[trigger] ray_move_allowed(g, from, i, m);
            let k = choose|k: int| 1 <= k && #[trigger] ray_move_at(g, from, i, k, m);
            assert(ray_move_at(g, from, i, k, m));
        },
        PieceVariant::Bishop => {
            let i = choose|i: int| 4 <= i < 8 && #[trigger] ray_move_allowed(g, from, i, m);
            let k = choose|k: int| 1 <= k && #[trigger] ray_move_at(g, from, i, k, m);
            assert(ray_move_at(g, from, i, k, m));
        },
        PieceVariant::King => {
            if exists|k: int| 0 <= k < 9 && #[trigger] king_step_at(g, from, k, m) {
                let k = choose|k: int| 0 <= k < 9 && #[trigger] king_step_at(g, from, k, m);
                assert(king_step_at(g, from, k, m));
            }
        },
        PieceVariant::Knight => {
            let k = choose|k: int| 0 <= k < 8 && #[trigger] knight_move_at(g, from, k, m);
            assert(knight_move_at(g, from, k, m));
        },
        PieceVariant::Pawn => {},
    }
}

/// En passant, the opening half: right after an enemy double push ends
/// on `adv`, a pawn of the side to move standing beside it, one file
/// away on the same rank, may capture onto the square the push skipped.
pub proof fn lemma_en_passant_available(g: Game, pawn_sq: (usize, usize), adv: (usize, usize))
    requires
        g.data.recent_advancing_pawn == Some(adv),
        g.spec_at(pawn_sq.0 as int, pawn_sq.1 as int) == Some(
            Piece { variant: PieceVariant::Pawn, color: turn(g) },
        ),
        pawn_sq.1 == adv.1,
        pawn_sq.0 as int - adv.0 as int == 1 || adv.0 as int - pawn_sq.0 as int == 1,
        in_board(adv.0 as int, pawn_sq.1 as int + pawn_forward(g)),
        square_empty(g, adv.0 as int, pawn_sq.1 as int + pawn_forward(g)),
    ensures
        move_allowed(
            g,
            Move {
                variant: MoveType::EnPassant,
                from: pawn_sq,
                to: (adv.0, (pawn_sq.1 as int + pawn_forward(g)) as usize),
            },
        ),
{
    let dx: int = adv.0 as int - pawn_sq.0 as int;
    let m = Move {
        variant: MoveType::EnPassant,
        from: pawn_sq,
        to: (adv.0, (pawn_sq.1 as int + pawn_forward(g)) as usize),
    };
    assert(pawn_diagonal_allowed(g, pawn_sq, dx, m));
    assert(pawn_move_allowed(g, pawn_sq, m));
}

/// En passant, the closing half: the applier keeps the double-push mark
/// only for a double push, so after any other move no allowed move is an
/// en-passant capture.
pub proof fn lemma_en_passant_cleared(pre: Game, m: Move, post: Game, ep: Move)
    requires
        move_applied(pre, m, post),
        m.variant != MoveType::AdvancePawn,
        ep.variant == MoveType::EnPassant,
    ensures
        !move_allowed(post, ep),
{
    if move_allowed(post, ep) {
        lemma_en_passant_needs_mark(post, ep);
    }
}

/// Castling, the opening half: in a well-formed game whose side to move
/// still holds the right toward `side`'s rook, with the path between
/// king and rook empty, the two-file king move toward that rook is
/// allowed.
pub proof fn lemma_castle_available(g: Game, side: int)
    requires
        g.wf(),
        0 <= side < 2,
        g.data.spec_right(turn(g), side),
        forall|x: int|
            (if side == 0 {
                0 < x < king_home_column(g.data.player_color)
            } else {
                king_home_column(g.data.player_color) < x < 7
            }) ==> square_empty(g, x, home_row(g.data.player_color, turn(g))),
    ensures
        move_allowed(
            g,
            Move {
                variant: MoveType::Castling(if side == 0 {
                    0usize
                } else {
                    7usize
                }),
                from: (
                    king_home_column(g.data.player_color) as usize,
                    home_row(g.data.player_color, turn(g)) as usize,
                ),
                to: (
                    (if side == 0 {
                        king_home_column(g.data.player_color) - 2
                    } else {
                        king_home_column(g.data.player_color) + 2
                    }) as usize,
                    home_row(g.data.player_color, turn(g)) as usize,
                ),
            },
        ),
{
    let player = g.data.player_color;
    let color = turn(g);
    let kc: int = king_home_column(player);
    let hr: int = home_row(player, color);
    let from = (kc as usize, hr as usize);
    assert(castle_home_intact(g.board, player, color, side));
    assert(g.spec_at(rook_home_column(side), hr) == Some(
        Piece { variant: PieceVariant::Castle, color },
    ));
    assert(g.spec_at(kc, hr) == Some(Piece { variant: PieceVariant::King, color }));
    assert(castle_scan_ok(g, from, side));
    let m = Move {
        variant: MoveType::Castling(if side == 0 {
            0usize
        } else {
            7usize
        }),
        from,
        to: (
            (if side == 0 {
                kc - 2
            } else {
                kc + 2
            }) as usize,
            hr as usize,
        ),
    };
    assert(castle_move_allowed(g, from, m));
}

/// A castle toward `side`'s rook is allowed only while the side to move
/// still holds that right.
pub proof fn lemma_castle_needs_right(g: Game, m: Move, side: int)
    requires
        move_allowed(g, m),
        0 <= side < 2,
        m.variant == MoveType::Castling(if side == 0 {
            0usize
        } else {
            7usize
        }),
    ensures
        g.data.spec_right(turn(g), side),
{
    let from = m.from;
    let p = g.spec_at(from.0 as int, from.1 as int).unwrap();
    match p.variant {
        PieceVariant::Queen => {
            let i = choose|i: int| 0 <= i < 8 && #[trigger] ray_move_allowed(g, from, i, m);
            let k = choose|k: int| 1 <= k && #[trigger] ray_move_at(g, from, i, k, m);
            assert(ray_move_at(g, from, i, k, m));
        },
        PieceVariant::Castle => {
            let i = choose|i: int| 0 <= i < 4 && #[trigger] ray_move_allowed(g, from, i, m);
            let k = choose|k: int| 1 <= k && #[trigger] ray_move_at(g, from, i, k, m);
            assert(ray_move_at(g, from, i, k, m));
        },
        PieceVariant::Bishop => {
            let i = choose|i: int| 4 <= i < 8 && #[trigger] ray_move_allowed(g, from, i, m);
            let k = choose|k: int| 1 <= k && #[trigger] ray_move_at(g, from, i, k, m);
            assert(ray_move_at(g, from, i, k, m));
        },
        PieceVariant::King => {
            if exists|k: int| 0 <= k < 9 && #[trigger] king_step_at(g, from, k, m) {
                let k = choose|k: int| 0 <= k < 9 && #[trigger] king_step_at(g, from, k, m);
                assert(king_step_at(g, from, k, m));
            }
        },
        PieceVariant::Knight => {
            let k = choose|k: int| 0 <= k < 8 && #[trigger] knight_move_at(g, from, k, m);
            assert(knight_move_at(g, from, k, m));
        },
        PieceVariant::Pawn => {},
    }
}

/// Castling rights only ever fall across a move: the applier never
/// grants one back.
pub proof fn lemma_rights_monotone(pre: Game, m: Move, post: Game)
    requires
        move_applied(pre, m, post),
    ensures
        forall|co: TeamColor, si: int|
            0 <= si < 2 && #[trigger] post.data.spec_right(co, si) ==> pre.data.spec_right(co, si),
{
}

/// A right whose rook or king has left its home square is revoked by
/// the move that emptied it.
pub proof fn lemma_right_revoked(pre: Game, m: Move, post: Game, co: TeamColor, si: int)
    requires
        move_applied(pre, m, post),
        0 <= si < 2,
        !castle_home_intact(post.board, pre.data.player_color, co, si),
    ensures
        !post.data.spec_right(co, si),
{
}

/// Castling, the closing half: a right once lost stays lost through any
/// batch of commands that does not start a new game.
pub proof fn lemma_rights_stay_revoked(
    pre: Game,
    cmds: Seq<Command>,
    post: Game,
    co: TeamColor,
    si: int,
)
    requires
        steps_ok(pre, cmds, post),
        forall|i: int| 0 <= i < cmds.len() ==> !(#[trigger] cmds[i] matches Command::SelectTeam(_)),
        0 <= si < 2,
        !pre.data.spec_right(co, si),
    ensures
        !post.data.spec_right(co, si),
    decreases cmds.len(),
{
    if cmds.len() == 0 {
    } else {
        let mid = choose|mid: Game|
            #[trigger] step_ok(pre, cmds[0], mid) && steps_ok(mid, cmds.skip(1), post);
        assert(cmds[0] == cmds[0]);
        match cmds[0] {
            Command::Move(m) => {
                assert(!mid.data.spec_right(co, si));
            },
            Command::SelectTeam(color) => {
                assert(false);
            },
            _ => {
                assert(!mid.data.spec_right(co, si));
            },
        }
        assert forall|i: int| 0 <= i < cmds.skip(1).len() implies !(#[trigger] cmds.skip(1)[i]
            matches Command::SelectTeam(_)) by {
            assert(cmds.skip(1)[i] == cmds[i + 1]);
        }
        lemma_rights_stay_revoked(mid, cmds.skip(1), post, co, si);
    }
}

/// Promotion, the opening half: a pawn one step short of its far rank,
/// with that square empty, has exactly the four promotion moves onto
/// it: one per promoted kind, and nothing else lands there from that
/// square.
pub proof fn lemma_promotion_exactly_four(g: Game, from: (usize, usize))
    requires
        g.spec_at(from.0 as int, from.1 as int) == Some(
            Piece { variant: PieceVariant::Pawn, color: turn(g) },
        ),
        in_board(from.0 as int, from.1 as int),
        from.1 as int + pawn_forward(g) == pawn_end_row(g),
        square_empty(g, from.0 as int, pawn_end_row(g)),
    ensures
        forall|m: Move|
            (#[trigger] move_allowed(g, m) && m.from == from && m.to.0 == from.0 && m.to.1 as int
                == pawn_end_row(g)) <==> (m.from == from && m.to.0 == from.0 && m.to.1 as int
                == pawn_end_row(g) && is_promotion_kind(m.variant)),
{
    let tr: int = pawn_end_row(g);
    assert forall|m: Move|
        (#[trigger] move_allowed(g, m) && m.from == from && m.to.0 == from.0 && m.to.1 as int
            == tr) <==> (m.from == from && m.to.0 == from.0 && m.to.1 as int == tr
            && is_promotion_kind(m.variant)) by {
        if m.from == from && m.to.0 == from.0 && m.to.1 as int == tr && is_promotion_kind(
            m.variant,
        ) {
            assert(pawn_step_allowed(g, from, m));
            assert(move_allowed(g, m));
        }
        if move_allowed(g, m) && m.from == from && m.to.0 == from.0 && m.to.1 as int == tr {
            assert(pawn_move_allowed(g, from, m));
            if pawn_step_allowed(g, from, m) {
                assert(is_promotion_kind(m.variant));
            } else if pawn_double_allowed(g, from, m) {
                assert(false);
            } else if pawn_diagonal_allowed(g, from, -1, m) {
                assert(false);
            } else {
                assert(pawn_diagonal_allowed(g, from, 1, m));
                assert(false);
            }
        }
    }
}

/// Promotion, the closing half: applying a promotion move leaves a
/// piece of the chosen kind, in the mover's colour, on the landing
/// square.
pub proof fn lemma_promotion_applied(pre: Game, m: Move, post: Game, v: PieceVariant)
    requires
        move_applied(pre, m, post),
        m.variant == MoveType::Promotion(v),
    ensures
        post.board.spec_at(m.to.0 as int, m.to.1 as int) == Some(
            Piece { variant: v, color: turn(pre) },
        ),
{
    assert(post.board.spec_at(m.to.0 as int, m.to.1 as int) == square_after(
        pre,
        m,
        m.to.0 as int,
        m.to.1 as int,
    ));
}

/// Starting a game leaves the caches honest: the opening move set is
/// freshly computed, nothing is focused, and no double push is on
/// record.
pub proof fn lemma_select_team_refreshes_cache(pre: Game, color: TeamColor, post: Game)
    requires
        select_team_applied(pre, color, post),
    ensures
        cache_honest(post),
        en_passant_mark_ok(post),
        post.wf(),
{
}

/// The committed-move cycle — apply, drop the highlight, flip the turn —
/// leaves the caches honest again: the move set is recomputed wholesale
/// for the new side, and the en-passant mark survives exactly when the
/// move was a double push, in which case it names the pawn that just
/// passed the new side's capture square.
pub proof fn lemma_move_cycle_refreshes_cache(
    pre: Game,
    m: Move,
    g1: Game,
    g2: Game,
    post: Game,
)
    requires
        pre.wf(),
        move_allowed(pre, m),
        move_applied(pre, m, g1),
        unfocus_applied(g1, g2),
        change_turn_applied(g2, post),
    ensures
        cache_honest(post),
        en_passant_mark_ok(post),
{
    crate::produce::lemma_allowed_move_shape(pre, m);
    if m.variant == MoveType::AdvancePawn {
        let to = m.to;
        let fwd_pre = pawn_forward(pre);
        assert(post.board.spec_at(to.0 as int, to.1 as int) == square_after(
            pre,
            m,
            to.0 as int,
            to.1 as int,
        ));
        assert(post.data.current_turn == pre.data.current_turn.spec_other());
        assert(turn(post).spec_other() == turn(pre));
        assert(pawn_forward(post) == -fwd_pre);
        assert(to.1 as int + pawn_forward(post) == m.from.1 as int + fwd_pre);
        assert(post.board.spec_at(to.0 as int, m.from.1 as int + fwd_pre) == square_after(
            pre,
            m,
            to.0 as int,
            m.from.1 as int + fwd_pre,
        ));
    }
}

/// Focusing a square keeps the caches honest: the move set is untouched
/// and the highlighted landing squares are exactly where the focused
/// piece's cached moves go.
pub proof fn lemma_focus_keeps_cache(pre: Game, column: usize, row: usize, post: Game)
    requires
        pre.wf(),
        cache_honest(pre),
        en_passant_mark_ok(pre),
        focus_applied(pre, column, row, post),
    ensures
        cache_honest(post),
        en_passant_mark_ok(post),
        post.wf(),
{
    assert forall|m: Move| #[trigger] post.data.available_moves@.contains(m) <==> move_allowed(
        post,
        m,
    ) by {
        crate::produce::lemma_move_allowed_frame(pre, post, m);
    }
    lemma_wf_fields(pre, post);
}

/// Dropping the highlight keeps the caches honest.
pub proof fn lemma_unfocus_keeps_cache(pre: Game, post: Game)
    requires
        pre.wf(),
        cache_honest(pre),
        en_passant_mark_ok(pre),
        unfocus_applied(pre, post),
    ensures
        cache_honest(post),
        en_passant_mark_ok(post),
        post.wf(),
{
    assert forall|m: Move| #[trigger] post.data.available_moves@.contains(m) <==> move_allowed(
        post,
        m,
    ) by {
        crate::produce::lemma_move_allowed_frame(pre, post, m);
    }
    lemma_wf_fields(pre, post);
}

/// Opening the promotion menu keeps the caches honest: only the coarse
/// state and the pending square change.
pub proof fn lemma_promote_keeps_cache(pre: Game, pos: (usize, usize), post: Game)
    requires
        pre.wf(),
        cache_honest(pre),
        en_passant_mark_ok(pre),
        promote_applied(pre, pos, post),
    ensures
        cache_honest(post),
        en_passant_mark_ok(post),
        post.wf(),
{
    assert forall|m: Move| #[trigger] post.data.available_moves@.contains(m) <==> move_allowed(
        post,
        m,
    ) by {
        crate::produce::lemma_move_allowed_frame(pre, post, m);
    }
    lemma_wf_fields(pre, post);
}

/// Well-formedness carried across a change that leaves the board, the
/// seated side and the rights alone.
proof fn lemma_wf_fields(pre: Game, post: Game)
    requires
        pre.wf(),
        post.board == pre.board,
        post.data.player_color == pre.data.player_color,
        post.data.is_valid_castling == pre.data.is_valid_castling,
    ensures
        post.wf(),
{
    assert forall|c1: int, r1: int, c2: int, r2: int, color: TeamColor|
        king_at(post.board, c1, r1, color) && king_at(post.board, c2, r2, color) implies c1 == c2
        && r1 == r2 by {
        assert(king_at(pre.board, c1, r1, color));
        assert(king_at(pre.board, c2, r2, color));
    }
    assert forall|color: TeamColor, side: int|
        0 <= side < 2 && #[trigger] post.data.spec_right(color, side) implies castle_home_intact(
        post.board,
        post.data.player_color,
        color,
        side,
    ) by {
        assert(pre.data.spec_right(color, side));
    }
}


/// En passant end to end: right after a double push is committed and
/// the turn flips, any enemy pawn standing one file beside its landing
/// square may capture it in passing, onto the square it skipped.
pub proof fn lemma_double_push_enables_en_passant(
    pre: Game,
    m: Move,
    g1: Game,
    g2: Game,
    post: Game,
    pawn_sq: (usize, usize),
)
    requires
        pre.wf(),
        move_allowed(pre, m),
        m.variant == MoveType::AdvancePawn,
        move_applied(pre, m, g1),
        unfocus_applied(g1, g2),
        change_turn_applied(g2, post),
        post.spec_at(pawn_sq.0 as int, pawn_sq.1 as int) == Some(
            Piece { variant: PieceVariant::Pawn, color: turn(post) },
        ),
        pawn_sq.1 == m.to.1,
        pawn_sq.0 as int - m.to.0 as int == 1 || m.to.0 as int - pawn_sq.0 as int == 1,
    ensures
        move_allowed(
            post,
            Move {
                variant: MoveType::EnPassant,
                from: pawn_sq,
                to: (m.to.0, (pawn_sq.1 as int + pawn_forward(post)) as usize),
            },
        ),
{
    lemma_move_cycle_refreshes_cache(pre, m, g1, g2, post);
    crate::produce::lemma_allowed_move_shape(pre, m);
    assert(post.data.recent_advancing_pawn == Some(m.to));
    assert(m.to.1 as int + pawn_forward(post) == m.from.1 as int + pawn_forward(pre));
    assert(in_board(m.to.0 as int, m.to.1 as int + pawn_forward(post))) by {
        assert(m.from.1 as int == crate::produce::pawn_start_row(pre));
    }
    lemma_en_passant_available(post, pawn_sq, m.to);
}
} // verus!
