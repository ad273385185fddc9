//! Move generation: the `Move` type, the legality predicate
//! [`move_allowed`], and the generator [`generate_moves`], proved to
//! return exactly the allowed moves.
//!
//! Moves are pseudo-legal: occupancy and piece-movement rules are
//! enforced, but a move is not filtered for leaving the mover's own king
//! attacked.

use vstd::prelude::*;

use crate::board::in_board;
use crate::game::Game;
use crate::piece::{Piece, PieceVariant, TeamColor};

verus! {

/// A move: its kind and the two squares it connects.  Identity is by
/// `(variant, from, to)`; a promotion is four distinct moves, one per
/// promoted kind.
#[derive(Clone, Copy, Debug, PartialEq, Eq, Hash)]
pub struct Move {
    pub variant: MoveType,
    pub from: (usize, usize),
    pub to: (usize, usize),
}

/// The move kinds.  `Castling` carries the home column of the rook moved
/// with, 0 or 7; `Promotion` carries the kind the pawn becomes.
#[derive(Clone, Copy, Debug, PartialEq, Eq, Structural, Hash)]
pub enum MoveType {
    Capture,
    NonCapture,
    Castling(usize),
    Promotion(PieceVariant),
    AdvancePawn,
    EnPassant,
}

// ---------------------------------------------------------------------
// The specification layer: which moves a position allows.
// ---------------------------------------------------------------------

/// The side to move.
pub open spec fn turn(g: Game) -> TeamColor {
    g.data.current_turn
}

/// Nothing stands on `(column, row)` (squares off the board count as
/// empty).
pub open spec fn square_empty(g: Game, column: int, row: int) -> bool {
    g.spec_at(column, row) is None
}

/// A piece of the side to move stands on `(column, row)`.
pub open spec fn ally_at(g: Game, column: int, row: int) -> bool {
    match g.spec_at(column, row) {
        Some(p) => p.color == turn(g),
        None => false,
    }
}

/// A piece of the opposing side stands on `(column, row)`.
pub open spec fn enemy_at(g: Game, column: int, row: int) -> bool {
    match g.spec_at(column, row) {
        Some(p) => p.color != turn(g),
        None => false,
    }
}

/// The eight unit directions a queen slides along; the first four are the
/// rook's, the last four the bishop's.
pub open spec fn direction_offset(i: int) -> (int, int) {
    if i == 0 {
        (0, -1)
    } else if i == 1 {
        (0, 1)
    } else if i == 2 {
        (-1, 0)
    } else if i == 3 {
        (1, 0)
    } else if i == 4 {
        (-1, -1)
    } else if i == 5 {
        (1, -1)
    } else if i == 6 {
        (-1, 1)
    } else {
        (1, 1)
    }
}

/// The square `k` steps from `from` along direction `i`.
pub open spec fn ray_square(from: (usize, usize), i: int, k: int) -> (int, int) {
    (from.0 + direction_offset(i).0 * k, from.1 + direction_offset(i).1 * k)
}

/// Every square strictly between `from` and the `k`-th step along
/// direction `i` is empty.
pub open spec fn ray_clear(g: Game, from: (usize, usize), i: int, k: int) -> bool {
    forall|j: int|
        1 <= j < k ==> square_empty(
            g,
            #[trigger] ray_square(from, i, j).0,
            ray_square(from, i, j).1,
        )
}

/// `m` is the sliding move that walks exactly `k` steps along direction
/// `i`: the path before it is clear, and the landing square is either
/// empty (`NonCapture`) or the first enemy piece met (`Capture`).
pub open spec fn ray_move_at(g: Game, from: (usize, usize), i: int, k: int, m: Move) -> bool {
    let tc = ray_square(from, i, k).0;
    let tr = ray_square(from, i, k).1;
    &&& in_board(tc, tr)
    &&& ray_clear(g, from, i, k)
    &&& m.from == from
    &&& m.to.0 as int == tc
    &&& m.to.1 as int == tr
    &&& match g.spec_at(tc, tr) {
        None => m.variant == MoveType::NonCapture,
        Some(p) => p.color != turn(g) && m.variant == MoveType::Capture,
    }
}

/// `m` slides from `from` along direction `i`, some number of steps.
pub open spec fn ray_move_allowed(g: Game, from: (usize, usize), i: int, m: Move) -> bool {
    exists|k: int| 1 <= k && #[trigger] ray_move_at(g, from, i, k, m)
}

/// `m` slides from `from` along some direction whose index lies in
/// `[start, end)`.
pub open spec fn sliding_move_allowed(
    g: Game,
    from: (usize, usize),
    start: int,
    end: int,
    m: Move,
) -> bool {
    exists|i: int| start <= i < end && #[trigger] ray_move_allowed(g, from, i, m)
}

/// The eight knight jumps.
pub open spec fn knight_offset(k: int) -> (int, int) {
    if k == 0 {
        (-1, -2)
    } else if k == 1 {
        (1, -2)
    } else if k == 2 {
        (-2, -1)
    } else if k == 3 {
        (2, -1)
    } else if k == 4 {
        (-2, 1)
    } else if k == 5 {
        (2, 1)
    } else if k == 6 {
        (-1, 2)
    } else {
        (1, 2)
    }
}

/// `m` is the knight jump numbered `k` from `from`: on the board, not
/// onto an own piece, a `Capture` exactly when an enemy stands there.
pub open spec fn knight_move_at(g: Game, from: (usize, usize), k: int, m: Move) -> bool {
    let tc = from.0 + knight_offset(k).0;
    let tr = from.1 + knight_offset(k).1;
    &&& in_board(tc, tr)
    &&& !ally_at(g, tc, tr)
    &&& m.from == from
    &&& m.to.0 as int == tc
    &&& m.to.1 as int == tr
    &&& m.variant == if square_empty(g, tc, tr) {
        MoveType::NonCapture
    } else {
        MoveType::Capture
    }
}

/// `m` is one of the knight's jumps from `from`.
pub open spec fn knight_move_allowed(g: Game, from: (usize, usize), m: Move) -> bool {
    exists|k: int| 0 <= k < 8 && #[trigger] knight_move_at(g, from, k, m)
}

/// The nine king offsets: the eight neighbours and standing still (which
/// is never playable, the king's own square being occupied by itself).
pub open spec fn king_offset(k: int) -> (int, int) {
    if k == 0 {
        (-1, -1)
    } else if k == 1 {
        (-1, 0)
    } else if k == 2 {
        (-1, 1)
    } else if k == 3 {
        (0, -1)
    } else if k == 4 {
        (0, 0)
    } else if k == 5 {
        (0, 1)
    } else if k == 6 {
        (1, -1)
    } else if k == 7 {
        (1, 0)
    } else {
        (1, 1)
    }
}

/// `m` is the king step numbered `k` from `from`, under the same rule as
/// a knight jump.
pub open spec fn king_step_at(g: Game, from: (usize, usize), k: int, m: Move) -> bool {
    let tc = from.0 + king_offset(k).0;
    let tr = from.1 + king_offset(k).1;
    &&& in_board(tc, tr)
    &&& !ally_at(g, tc, tr)
    &&& m.from == from
    &&& m.to.0 as int == tc
    &&& m.to.1 as int == tr
    &&& m.variant == if square_empty(g, tc, tr) {
        MoveType::NonCapture
    } else {
        MoveType::Capture
    }
}

/// Walking from `from.0` toward the rook file of `side` (file 0 when
/// `side` is 0, file 7 when it is 1) along rank `from.1`, the first piece
/// met is a rook standing on that rook file.
pub open spec fn castle_scan_ok(g: Game, from: (usize, usize), side: int) -> bool {
    if side == 0 {
        &&& (match g.spec_at(0, from.1 as int) {
            Some(p) => p.variant == PieceVariant::Castle,
            None => false,
        })
        &&& forall|x: int| 0 < x < from.0 as int ==> square_empty(g, x, from.1 as int)
    } else {
        &&& (match g.spec_at(7, from.1 as int) {
            Some(p) => p.variant == PieceVariant::Castle,
            None => false,
        })
        &&& forall|x: int| (from.0 as int) < x < 7 ==> square_empty(g, x, from.1 as int)
    }
}

/// `m` is a castle from `from`: the side to move still holds the right
/// toward that rook, the path to the rook is open, and the king moves two
/// files toward it.
pub open spec fn castle_move_allowed(g: Game, from: (usize, usize), m: Move) -> bool {
    ||| {
        &&& g.data.spec_right(turn(g), 0)
        &&& castle_scan_ok(g, from, 0)
        &&& m.variant == MoveType::Castling(0usize)
        &&& m.from == from
        &&& m.to.0 as int == from.0 as int - 2
        &&& m.to.1 == from.1
    }
    ||| {
        &&& g.data.spec_right(turn(g), 1)
        &&& castle_scan_ok(g, from, 1)
        &&& m.variant == MoveType::Castling(7usize)
        &&& m.from == from
        &&& m.to.0 as int == from.0 as int + 2
        &&& m.to.1 == from.1
    }
}

/// `m` is a king move from `from`: a single step or a castle.
pub open spec fn king_move_allowed(g: Game, from: (usize, usize), m: Move) -> bool {
    (exists|k: int| 0 <= k < 9 && #[trigger] king_step_at(g, from, k, m)) || castle_move_allowed(
        g,
        from,
        m,
    )
}

/// The rank a pawn of the side to move starts on.
pub open spec fn pawn_start_row(g: Game) -> int {
    if turn(g) == g.data.player_color {
        6
    } else {
        1
    }
}

/// The far rank a pawn of the side to move promotes on.
pub open spec fn pawn_end_row(g: Game) -> int {
    if turn(g) == g.data.player_color {
        0
    } else {
        7
    }
}

/// The direction the side to move's pawns advance in: up the board (-1)
/// for the side seated at the bottom, down (+1) for the other.
pub open spec fn pawn_forward(g: Game) -> int {
    if turn(g) == g.data.player_color {
        -1
    } else {
        1
    }
}

/// The four kinds a pawn may promote to.
pub open spec fn promotion_variant(v: PieceVariant) -> bool {
    v == PieceVariant::Queen || v == PieceVariant::Castle || v == PieceVariant::Knight
        || v == PieceVariant::Bishop
}

/// `m` is the single forward step from `from` onto an empty square; on
/// the far rank the step is one of the four promotions, elsewhere a
/// `NonCapture`.
pub open spec fn pawn_step_allowed(g: Game, from: (usize, usize), m: Move) -> bool {
    let tr = from.1 + pawn_forward(g);
    &&& in_board(from.0 as int, tr)
    &&& square_empty(g, from.0 as int, tr)
    &&& m.from == from
    &&& m.to.0 == from.0
    &&& m.to.1 as int == tr
    &&& if tr == pawn_end_row(g) {
        match m.variant {
            MoveType::Promotion(v) => promotion_variant(v),
            _ => false,
        }
    } else {
        m.variant == MoveType::NonCapture
    }
}

/// `m` is the double push from the pawn's starting rank, both squares
/// ahead being empty.
pub open spec fn pawn_double_allowed(g: Game, from: (usize, usize), m: Move) -> bool {
    let t1 = from.1 + pawn_forward(g);
    let t2 = from.1 + 2 * pawn_forward(g);
    &&& from.1 as int == pawn_start_row(g)
    &&& in_board(from.0 as int, t1)
    &&& square_empty(g, from.0 as int, t1)
    &&& in_board(from.0 as int, t2)
    &&& square_empty(g, from.0 as int, t2)
    &&& m.from == from
    &&& m.to.0 == from.0
    &&& m.to.1 as int == t2
    &&& m.variant == MoveType::AdvancePawn
}

/// `m` takes diagonally (file shift `dx`): a `Capture` onto an enemy
/// piece, or an `EnPassant` onto the empty square just passed by an enemy
/// pawn whose double push, recorded in `recent_advancing_pawn`, ended
/// beside `from`.
pub open spec fn pawn_diagonal_allowed(g: Game, from: (usize, usize), dx: int, m: Move) -> bool {
    let tc = from.0 + dx;
    let tr = from.1 + pawn_forward(g);
    &&& in_board(tc, tr)
    &&& m.from == from
    &&& m.to.0 as int == tc
    &&& m.to.1 as int == tr
    &&& {
        ||| (enemy_at(g, tc, tr) && m.variant == MoveType::Capture)
        ||| {
            &&& square_empty(g, tc, tr)
            &&& (match g.data.recent_advancing_pawn {
                Some(sq) => sq.0 as int == tc && sq.1 == from.1,
                None => false,
            })
            &&& m.variant == MoveType::EnPassant
        }
    }
}

/// `m` is a pawn move from `from`.
pub open spec fn pawn_move_allowed(g: Game, from: (usize, usize), m: Move) -> bool {
    ||| pawn_step_allowed(g, from, m)
    ||| pawn_double_allowed(g, from, m)
    ||| pawn_diagonal_allowed(g, from, -1, m)
    ||| pawn_diagonal_allowed(g, from, 1, m)
}

/// `m` is a move the piece `p`, standing on `from`, may make.
pub open spec fn piece_move_allowed(g: Game, from: (usize, usize), p: Piece, m: Move) -> bool {
    match p.variant {
        PieceVariant::Queen => sliding_move_allowed(g, from, 0, 8, m),
        PieceVariant::Castle => sliding_move_allowed(g, from, 0, 4, m),
        PieceVariant::Bishop => sliding_move_allowed(g, from, 4, 8, m),
        PieceVariant::King => king_move_allowed(g, from, m),
        PieceVariant::Knight => knight_move_allowed(g, from, m),
        PieceVariant::Pawn => pawn_move_allowed(g, from, m),
    }
}

/// The legality predicate: `m` is pseudo-legal in `g`.  A piece of the
/// side to move stands on `m.from` and `m` is one of its moves.
pub open spec fn move_allowed(g: Game, m: Move) -> bool {
    &&& in_board(m.from.0 as int, m.from.1 as int)
    &&& match g.spec_at(m.from.0 as int, m.from.1 as int) {
        Some(p) => p.color == turn(g) && piece_move_allowed(g, m.from, p, m),
        None => false,
    }
}

// ---------------------------------------------------------------------
// The generators.
// ---------------------------------------------------------------------

/// Executable twin of [`knight_offset`].
fn knight_offset_at(k: usize) -> (o: (i32, i32))
    requires
        k < 8,
    ensures
        o.0 as int == knight_offset(k as int).0,
        o.1 as int == knight_offset(k as int).1,
{
    if k == 0 {
        (-1, -2)
    } else if k == 1 {
        (1, -2)
    } else if k == 2 {
        (-2, -1)
    } else if k == 3 {
        (2, -1)
    } else if k == 4 {
        (-2, 1)
    } else if k == 5 {
        (2, 1)
    } else if k == 6 {
        (-1, 2)
    } else {
        (1, 2)
    }
}

/// The knight's moves from `from`: exactly those `m` with
/// [`knight_move_allowed`]`(game, from, m)`.
fn generate_knight_moves(game: &Game, from: (usize, usize)) -> (moves: Vec<Move>)
    requires
        in_board(from.0 as int, from.1 as int),
    ensures
        forall|m: Move| #[trigger] moves@.contains(m) <==> knight_move_allowed(*game, from, m),
{
    let mut moves: Vec<Move> = Vec::new();
    let mut k: usize = 0;
    while k < 8
        invariant
            k <= 8,
            in_board(from.0 as int, from.1 as int),
            forall|m: Move| #[trigger] moves@.contains(m) <==> exists|j: int|
                0 <= j < k as int && #[trigger] knight_move_at(*game, from, j, m),
        decreases 8 - k,
    {
        let offset = knight_offset_at(k);
        let tc = from.0 as i32 + offset.0;
        let tr = from.1 as i32 + offset.1;
        if 0 <= tc && tc < 8 && 0 <= tr && tr < 8 {
            let target = (tc as usize, tr as usize);
            match game.get_square(target.0, target.1) {
                Some(piece) => {
                    if !matches_color(piece.color, game.data.current_turn) {
                        let mv = Move { variant: MoveType::Capture, from, to: target };
                        push_knight(game, from, &mut moves, k, mv);
                    } else {
                        proof {
                            no_knight_move_at(*game, from, k as int);
                        }
                    }
                },
                None => {
                    let mv = Move { variant: MoveType::NonCapture, from, to: target };
                    push_knight(game, from, &mut moves, k, mv);
                },
            }
        } else {
            proof {
                no_knight_move_at(*game, from, k as int);
            }
        }
        k = k + 1;
    }
    moves
}

/// True when the two colours are the same.
fn matches_color(a: TeamColor, b: TeamColor) -> (r: bool)
    ensures
        r == (a == b),
{
    match (a, b) {
        (TeamColor::White, TeamColor::White) => true,
        (TeamColor::Black, TeamColor::Black) => true,
        _ => false,
    }
}

/// Appends the one move the knight jump `k` allows, keeping the
/// membership invariant.
fn push_knight(game: &Game, from: (usize, usize), moves: &mut Vec<Move>, k: usize, mv: Move)
    requires
        k < 8,
        knight_move_at(*game, from, k as int, mv),
        forall|m: Move| #[trigger] old(moves)@.contains(m) <==> exists|j: int|
            0 <= j < k as int && #[trigger] knight_move_at(*game, from, j, m),
    ensures
        forall|m: Move| #[trigger] final(moves)@.contains(m) <==> exists|j: int|
            0 <= j < k as int + 1 && #[trigger] knight_move_at(*game, from, j, m),
{
    moves.push(mv);
    proof {
        assert forall|m: Move| #[trigger] moves@.contains(m) <==> exists|j: int|
            0 <= j < k as int + 1 && #[trigger] knight_move_at(*game, from, j, m) by {
            if moves@.contains(m) {
                let idx = choose|idx: int| 0 <= idx < moves@.len() && moves@[idx] == m;
                if idx < moves@.len() - 1 {
                    assert(old(moves)@.contains(m));
                } else {
                    assert(m == mv);
                    assert(knight_move_at(*game, from, k as int, m));
                }
            }
            if exists|j: int| 0 <= j < k as int + 1 && #[trigger] knight_move_at(*game, from, j, m) {
                let j = choose|j: int| 0 <= j < k as int + 1 && #[trigger] knight_move_at(
                    *game,
                    from,
                    j,
                    m,
                );
                if j < k as int {
                    assert(old(moves)@.contains(m));
                    let idx = choose|idx: int|
                        0 <= idx < old(moves)@.len() && old(moves)@[idx] == m;
                    assert(moves@[idx] == m);
                    assert(moves@.contains(m));
                } else {
                    assert(knight_move_at(*game, from, k as int, m));
                    assert(knight_move_at(*game, from, k as int, mv));
                    assert(m.to.0 as int == mv.to.0 as int && m.to.1 as int == mv.to.1 as int);
                    assert(m == mv);
                    assert(moves@[moves@.len() - 1] == mv);
                    assert(moves@.contains(m));
                }
            }
        }
    }
}

/// No move fits the knight jump `k` when its landing square is off the
/// board or held by an own piece.
proof fn no_knight_move_at(g: Game, from: (usize, usize), k: int)
    requires
        !in_board(from.0 + knight_offset(k).0, from.1 + knight_offset(k).1) || ally_at(
            g,
            from.0 + knight_offset(k).0,
            from.1 + knight_offset(k).1,
        ),
    ensures
        forall|m: Move| !knight_move_at(g, from, k, m),
{
}

/// Membership in a sequence after a push.
pub proof fn lemma_push_contains<T>(s: Seq<T>, v: T)
    ensures
        forall|x: T| #[trigger] s.push(v).contains(x) <==> (s.contains(x) || x == v),
{
    assert forall|x: T| #[trigger] s.push(v).contains(x) <==> (s.contains(x) || x == v) by {
        if s.push(v).contains(x) {
            let i = choose|i: int| 0 <= i < s.push(v).len() && s.push(v)[i] == x;
            if i < s.len() {
                assert(s[i] == x);
                assert(s.contains(x));
            } else {
                assert(x == v);
            }
        }
        if s.contains(x) {
            let i = choose|i: int| 0 <= i < s.len() && s[i] == x;
            assert(s.push(v)[i] == x);
            assert(s.push(v).contains(x));
        }
        if x == v {
            assert(s.push(v)[s.len() as int] == x);
            assert(s.push(v).contains(x));
        }
    }
}

/// Membership in a concatenation.
pub proof fn lemma_add_contains<T>(a: Seq<T>, b: Seq<T>)
    ensures
        forall|x: T| #[trigger] (a + b).contains(x) <==> (a.contains(x) || b.contains(x)),
{
    assert forall|x: T| #[trigger] (a + b).contains(x) <==> (a.contains(x) || b.contains(x)) by {
        if (a + b).contains(x) {
            let i = choose|i: int| 0 <= i < (a + b).len() && (a + b)[i] == x;
            if i < a.len() {
                assert(a[i] == x);
                assert(a.contains(x));
            } else {
                assert(b[i - a.len()] == x);
                assert(b.contains(x));
            }
        }
        if a.contains(x) {
            let i = choose|i: int| 0 <= i < a.len() && a[i] == x;
            assert((a + b)[i] == x);
            assert((a + b).contains(x));
        }
        if b.contains(x) {
            let i = choose|i: int| 0 <= i < b.len() && b[i] == x;
            assert((a + b)[a.len() + i] == x);
            assert((a + b).contains(x));
        }
    }
}

/// Executable twin of [`king_offset`].
fn king_offset_at(k: usize) -> (o: (i32, i32))
    requires
        k < 9,
    ensures
        o.0 as int == king_offset(k as int).0,
        o.1 as int == king_offset(k as int).1,
{
    if k == 0 {
        (-1, -1)
    } else if k == 1 {
        (-1, 0)
    } else if k == 2 {
        (-1, 1)
    } else if k == 3 {
        (0, -1)
    } else if k == 4 {
        (0, 0)
    } else if k == 5 {
        (0, 1)
    } else if k == 6 {
        (1, -1)
    } else if k == 7 {
        (1, 0)
    } else {
        (1, 1)
    }
}

/// Walks from the king's file toward the rook file of `side` and reports
/// whether the first piece met is a rook standing on that rook file.
fn scan_for_rook(game: &Game, from: (usize, usize), side: usize) -> (open: bool)
    requires
        in_board(from.0 as int, from.1 as int),
        side < 2,
        match game.spec_at(from.0 as int, from.1 as int) {
            Some(p) => p.variant == PieceVariant::King,
            None => false,
        },
    ensures
        open == castle_scan_ok(*game, from, side as int),
{
    let row = from.1;
    if side == 0 {
        let mut x: usize = from.0;
        while x > 0
            invariant
                side == 0,
                x <= from.0,
                from.0 < 8,
                row == from.1,
                forall|t: int| x as int <= t < from.0 as int ==> square_empty(*game, t, row as int),
            decreases x,
        {
            x = x - 1;
            match game.get_square(x, row) {
                Some(piece) => {
                    let is_rook = match piece.variant {
                        PieceVariant::Castle => true,
                        _ => false,
                    };
                    proof {
                        assert(!square_empty(*game, x as int, row as int));
                    }
                    return is_rook && x == 0;
                },
                None => {},
            }
        }
        proof {
            if from.0 > 0 {
                assert(square_empty(*game, 0, row as int));
            }
        }
        false
    } else {
        let mut x: usize = from.0;
        while x < 7
            invariant
                side == 1,
                from.0 <= x <= 7,
                from.0 < 8,
                row == from.1,
                forall|t: int| (from.0 as int) < t <= x as int ==> square_empty(*game, t, row as int),
            decreases 7 - x,
        {
            x = x + 1;
            match game.get_square(x, row) {
                Some(piece) => {
                    let is_rook = match piece.variant {
                        PieceVariant::Castle => true,
                        _ => false,
                    };
                    proof {
                        assert(!square_empty(*game, x as int, row as int));
                    }
                    return is_rook && x == 7;
                },
                None => {},
            }
        }
        proof {
            if from.0 < 7 {
                assert(square_empty(*game, 7, row as int));
            }
        }
        false
    }
}

/// The king's moves from `from`: exactly those `m` with
/// [`king_move_allowed`]`(game, from, m)`.  Well-formedness is needed
/// because a castling right still held pins the king to its home square,
/// which keeps the two-file shift on the board.
fn generate_king_moves(game: &Game, from: (usize, usize)) -> (moves: Vec<Move>)
    requires
        in_board(from.0 as int, from.1 as int),
        game.wf(),
        game.spec_at(from.0 as int, from.1 as int) == Some(
            Piece { variant: PieceVariant::King, color: turn(*game) },
        ),
    ensures
        forall|m: Move| #[trigger] moves@.contains(m) <==> king_move_allowed(*game, from, m),
{
    let mut moves: Vec<Move> = Vec::new();
    let mut k: usize = 0;
    while k < 9
        invariant
            k <= 9,
            in_board(from.0 as int, from.1 as int),
            forall|m: Move| #[trigger] moves@.contains(m) <==> exists|j: int|
                0 <= j < k as int && #[trigger] king_step_at(*game, from, j, m),
        decreases 9 - k,
    {
        let offset = king_offset_at(k);
        let tc = from.0 as i32 + offset.0;
        let tr = from.1 as i32 + offset.1;
        let ghost prev = moves@;
        if 0 <= tc && tc < 8 && 0 <= tr && tr < 8 {
            let target = (tc as usize, tr as usize);
            match game.get_square(target.0, target.1) {
                Some(piece) => {
                    if !matches_color(piece.color, game.data.current_turn) {
                        let mv = Move { variant: MoveType::Capture, from, to: target };
                        moves.push(mv);
                        proof {
                            lemma_push_contains(prev, mv);
                            assert(king_step_at(*game, from, k as int, mv));
                            assert forall|m: Move| #[trigger] moves@.contains(m) <==> exists|j: int|
                                0 <= j < k as int + 1 && #[trigger] king_step_at(*game, from, j, m) by {
                                if king_step_at(*game, from, k as int, m) {
                                    assert(m == mv);
                                }
                            }
                        }
                    } else {
                        proof {
                            assert(forall|m: Move| !king_step_at(*game, from, k as int, m));
                        }
                    }
                },
                None => {
                    let mv = Move { variant: MoveType::NonCapture, from, to: target };
                    moves.push(mv);
                    proof {
                        lemma_push_contains(prev, mv);
                        assert(king_step_at(*game, from, k as int, mv));
                        assert forall|m: Move| #[trigger] moves@.contains(m) <==> exists|j: int|
                            0 <= j < k as int + 1 && #[trigger] king_step_at(*game, from, j, m) by {
                            if king_step_at(*game, from, k as int, m) {
                                assert(m == mv);
                            }
                        }
                    }
                },
            }
        } else {
            proof {
                assert(forall|m: Move| !king_step_at(*game, from, k as int, m));
            }
        }
        k = k + 1;
    }

    let left_right = game.data.right(game.data.current_turn, 0);
    let scan_left = scan_for_rook(game, from, 0);
    if left_right && scan_left {
        proof {
            king_on_home_square(*game, from);
        }
        let mv = Move { variant: MoveType::Castling(0), from, to: (from.0 - 2, from.1) };
        let ghost prev = moves@;
        moves.push(mv);
        proof {
            lemma_push_contains(prev, mv);
        }
    }
    let right_right = game.data.right(game.data.current_turn, 1);
    let scan_right = scan_for_rook(game, from, 1);
    if right_right && scan_right {
        proof {
            king_on_home_square(*game, from);
        }
        let mv = Move { variant: MoveType::Castling(7), from, to: (from.0 + 2, from.1) };
        let ghost prev = moves@;
        moves.push(mv);
        proof {
            lemma_push_contains(prev, mv);
        }
    }
    proof {
        assert forall|m: Move| #[trigger] moves@.contains(m) <==> king_move_allowed(*game, from, m)
            by {
            if castle_move_allowed(*game, from, m) {
                king_on_home_square(*game, from);
            }
        }
    }
    moves
}

/// In a well-formed game whose side to move still holds a castling
/// right, the king standing on `from` is the home king, so `from` is the
/// home square, on file 3 or 4.
pub proof fn king_on_home_square(g: Game, from: (usize, usize))
    requires
        g.wf(),
        g.spec_at(from.0 as int, from.1 as int) == Some(
            Piece { variant: PieceVariant::King, color: turn(g) },
        ),
        g.data.spec_right(turn(g), 0) || g.data.spec_right(turn(g), 1),
    ensures
        from.0 as int == crate::game::king_home_column(g.data.player_color),
        from.1 as int == crate::game::home_row(g.data.player_color, turn(g)),
        2 <= from.0 as int <= 4,
{
    let player = g.data.player_color;
    let color = turn(g);
    let kc = crate::game::king_home_column(player);
    let hr = crate::game::home_row(player, color);
    if g.data.spec_right(color, 0) {
        assert(crate::game::castle_home_intact(g.board, player, color, 0));
    } else {
        assert(crate::game::castle_home_intact(g.board, player, color, 1));
    }
    assert(crate::game::king_at(g.board, kc, hr, color));
    assert(crate::game::king_at(g.board, from.0 as int, from.1 as int, color));
}

/// Whether `v` marks one of the four promotion moves.
pub open spec fn is_promotion_kind(v: MoveType) -> bool {
    match v {
        MoveType::Promotion(p) => promotion_variant(p),
        _ => false,
    }
}

/// Appends the four promotion moves from `from` to `to`, one per
/// promoted kind, and reports that it did.
pub fn generate_pawn_promotion_moves(moves: &mut Vec<Move>, from: (usize, usize), to: (usize, usize)) -> (appended: bool)
    ensures
        appended,
        forall|m: Move| #[trigger] final(moves)@.contains(m) <==> old(moves)@.contains(m) || (m.from
            == from && m.to == to && is_promotion_kind(m.variant)),
{
    let ghost s0 = moves@;
    let mv_queen = Move { variant: MoveType::Promotion(PieceVariant::Queen), from, to };
    let mv_castle = Move { variant: MoveType::Promotion(PieceVariant::Castle), from, to };
    let mv_knight = Move { variant: MoveType::Promotion(PieceVariant::Knight), from, to };
    let mv_bishop = Move { variant: MoveType::Promotion(PieceVariant::Bishop), from, to };
    let ghost s1 = s0.push(mv_queen);
    let ghost s2 = s1.push(mv_castle);
    let ghost s3 = s2.push(mv_knight);
    moves.push(mv_queen);
    moves.push(mv_castle);
    moves.push(mv_knight);
    moves.push(mv_bishop);
    proof {
        lemma_push_contains(s0, mv_queen);
        lemma_push_contains(s1, mv_castle);
        lemma_push_contains(s2, mv_knight);
        lemma_push_contains(s3, mv_bishop);
        assert forall|m: Move| #[trigger] moves@.contains(m) <==> s0.contains(m) || (m.from == from
            && m.to == to && is_promotion_kind(m.variant)) by {
            if m.from == from && m.to == to && is_promotion_kind(m.variant) {
                assert(m == mv_queen || m == mv_castle || m == mv_knight || m == mv_bishop);
            }
        }
    }
    true
}

/// The pawn's moves from `from`: exactly those `m` with
/// [`pawn_move_allowed`]`(game, from, m)`.
fn generate_pawn_moves(game: &Game, from: (usize, usize)) -> (moves: Vec<Move>)
    requires
        in_board(from.0 as int, from.1 as int),
    ensures
        forall|m: Move| #[trigger] moves@.contains(m) <==> pawn_move_allowed(*game, from, m),
{
    let g = Ghost(*game);
    let is_ally = matches_color(game.data.current_turn, game.data.player_color);
    let start_row: usize = if is_ally { 6 } else { 1 };
    let end_row: usize = if is_ally { 0 } else { 7 };
    let fwd: i32 = if is_ally { -1 } else { 1 };
    proof {
        assert(start_row as int == pawn_start_row(g@));
        assert(end_row as int == pawn_end_row(g@));
        assert(fwd as int == pawn_forward(g@));
    }

    let mut moves: Vec<Move> = Vec::new();

    // The forward step, with the double push behind it.
    let t1 = from.1 as i32 + fwd;
    if 0 <= t1 && t1 < 8 {
        let t1r = t1 as usize;
        match game.get_square(from.0, t1r) {
            None => {
                if t1r == end_row {
                    generate_pawn_promotion_moves(&mut moves, from, (from.0, t1r));
                } else {
                    let mv = Move { variant: MoveType::NonCapture, from, to: (from.0, t1r) };
                    let ghost s0 = moves@;
                    moves.push(mv);
                    proof {
                        lemma_push_contains(s0, mv);
                    }
                }
                proof {
                    assert forall|m: Move| #[trigger] moves@.contains(m) <==> pawn_step_allowed(
                        g@,
                        from,
                        m,
                    ) by {}
                }
                if from.1 == start_row {
                    let t2 = from.1 as i32 + 2 * fwd;
                    proof {
                        assert(0 <= t2 < 8);
                    }
                    let t2r = t2 as usize;
                    let ghost s1 = moves@;
                    match game.get_square(from.0, t2r) {
                        None => {
                            let mv = Move { variant: MoveType::AdvancePawn, from, to: (from.0, t2r) };
                            moves.push(mv);
                            proof {
                                lemma_push_contains(s1, mv);
                                assert(pawn_double_allowed(g@, from, mv));
                            }
                        },
                        Some(_) => {},
                    }
                }
            },
            Some(_) => {},
        }
    }
    proof {
        assert forall|m: Move| #[trigger] moves@.contains(m) <==> pawn_step_allowed(g@, from, m)
            || pawn_double_allowed(g@, from, m) by {}
    }

    // The two diagonals: captures and en passant.
    let ghost s_fwd = moves@;
    let tdr = from.1 as i32 + fwd;
    let tlc = from.0 as i32 - 1;
    if 0 <= tlc && 0 <= tdr && tdr < 8 {
        let target = (tlc as usize, tdr as usize);
        let ghost s0 = moves@;
        match game.get_square(target.0, target.1) {
            Some(piece) => {
                if !matches_color(piece.color, game.data.current_turn) {
                    let mv = Move { variant: MoveType::Capture, from, to: target };
                    moves.push(mv);
                    proof {
                        lemma_push_contains(s0, mv);
                        assert(pawn_diagonal_allowed(g@, from, -1, mv));
                    }
                }
            },
            None => {
                match game.data.recent_advancing_pawn {
                    Some(sq) => {
                        if sq.0 == target.0 && sq.1 == from.1 {
                            let mv = Move { variant: MoveType::EnPassant, from, to: target };
                            moves.push(mv);
                            proof {
                                lemma_push_contains(s0, mv);
                                assert(pawn_diagonal_allowed(g@, from, -1, mv));
                            }
                        }
                    },
                    None => {},
                }
            },
        }
    }
    proof {
        assert forall|m: Move| #[trigger] moves@.contains(m) <==> s_fwd.contains(m)
            || pawn_diagonal_allowed(g@, from, -1, m) by {}
    }

    let ghost s_left = moves@;
    let trc = from.0 as i32 + 1;
    if trc < 8 && 0 <= tdr && tdr < 8 {
        let target = (trc as usize, tdr as usize);
        let ghost s0 = moves@;
        match game.get_square(target.0, target.1) {
            Some(piece) => {
                if !matches_color(piece.color, game.data.current_turn) {
                    let mv = Move { variant: MoveType::Capture, from, to: target };
                    moves.push(mv);
                    proof {
                        lemma_push_contains(s0, mv);
                        assert(pawn_diagonal_allowed(g@, from, 1, mv));
                    }
                }
            },
            None => {
                match game.data.recent_advancing_pawn {
                    Some(sq) => {
                        if sq.0 == target.0 && sq.1 == from.1 {
                            let mv = Move { variant: MoveType::EnPassant, from, to: target };
                            moves.push(mv);
                            proof {
                                lemma_push_contains(s0, mv);
                                assert(pawn_diagonal_allowed(g@, from, 1, mv));
                            }
                        }
                    },
                    None => {},
                }
            },
        }
    }
    proof {
        assert forall|m: Move| #[trigger] moves@.contains(m) <==> s_left.contains(m)
            || pawn_diagonal_allowed(g@, from, 1, m) by {}
        assert forall|m: Move| #[trigger] moves@.contains(m) <==> pawn_move_allowed(g@, from, m)
            by {}
    }
    moves
}

/// Executable twin of [`direction_offset`].
fn direction_offset_at(i: usize) -> (o: (i32, i32))
    requires
        i < 8,
    ensures
        o.0 as int == direction_offset(i as int).0,
        o.1 as int == direction_offset(i as int).1,
        -1 <= o.0 as int <= 1,
        -1 <= o.1 as int <= 1,
        !(o.0 == 0 && o.1 == 0),
{
    if i == 0 {
        (0, -1)
    } else if i == 1 {
        (0, 1)
    } else if i == 2 {
        (-1, 0)
    } else if i == 3 {
        (1, 0)
    } else if i == 4 {
        (-1, -1)
    } else if i == 5 {
        (1, -1)
    } else if i == 6 {
        (-1, 1)
    } else {
        (1, 1)
    }
}

/// A ray that has left the board never comes back: each coordinate moves
/// the same way every step.
proof fn lemma_ray_leaves_board(from: (usize, usize), i: int, j: int, k: int)
    requires
        0 <= i < 8,
        1 <= j <= k,
        in_board(from.0 as int, from.1 as int),
        !in_board(ray_square(from, i, j).0, ray_square(from, i, j).1),
    ensures
        !in_board(ray_square(from, i, k).0, ray_square(from, i, k).1),
{
    let dc = direction_offset(i).0;
    let dr = direction_offset(i).1;
    assert(-1 <= dc <= 1 && -1 <= dr <= 1);
    assert(ray_square(from, i, j).0 == from.0 + dc * j);
    assert(ray_square(from, i, k).0 == from.0 + dc * k);
    assert(ray_square(from, i, j).1 == from.1 + dr * j);
    assert(ray_square(from, i, k).1 == from.1 + dr * k);
    if from.0 + dc * j < 0 {
        assert(from.0 + dc * k < 0) by (nonlinear_arith)
            requires
                -1 <= dc <= 1,
                1 <= j <= k,
                from.0 + dc * j < 0,
                from.0 >= 0,
        ;
    } else if from.0 + dc * j >= 8 {
        assert(from.0 + dc * k >= 8) by (nonlinear_arith)
            requires
                -1 <= dc <= 1,
                1 <= j <= k,
                from.0 + dc * j >= 8,
                from.0 < 8,
        ;
    } else if from.1 + dr * j < 0 {
        assert(from.1 + dr * k < 0) by (nonlinear_arith)
            requires
                -1 <= dr <= 1,
                1 <= j <= k,
                from.1 + dr * j < 0,
                from.1 >= 0,
        ;
    } else {
        assert(from.1 + dr * j >= 8);
        assert(from.1 + dr * k >= 8) by (nonlinear_arith)
            requires
                -1 <= dr <= 1,
                1 <= j <= k,
                from.1 + dr * j >= 8,
                from.1 < 8,
        ;
    }
}

/// A ray square still on the board lies at most seven steps out: some
/// coordinate shifts by one every step.
proof fn lemma_ray_stays_bounded(from: (usize, usize), i: int, j: int)
    requires
        0 <= i < 8,
        1 <= j,
        in_board(from.0 as int, from.1 as int),
        in_board(ray_square(from, i, j).0, ray_square(from, i, j).1),
    ensures
        j <= 7,
{
    let dc = direction_offset(i).0;
    let dr = direction_offset(i).1;
    assert(!(dc == 0 && dr == 0));
    if dc != 0 {
        assert(j <= 7) by (nonlinear_arith)
            requires
                dc == -1 || dc == 1,
                1 <= j,
                0 <= from.0 < 8,
                0 <= from.0 + dc * j < 8,
        ;
    } else {
        assert(j <= 7) by (nonlinear_arith)
            requires
                dr == -1 || dr == 1,
                1 <= j,
                0 <= from.1 < 8,
                0 <= from.1 + dr * j < 8,
        ;
    }
}

/// Walks direction `i` from `from`, appending a move for every empty
/// square until the board edge or the first piece; the first enemy piece
/// is appended as a capture.
fn generate_ray_moves(game: &Game, from: (usize, usize), i: usize, moves: &mut Vec<Move>)
    requires
        in_board(from.0 as int, from.1 as int),
        i < 8,
    ensures
        forall|m: Move| #[trigger] final(moves)@.contains(m) <==> old(moves)@.contains(m)
            || ray_move_allowed(*game, from, i as int, m),
{
    let g = Ghost(*game);
    let ghost s0 = moves@;
    let offset = direction_offset_at(i);
    let mut j: i32 = 1;
    loop
        invariant_except_break
            1 <= j <= 8,
            i < 8,
            in_board(from.0 as int, from.1 as int),
            g@ == *game,
            offset.0 as int == direction_offset(i as int).0,
            offset.1 as int == direction_offset(i as int).1,
            -1 <= offset.0 as int <= 1,
            -1 <= offset.1 as int <= 1,
            forall|t: int|
                1 <= t < j as int ==> in_board(
                    #[trigger] ray_square(from, i as int, t).0,
                    ray_square(from, i as int, t).1,
                ) && square_empty(g@, ray_square(from, i as int, t).0, ray_square(from, i as int, t).1),
            forall|m: Move| #[trigger] moves@.contains(m) <==> s0.contains(m) || (exists|k: int|
                1 <= k < j as int && #[trigger] ray_move_at(g@, from, i as int, k, m)),
        ensures
            forall|m: Move| #[trigger] moves@.contains(m) <==> s0.contains(m) || ray_move_allowed(
                g@,
                from,
                i as int,
                m,
            ),
        decreases 9 - j,
    {
        proof {
            assert(-8 <= offset.0 * j <= 8 && -8 <= offset.1 * j <= 8) by (nonlinear_arith)
                requires
                    -1 <= offset.0 as int <= 1,
                    -1 <= offset.1 as int <= 1,
                    1 <= j <= 8,
            ;
        }
        let tc = from.0 as i32 + offset.0 * j;
        let tr = from.1 as i32 + offset.1 * j;
        proof {
            assert(tc as int == ray_square(from, i as int, j as int).0);
            assert(tr as int == ray_square(from, i as int, j as int).1);
        }
        if !(0 <= tc && tc < 8 && 0 <= tr && tr < 8) {
            proof {
                assert forall|m: Move| #[trigger] moves@.contains(m) <==> s0.contains(m)
                    || ray_move_allowed(g@, from, i as int, m) by {
                    if ray_move_allowed(g@, from, i as int, m) {
                        let k = choose|k: int|
                            1 <= k && #[trigger] ray_move_at(g@, from, i as int, k, m);
                        if k >= j as int {
                            lemma_ray_leaves_board(from, i as int, j as int, k);
                            assert(false);
                        }
                    }
                }
            }
            break;
        }
        let target = (tc as usize, tr as usize);
        match game.get_square(target.0, target.1) {
            Some(piece) => {
                if matches_color(piece.color, game.data.current_turn) {
                    proof {
                        assert forall|m: Move| #[trigger] moves@.contains(m) <==> s0.contains(m)
                            || ray_move_allowed(g@, from, i as int, m) by {
                            if ray_move_allowed(g@, from, i as int, m) {
                                let k = choose|k: int|
                                    1 <= k && #[trigger] ray_move_at(g@, from, i as int, k, m);
                                if k > j as int {
                                    assert(!square_empty(
                                        g@,
                                        ray_square(from, i as int, j as int).0,
                                        ray_square(from, i as int, j as int).1,
                                    ));
                                    assert(false);
                                } else if k == j as int {
                                    assert(false);
                                }
                            }
                        }
                    }
                    break;
                } else {
                    let mv = Move { variant: MoveType::Capture, from, to: target };
                    let ghost sp = moves@;
                    moves.push(mv);
                    proof {
                        lemma_push_contains(sp, mv);
                        assert(ray_move_at(g@, from, i as int, j as int, mv));
                        assert forall|m: Move| #[trigger] moves@.contains(m) <==> s0.contains(m)
                            || ray_move_allowed(g@, from, i as int, m) by {
                            if ray_move_allowed(g@, from, i as int, m) {
                                let k = choose|k: int|
                                    1 <= k && #[trigger] ray_move_at(g@, from, i as int, k, m);
                                if k > j as int {
                                    assert(!square_empty(
                                        g@,
                                        ray_square(from, i as int, j as int).0,
                                        ray_square(from, i as int, j as int).1,
                                    ));
                                    assert(false);
                                } else if k == j as int {
                                    assert(m == mv);
                                }
                            }
                        }
                    }
                    break;
                }
            },
            None => {
                let mv = Move { variant: MoveType::NonCapture, from, to: target };
                let ghost sp = moves@;
                moves.push(mv);
                proof {
                    lemma_push_contains(sp, mv);
                    assert(ray_move_at(g@, from, i as int, j as int, mv));
                    lemma_ray_stays_bounded(from, i as int, j as int);
                    assert forall|m: Move| #[trigger] moves@.contains(m) <==> s0.contains(m) || (
                    exists|k: int|
                        1 <= k < j as int + 1 && #[trigger] ray_move_at(g@, from, i as int, k, m))
                        by {
                        if moves@.contains(m) && !s0.contains(m) {
                            if sp.contains(m) {
                            } else {
                                assert(m == mv);
                                assert(ray_move_at(g@, from, i as int, j as int, m));
                            }
                        }
                    }
                }
                j = j + 1;
            },
        }
    }
}

/// The sliding moves from `from` along the directions whose indices lie
/// in `offset_range`: the queen passes `(0, 8)`, the rook `(0, 4)`, the
/// bishop `(4, 8)`.
fn generate_sliding_moves(game: &Game, from: (usize, usize), offset_range: (usize, usize)) -> (moves: Vec<Move>)
    requires
        in_board(from.0 as int, from.1 as int),
        offset_range.0 <= offset_range.1,
        offset_range.1 <= 8,
    ensures
        forall|m: Move| #[trigger] moves@.contains(m) <==> sliding_move_allowed(
            *game,
            from,
            offset_range.0 as int,
            offset_range.1 as int,
            m,
        ),
{
    let mut moves: Vec<Move> = Vec::new();
    let mut i: usize = offset_range.0;
    while i < offset_range.1
        invariant
            offset_range.0 <= i <= offset_range.1,
            offset_range.1 <= 8,
            in_board(from.0 as int, from.1 as int),
            forall|m: Move| #[trigger] moves@.contains(m) <==> exists|d: int|
                offset_range.0 as int <= d < i as int && #[trigger] ray_move_allowed(
                    *game,
                    from,
                    d,
                    m,
                ),
        decreases offset_range.1 - i,
    {
        let ghost s0 = moves@;
        generate_ray_moves(game, from, i, &mut moves);
        proof {
            assert forall|m: Move| #[trigger] moves@.contains(m) <==> exists|d: int|
                offset_range.0 as int <= d < i as int + 1 && #[trigger] ray_move_allowed(
                    *game,
                    from,
                    d,
                    m,
                ) by {
                if moves@.contains(m) {
                    if s0.contains(m) {
                        let d = choose|d: int|
                            offset_range.0 as int <= d < i as int && #[trigger] ray_move_allowed(
                                *game,
                                from,
                                d,
                                m,
                            );
                        assert(ray_move_allowed(*game, from, d, m));
                    } else {
                        assert(ray_move_allowed(*game, from, i as int, m));
                    }
                }
            }
        }
        i = i + 1;
    }
    moves
}

/// The square `m` starts from lies before `(column, row)` in the
/// generator's scan order: earlier rank, or same rank and earlier file.
pub open spec fn move_scanned(m: Move, row: int, column: int) -> bool {
    (m.from.1 as int) < row || (m.from.1 as int == row && (m.from.0 as int) < column)
}

/// Whatever kind of piece allows `m`, `m` starts on the square the piece
/// stands on.
proof fn lemma_piece_move_from(g: Game, from: (usize, usize), p: Piece, m: Move)
    requires
        piece_move_allowed(g, from, p, m),
    ensures
        m.from == from,
{
    match p.variant {
        PieceVariant::Queen => {
            let i = choose|i: int| 0 <= i < 8 && #[trigger] ray_move_allowed(g, from, i, m);
            let k = choose|k: int| 1 <= k && #[trigger] ray_move_at(g, from, i, k, m);
            assert(ray_move_at(g, from, i, k, m));
        },
        PieceVariant::Castle => {
            let i = choose|i: int| 0 <= i < 4 && #[trigger] ray_move_allowed(g, from, i, m);
            let k = choose|k: int| 1 <= k && #[trigger] ray_move_at(g, from, i, k, m);
            assert(ray_move_at(g, from, i, k, m));
        },
        PieceVariant::Bishop => {
            let i = choose|i: int| 4 <= i < 8 && #[trigger] ray_move_allowed(g, from, i, m);
            let k = choose|k: int| 1 <= k && #[trigger] ray_move_at(g, from, i, k, m);
            assert(ray_move_at(g, from, i, k, m));
        },
        PieceVariant::King => {
            if exists|k: int| 0 <= k < 9 && #[trigger] king_step_at(g, from, k, m) {
                let k = choose|k: int| 0 <= k < 9 && #[trigger] king_step_at(g, from, k, m);
                assert(king_step_at(g, from, k, m));
            }
        },
        PieceVariant::Knight => {
            let k = choose|k: int| 0 <= k < 8 && #[trigger] knight_move_at(g, from, k, m);
            assert(knight_move_at(g, from, k, m));
        },
        PieceVariant::Pawn => {},
    }
}

/// The full pseudo-legal move set of the side to move: exactly those `m`
/// with [`move_allowed`]`(game, m)`.
pub fn generate_moves(game: &Game) -> (moves: Vec<Move>)
    requires
        game.wf(),
    ensures
        forall|m: Move| #[trigger] moves@.contains(m) <==> move_allowed(*game, m),
{
    let mut moves: Vec<Move> = Vec::new();
    let mut row: usize = 0;
    while row < 8
        invariant
            row <= 8,
            game.wf(),
            forall|m: Move| #[trigger] moves@.contains(m) <==> move_allowed(*game, m)
                && move_scanned(m, row as int, 0),
        decreases 8 - row,
    {
        let mut column: usize = 0;
        while column < 8
            invariant
                row < 8,
                column <= 8,
                game.wf(),
                forall|m: Move| #[trigger] moves@.contains(m) <==> move_allowed(*game, m)
                    && move_scanned(m, row as int, column as int),
            decreases 8 - column,
        {
            let from = (column, row);
            let ghost s0 = moves@;
            match game.get_square(column, row) {
                Some(piece) => {
                    if matches_color(piece.color, game.data.current_turn) {
                        let mut piece_moves: Vec<Move> = match piece.variant {
                            PieceVariant::Queen => generate_sliding_moves(game, from, (0, 8)),
                            PieceVariant::Castle => generate_sliding_moves(game, from, (0, 4)),
                            PieceVariant::Bishop => generate_sliding_moves(game, from, (4, 8)),
                            PieceVariant::King => generate_king_moves(game, from),
                            PieceVariant::Knight => generate_knight_moves(game, from),
                            PieceVariant::Pawn => generate_pawn_moves(game, from),
                        };
                        proof {
                            assert forall|m: Move| #[trigger] piece_moves@.contains(m) <==> move_allowed(
                                *game,
                                m,
                            ) && m.from == from by {
                                if piece_moves@.contains(m) {
                                    lemma_piece_move_from(*game, from, piece, m);
                                }
                            }
                        }
                        let ghost sp = piece_moves@;
                        moves.append(&mut piece_moves);
                        proof {
                            lemma_add_contains(s0, sp);
                            assert forall|m: Move| #[trigger] moves@.contains(m) <==> move_allowed(
                                *game,
                                m,
                            ) && move_scanned(m, row as int, column as int + 1) by {}
                        }
                    } else {
                        proof {
                            assert forall|m: Move| #[trigger] moves@.contains(m) <==> move_allowed(
                                *game,
                                m,
                            ) && move_scanned(m, row as int, column as int + 1) by {
                                if move_allowed(*game, m) && m.from.0 as int == column as int
                                    && m.from.1 as int == row as int {
                                    assert(false);
                                }
                            }
                        }
                    }
                },
                None => {
                    proof {
                        assert forall|m: Move| #[trigger] moves@.contains(m) <==> move_allowed(
                            *game,
                            m,
                        ) && move_scanned(m, row as int, column as int + 1) by {
                            if move_allowed(*game, m) && m.from.0 as int == column as int
                                && m.from.1 as int == row as int {
                                assert(false);
                            }
                        }
                    }
                },
            }
            column = column + 1;
        }
        row = row + 1;
    }
    moves
}

/// `move_allowed` reads only the board, the turn owner, the seated side,
/// the en-passant mark and the castling rights: two games equal there
/// allow the same moves.
pub proof fn lemma_move_allowed_frame(g1: Game, g2: Game, m: Move)
    requires
        g2.board == g1.board,
        g2.data.current_turn == g1.data.current_turn,
        g2.data.player_color == g1.data.player_color,
        g2.data.recent_advancing_pawn == g1.data.recent_advancing_pawn,
        g2.data.is_valid_castling == g1.data.is_valid_castling,
    ensures
        move_allowed(g1, m) == move_allowed(g2, m),
{
    if move_allowed(g1, m) {
        lemma_move_allowed_transfer(g1, g2, m);
    }
    if move_allowed(g2, m) {
        lemma_move_allowed_transfer(g2, g1, m);
    }
}

/// One direction of [`lemma_move_allowed_frame`].
proof fn lemma_move_allowed_transfer(ga: Game, gb: Game, m: Move)
    requires
        gb.board == ga.board,
        gb.data.current_turn == ga.data.current_turn,
        gb.data.player_color == ga.data.player_color,
        gb.data.recent_advancing_pawn == ga.data.recent_advancing_pawn,
        gb.data.is_valid_castling == ga.data.is_valid_castling,
        move_allowed(ga, m),
    ensures
        move_allowed(gb, m),
{
    let from = m.from;
    assert(forall|c: int, r: int| ga.spec_at(c, r) == gb.spec_at(c, r));
    assert(forall|c: int, r: int| square_empty(ga, c, r) == #[trigger] square_empty(gb, c, r));
    assert(forall|c: int, r: int| ally_at(ga, c, r) == #[trigger] ally_at(gb, c, r));
    assert(forall|c: int, r: int| enemy_at(ga, c, r) == #[trigger] enemy_at(gb, c, r));
    assert(forall|color: TeamColor, side: int|
        ga.data.spec_right(color, side) == #[trigger] gb.data.spec_right(color, side));
    let p = ga.spec_at(from.0 as int, from.1 as int).unwrap();
    match p.variant {
        PieceVariant::Queen => {
            lemma_sliding_transfer(ga, gb, from, 0, 8, m);
        },
        PieceVariant::Castle => {
            lemma_sliding_transfer(ga, gb, from, 0, 4, m);
        },
        PieceVariant::Bishop => {
            lemma_sliding_transfer(ga, gb, from, 4, 8, m);
        },
        PieceVariant::King => {
            if exists|k: int| 0 <= k < 9 && #[trigger] king_step_at(ga, from, k, m) {
                let k = choose|k: int| 0 <= k < 9 && #[trigger] king_step_at(ga, from, k, m);
                assert(king_step_at(gb, from, k, m));
            } else {
                if castle_scan_ok(ga, from, 0) {
                    assert(castle_scan_ok(gb, from, 0));
                }
                if castle_scan_ok(ga, from, 1) {
                    assert(castle_scan_ok(gb, from, 1));
                }
                assert(castle_move_allowed(gb, from, m));
            }
        },
        PieceVariant::Knight => {
            let k = choose|k: int| 0 <= k < 8 && #[trigger] knight_move_at(ga, from, k, m);
            assert(knight_move_at(gb, from, k, m));
        },
        PieceVariant::Pawn => {
            assert(pawn_start_row(gb) == pawn_start_row(ga));
            assert(pawn_end_row(gb) == pawn_end_row(ga));
            assert(pawn_forward(gb) == pawn_forward(ga));
            assert(pawn_move_allowed(gb, from, m));
        },
    }
}

/// Sliding case of [`lemma_move_allowed_transfer`].
proof fn lemma_sliding_transfer(ga: Game, gb: Game, from: (usize, usize), start: int, end: int, m: Move)
    requires
        gb.board == ga.board,
        gb.data.current_turn == ga.data.current_turn,
        sliding_move_allowed(ga, from, start, end, m),
    ensures
        sliding_move_allowed(gb, from, start, end, m),
{
    let i = choose|i: int| start <= i < end && #[trigger] ray_move_allowed(ga, from, i, m);
    let k = choose|k: int| 1 <= k && #[trigger] ray_move_at(ga, from, i, k, m);
    assert(ray_move_at(ga, from, i, k, m));
    assert forall|j: int|
        1 <= j < k implies square_empty(
        gb,
        #[trigger] ray_square(from, i, j).0,
        ray_square(from, i, j).1,
    ) by {
        assert(square_empty(ga, ray_square(from, i, j).0, ray_square(from, i, j).1));
    }
    assert(ray_move_at(gb, from, i, k, m));
    assert(ray_move_allowed(gb, from, i, m));
}

/// What each move tag says about an allowed move: where it lands, what
/// stands there, and what kind of piece makes it.
pub open spec fn move_shape(g: Game, m: Move) -> bool {
    let from_piece = g.spec_at(m.from.0 as int, m.from.1 as int);
    let is_pawn = from_piece matches Some(p) && p.variant == PieceVariant::Pawn;
    let is_king = from_piece matches Some(p) && p.variant == PieceVariant::King;
    match m.variant {
        MoveType::Capture => {
            &&& enemy_at(g, m.to.0 as int, m.to.1 as int)
            &&& is_pawn ==> m.to.1 as int == m.from.1 as int + pawn_forward(g) && (m.to.0 as int
                == m.from.0 as int + 1 || m.to.0 as int == m.from.0 as int - 1)
            &&& is_king ==> -1 <= m.to.0 as int - m.from.0 as int <= 1 && -1 <= m.to.1 as int
                - m.from.1 as int <= 1
        },
        MoveType::NonCapture => {
            &&& square_empty(g, m.to.0 as int, m.to.1 as int)
            &&& is_pawn ==> m.to.0 == m.from.0 && m.to.1 as int == m.from.1 as int + pawn_forward(g)
                && m.to.1 as int != pawn_end_row(g)
            &&& is_king ==> -1 <= m.to.0 as int - m.from.0 as int <= 1 && -1 <= m.to.1 as int
                - m.from.1 as int <= 1
        },
        MoveType::AdvancePawn => {
            &&& is_pawn
            &&& m.from.1 as int == pawn_start_row(g)
            &&& m.to.0 == m.from.0
            &&& m.to.1 as int == m.from.1 as int + 2 * pawn_forward(g)
            &&& square_empty(g, m.to.0 as int, m.to.1 as int)
            &&& square_empty(g, m.to.0 as int, m.from.1 as int + pawn_forward(g))
        },
        MoveType::EnPassant => {
            &&& is_pawn
            &&& square_empty(g, m.to.0 as int, m.to.1 as int)
            &&& g.data.recent_advancing_pawn == Some((m.to.0, m.from.1))
            &&& m.to.1 as int == m.from.1 as int + pawn_forward(g)
            &&& (m.to.0 as int == m.from.0 as int + 1 || m.to.0 as int == m.from.0 as int - 1)
        },
        MoveType::Castling(col) => {
            &&& is_king
            &&& (col == 0 || col == 7)
            &&& g.data.spec_right(turn(g), if col == 0 { 0int } else { 1int })
            &&& (col == 0 ==> m.to.0 as int == m.from.0 as int - 2)
            &&& (col == 7 ==> m.to.0 as int == m.from.0 as int + 2)
            &&& m.to.1 == m.from.1
            &&& castle_scan_ok(g, m.from, if col == 0 { 0int } else { 1int })
        },
        MoveType::Promotion(v) => {
            &&& is_pawn
            &&& promotion_variant(v)
            &&& m.to.0 == m.from.0
            &&& m.to.1 as int == pawn_end_row(g)
            &&& m.to.1 as int == m.from.1 as int + pawn_forward(g)
            &&& square_empty(g, m.to.0 as int, m.to.1 as int)
        },
    }
}

/// Every allowed move has the shape its tag promises.
pub proof fn lemma_allowed_move_shape(g: Game, m: Move)
    requires
        move_allowed(g, m),
    ensures
        move_shape(g, m),
{
    let from = m.from;
    let p = g.spec_at(from.0 as int, from.1 as int).unwrap();
    match p.variant {
        PieceVariant::Queen => {
            let i = choose|i: int| 0 <= i < 8 && #[trigger] ray_move_allowed(g, from, i, m);
            let k = choose|k: int| 1 <= k && #[trigger] ray_move_at(g, from, i, k, m);
            assert(ray_move_at(g, from, i, k, m));
        },
        PieceVariant::Castle => {
            let i = choose|i: int| 0 <= i < 4 && #[trigger] ray_move_allowed(g, from, i, m);
            let k = choose|k: int| 1 <= k && #[trigger] ray_move_at(g, from, i, k, m);
            assert(ray_move_at(g, from, i, k, m));
        },
        PieceVariant::Bishop => {
            let i = choose|i: int| 4 <= i < 8 && #[trigger] ray_move_allowed(g, from, i, m);
            let k = choose|k: int| 1 <= k && #[trigger] ray_move_at(g, from, i, k, m);
            assert(ray_move_at(g, from, i, k, m));
        },
        PieceVariant::King => {
            if exists|k: int| 0 <= k < 9 && #[trigger] king_step_at(g, from, k, m) {
                let k = choose|k: int| 0 <= k < 9 && #[trigger] king_step_at(g, from, k, m);
                assert(king_step_at(g, from, k, m));
            }
        },
        PieceVariant::Knight => {
            let k = choose|k: int| 0 <= k < 8 && #[trigger] knight_move_at(g, from, k, m);
            assert(knight_move_at(g, from, k, m));
        },
        PieceVariant::Pawn => {},
    }
}

/// In a well-formed game a castle lands on an empty square: the king
/// still holding a right stands on its home file, and both squares it
/// may cross to lie strictly between it and the rook, on the cleared
/// part of the scan.
pub proof fn lemma_castle_target_empty(g: Game, m: Move)
    requires
        g.wf(),
        move_allowed(g, m),
        m.variant matches MoveType::Castling(_),
    ensures
        square_empty(g, m.to.0 as int, m.to.1 as int),
{
    lemma_allowed_move_shape(g, m);
    king_on_home_square(g, m.from);
}

} // verus!
