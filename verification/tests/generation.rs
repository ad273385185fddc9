use std::collections::HashSet;

use chess::amend::{change_turn, move_piece, select_team};
use chess::board::Board;
use chess::game::{initialize_game, Data, Game, GameState};
use chess::piece::{Piece, PieceVariant, TeamColor};
use chess::produce::{generate_moves, Move, MoveType};

fn bare_game(player: TeamColor, turn: TeamColor) -> Game {
    Game {
        state: GameState::BoardGame,
        board: Board { pieces: [[None; 8]; 8] },
        data: Data {
            current_turn: turn,
            player_color: player,
            focused_square: None,
            danger_squares: Vec::new(),
            available_moves: Vec::new(),
            recent_advancing_pawn: None,
            recent_promoting_pawn: None,
            is_valid_castling: [[false, false], [false, false]],
        },
    }
}

fn put(game: &mut Game, column: usize, row: usize, variant: PieceVariant, color: TeamColor) {
    game.board.pieces[row][column] = Some(Piece { variant, color });
}

#[test]
fn standard_opening_has_twenty_moves() {
    let mut game = initialize_game();
    select_team(&mut game, TeamColor::White);
    let distinct: HashSet<Move> = game.data.available_moves.iter().cloned().collect();
    assert_eq!(distinct.len(), 20);

    let pawn_pushes = distinct
        .iter()
        .filter(|m| matches!(m.variant, MoveType::NonCapture | MoveType::AdvancePawn))
        .filter(|m| m.from.1 == 6)
        .count();
    let knight_jumps = distinct.iter().filter(|m| m.from.1 == 7).count();
    assert_eq!(pawn_pushes, 16);
    assert_eq!(knight_jumps, 4);
}

#[test]
fn generation_is_deterministic() {
    let mut game = initialize_game();
    select_team(&mut game, TeamColor::Black);
    let first: HashSet<Move> = generate_moves(&game).into_iter().collect();
    let second: HashSet<Move> = generate_moves(&game).into_iter().collect();
    assert_eq!(first, second);
}

#[test]
fn knight_in_the_open_has_eight_jumps() {
    let mut game = bare_game(TeamColor::White, TeamColor::White);
    put(&mut game, 3, 3, PieceVariant::Knight, TeamColor::White);
    let moves = generate_moves(&game);
    assert_eq!(moves.len(), 8);
    assert!(moves.iter().all(|m| matches!(m.variant, MoveType::NonCapture)));
}

#[test]
fn knight_in_the_corner_has_two_jumps() {
    let mut game = bare_game(TeamColor::White, TeamColor::White);
    put(&mut game, 0, 0, PieceVariant::Knight, TeamColor::White);
    let moves = generate_moves(&game);
    let targets: HashSet<(usize, usize)> = moves.iter().map(|m| m.to).collect();
    assert_eq!(targets, [(1, 2), (2, 1)].into_iter().collect());
}

#[test]
fn rook_stops_at_first_occupied_square() {
    let mut game = bare_game(TeamColor::White, TeamColor::White);
    put(&mut game, 3, 3, PieceVariant::Castle, TeamColor::White);
    put(&mut game, 3, 5, PieceVariant::Pawn, TeamColor::White);
    put(&mut game, 3, 1, PieceVariant::Pawn, TeamColor::Black);
    let moves = generate_moves(&game);
    let rook_moves: Vec<&Move> = moves.iter().filter(|m| m.from == (3, 3)).collect();

    // Down the file: (3, 4) only, the own pawn on (3, 5) blocks.
    assert!(rook_moves.iter().any(|m| m.to == (3, 4) && m.variant == MoveType::NonCapture));
    assert!(rook_moves.iter().all(|m| m.to != (3, 5) && m.to != (3, 6) && m.to != (3, 7)));

    // Up the file: (3, 2), then the enemy pawn on (3, 1) as a capture, not beyond.
    assert!(rook_moves.iter().any(|m| m.to == (3, 2) && m.variant == MoveType::NonCapture));
    assert!(rook_moves.iter().any(|m| m.to == (3, 1) && m.variant == MoveType::Capture));
    assert!(rook_moves.iter().all(|m| m.to != (3, 0)));
}

#[test]
fn bishop_walks_only_diagonals() {
    let mut game = bare_game(TeamColor::White, TeamColor::White);
    put(&mut game, 2, 2, PieceVariant::Bishop, TeamColor::White);
    let moves = generate_moves(&game);
    assert!(moves.iter().all(|m| {
        let dc = (m.to.0 as i32 - 2).abs();
        let dr = (m.to.1 as i32 - 2).abs();
        dc == dr && dc > 0
    }));
    assert_eq!(moves.len(), 11);
}

#[test]
fn queen_covers_rook_and_bishop_lines() {
    let mut game = bare_game(TeamColor::White, TeamColor::White);
    put(&mut game, 0, 0, PieceVariant::Queen, TeamColor::White);
    let moves = generate_moves(&game);
    // Seven squares each along the rank, the file and the long diagonal.
    assert_eq!(moves.len(), 21);
}

#[test]
fn king_steps_one_square_everywhere() {
    let mut game = bare_game(TeamColor::White, TeamColor::White);
    put(&mut game, 4, 4, PieceVariant::King, TeamColor::White);
    let moves = generate_moves(&game);
    let targets: HashSet<(usize, usize)> = moves.iter().map(|m| m.to).collect();
    assert_eq!(targets.len(), 8);
    assert!(targets.iter().all(|t| {
        let dc = (t.0 as i32 - 4).abs();
        let dr = (t.1 as i32 - 4).abs();
        dc <= 1 && dr <= 1
    }));
}

#[test]
fn pawn_capture_needs_an_enemy() {
    let mut game = bare_game(TeamColor::White, TeamColor::White);
    put(&mut game, 4, 4, PieceVariant::Pawn, TeamColor::White);
    put(&mut game, 3, 3, PieceVariant::Pawn, TeamColor::Black);
    put(&mut game, 5, 3, PieceVariant::Pawn, TeamColor::White);
    let moves = generate_moves(&game);
    let from_pawn: Vec<&Move> = moves.iter().filter(|m| m.from == (4, 4)).collect();
    assert!(from_pawn.iter().any(|m| m.to == (3, 3) && m.variant == MoveType::Capture));
    assert!(from_pawn.iter().all(|m| m.to != (5, 3)));
    assert!(from_pawn.iter().any(|m| m.to == (4, 3) && m.variant == MoveType::NonCapture));
}

#[test]
fn blocked_pawn_has_no_forward_moves() {
    let mut game = bare_game(TeamColor::White, TeamColor::White);
    put(&mut game, 4, 6, PieceVariant::Pawn, TeamColor::White);
    put(&mut game, 4, 5, PieceVariant::Pawn, TeamColor::Black);
    let moves = generate_moves(&game);
    assert!(moves.iter().all(|m| m.from != (4, 6)));
}

#[test]
fn double_push_needs_both_squares_empty() {
    let mut game = bare_game(TeamColor::White, TeamColor::White);
    put(&mut game, 4, 6, PieceVariant::Pawn, TeamColor::White);
    put(&mut game, 4, 4, PieceVariant::Pawn, TeamColor::Black);
    let moves = generate_moves(&game);
    let from_pawn: Vec<&Move> = moves.iter().filter(|m| m.from == (4, 6)).collect();
    assert_eq!(from_pawn.len(), 1);
    assert_eq!(from_pawn[0].to, (4, 5));
    assert_eq!(from_pawn[0].variant, MoveType::NonCapture);
}

#[test]
fn enemy_side_moves_down_the_board() {
    let mut game = bare_game(TeamColor::White, TeamColor::Black);
    put(&mut game, 4, 1, PieceVariant::Pawn, TeamColor::Black);
    let moves = generate_moves(&game);
    let targets: HashSet<(usize, usize)> = moves.iter().map(|m| m.to).collect();
    assert_eq!(targets, [(4, 2), (4, 3)].into_iter().collect());
}

#[test]
fn legal_moves_refresh_after_turn_change() {
    let mut game = initialize_game();
    select_team(&mut game, TeamColor::White);
    let pawn_push = Move { variant: MoveType::NonCapture, from: (0, 6), to: (0, 5) };
    assert!(game.data.available_moves.contains(&pawn_push));
    move_piece(&mut game, pawn_push);
    change_turn(&mut game);
    assert_eq!(game.data.current_turn, TeamColor::Black);
    assert!(game.data.available_moves.iter().all(|m| m.from.1 <= 1));
    let distinct: HashSet<Move> = game.data.available_moves.iter().cloned().collect();
    assert_eq!(distinct.len(), 20);
}
