use chess::amend::{change_turn, move_piece, promote, select_team, update};
use chess::board::Board;
use chess::game::{initialize_game, Command, Data, Game, GameState};
use chess::piece::{Piece, PieceVariant, TeamColor};
use chess::produce::{generate_moves, Move, MoveType};

fn boards_equal(a: &Game, b: &Game) -> bool {
    (0..8).all(|row| (0..8).all(|column| a.get_square(column, row) == b.get_square(column, row)))
}

fn play(game: &mut Game, variant: MoveType, from: (usize, usize), to: (usize, usize)) {
    let mv = Move { variant, from, to };
    assert!(
        game.data.available_moves.contains(&mv),
        "move {:?} not in the legal set",
        mv
    );
    move_piece(game, mv);
    change_turn(game);
}

#[test]
fn noncapture_round_trip_restores_the_board() {
    let mut game = initialize_game();
    select_team(&mut game, TeamColor::White);
    let mut fresh = initialize_game();
    select_team(&mut fresh, TeamColor::White);

    // A knight steps out; after the opponent waits with a knight of its
    // own, it steps back, and both do it again to hand the turn back.
    play(&mut game, MoveType::NonCapture, (1, 7), (0, 5));
    play(&mut game, MoveType::NonCapture, (1, 0), (0, 2));
    play(&mut game, MoveType::NonCapture, (0, 5), (1, 7));
    play(&mut game, MoveType::NonCapture, (0, 2), (1, 0));

    assert!(boards_equal(&game, &fresh));
}

#[test]
fn capture_discards_the_occupant() {
    let mut game = Game {
        state: GameState::BoardGame,
        board: Board { pieces: [[None; 8]; 8] },
        data: Data {
            current_turn: TeamColor::White,
            player_color: TeamColor::White,
            focused_square: None,
            danger_squares: Vec::new(),
            available_moves: Vec::new(),
            recent_advancing_pawn: None,
            recent_promoting_pawn: None,
            is_valid_castling: [[false, false], [false, false]],
        },
    };
    game.board.pieces[3][3] = Some(Piece { variant: PieceVariant::Castle, color: TeamColor::White });
    game.board.pieces[3][6] = Some(Piece { variant: PieceVariant::Pawn, color: TeamColor::Black });
    game.data.available_moves = generate_moves(&game);

    let capture = Move { variant: MoveType::Capture, from: (3, 3), to: (6, 3) };
    assert!(game.data.available_moves.contains(&capture));
    move_piece(&mut game, capture);
    assert_eq!(
        game.get_square(6, 3),
        Some(Piece { variant: PieceVariant::Castle, color: TeamColor::White })
    );
    assert_eq!(game.get_square(3, 3), None);
}

#[test]
fn double_push_sets_the_en_passant_mark() {
    let mut game = initialize_game();
    select_team(&mut game, TeamColor::White);
    play(&mut game, MoveType::AdvancePawn, (4, 6), (4, 4));
    assert_eq!(game.data.recent_advancing_pawn, Some((4, 4)));
    play(&mut game, MoveType::NonCapture, (0, 1), (0, 2));
    assert_eq!(game.data.recent_advancing_pawn, None);
}

#[test]
fn en_passant_capture_appears_then_vanishes() {
    let mut game = initialize_game();
    select_team(&mut game, TeamColor::White);

    play(&mut game, MoveType::NonCapture, (0, 6), (0, 5)); // white waits
    play(&mut game, MoveType::AdvancePawn, (3, 1), (3, 3)); // black double push
    play(&mut game, MoveType::NonCapture, (0, 5), (0, 4)); // white waits
    play(&mut game, MoveType::NonCapture, (3, 3), (3, 4)); // black pawn reaches rank 4
    play(&mut game, MoveType::AdvancePawn, (4, 6), (4, 4)); // white double push beside it

    // Black may now capture the white pawn in passing.
    let en_passant = Move { variant: MoveType::EnPassant, from: (3, 4), to: (4, 5) };
    assert!(game.data.available_moves.contains(&en_passant));

    // But after any other move the chance is gone.
    play(&mut game, MoveType::NonCapture, (0, 1), (0, 2)); // black waits instead
    play(&mut game, MoveType::NonCapture, (0, 4), (0, 3)); // white waits
    assert!(!game.data.available_moves.contains(&en_passant));
    assert!(game
        .data
        .available_moves
        .iter()
        .all(|m| m.variant != MoveType::EnPassant));
}

#[test]
fn en_passant_apply_vacates_the_passed_pawn() {
    let mut game = initialize_game();
    select_team(&mut game, TeamColor::White);
    play(&mut game, MoveType::NonCapture, (0, 6), (0, 5));
    play(&mut game, MoveType::AdvancePawn, (3, 1), (3, 3));
    play(&mut game, MoveType::NonCapture, (0, 5), (0, 4));
    play(&mut game, MoveType::NonCapture, (3, 3), (3, 4));
    play(&mut game, MoveType::AdvancePawn, (4, 6), (4, 4));
    play(&mut game, MoveType::EnPassant, (3, 4), (4, 5));

    assert_eq!(
        game.get_square(4, 5),
        Some(Piece { variant: PieceVariant::Pawn, color: TeamColor::Black })
    );
    assert_eq!(game.get_square(4, 4), None, "the passed white pawn is captured");
    assert_eq!(game.get_square(3, 4), None);
}

#[test]
fn castle_appears_once_the_path_clears() {
    let mut game = initialize_game();
    select_team(&mut game, TeamColor::White);
    let castle = Move { variant: MoveType::Castling(7), from: (4, 7), to: (6, 7) };
    assert!(!game.data.available_moves.contains(&castle));

    play(&mut game, MoveType::NonCapture, (4, 6), (4, 5)); // frees the bishop
    play(&mut game, MoveType::NonCapture, (0, 1), (0, 2));
    play(&mut game, MoveType::NonCapture, (5, 7), (4, 6)); // bishop out of the way
    play(&mut game, MoveType::NonCapture, (1, 1), (1, 2));
    play(&mut game, MoveType::NonCapture, (6, 7), (7, 5)); // knight out of the way
    play(&mut game, MoveType::NonCapture, (2, 1), (2, 2));

    assert!(game.data.available_moves.contains(&castle));
}

#[test]
fn castle_apply_relocates_the_rook() {
    let mut game = initialize_game();
    select_team(&mut game, TeamColor::White);
    play(&mut game, MoveType::NonCapture, (4, 6), (4, 5));
    play(&mut game, MoveType::NonCapture, (0, 1), (0, 2));
    play(&mut game, MoveType::NonCapture, (5, 7), (4, 6));
    play(&mut game, MoveType::NonCapture, (1, 1), (1, 2));
    play(&mut game, MoveType::NonCapture, (6, 7), (7, 5));
    play(&mut game, MoveType::NonCapture, (2, 1), (2, 2));
    play(&mut game, MoveType::Castling(7), (4, 7), (6, 7));

    assert_eq!(
        game.get_square(6, 7),
        Some(Piece { variant: PieceVariant::King, color: TeamColor::White })
    );
    assert_eq!(
        game.get_square(5, 7),
        Some(Piece { variant: PieceVariant::Castle, color: TeamColor::White })
    );
    assert_eq!(game.get_square(7, 7), None);
    assert_eq!(game.get_square(4, 7), None);
}

#[test]
fn moving_the_rook_away_and_back_forfeits_the_castle() {
    let mut game = initialize_game();
    select_team(&mut game, TeamColor::White);
    play(&mut game, MoveType::NonCapture, (4, 6), (4, 5));
    play(&mut game, MoveType::NonCapture, (0, 1), (0, 2));
    play(&mut game, MoveType::NonCapture, (5, 7), (4, 6));
    play(&mut game, MoveType::NonCapture, (1, 1), (1, 2));
    play(&mut game, MoveType::NonCapture, (6, 7), (7, 5));
    play(&mut game, MoveType::NonCapture, (2, 1), (2, 2));

    let castle = Move { variant: MoveType::Castling(7), from: (4, 7), to: (6, 7) };
    assert!(game.data.available_moves.contains(&castle));

    play(&mut game, MoveType::NonCapture, (7, 7), (6, 7)); // rook leaves home
    play(&mut game, MoveType::NonCapture, (3, 1), (3, 2));
    assert!(!game.data.is_valid_castling[0][1]);
    play(&mut game, MoveType::NonCapture, (6, 7), (7, 7)); // and returns
    play(&mut game, MoveType::NonCapture, (4, 1), (4, 2));

    assert!(!game.data.available_moves.contains(&castle));
    assert!(!game.data.is_valid_castling[0][1]);
}

#[test]
fn moving_the_king_forfeits_both_castles() {
    let mut game = initialize_game();
    select_team(&mut game, TeamColor::White);
    play(&mut game, MoveType::NonCapture, (4, 6), (4, 5));
    play(&mut game, MoveType::NonCapture, (0, 1), (0, 2));
    play(&mut game, MoveType::NonCapture, (4, 7), (4, 6)); // king steps up
    assert!(!game.data.is_valid_castling[0][0]);
    assert!(!game.data.is_valid_castling[0][1]);
    // Black's own rights are untouched.
    assert!(game.data.is_valid_castling[1][0]);
    assert!(game.data.is_valid_castling[1][1]);
}

#[test]
fn promotion_offers_exactly_four_kinds() {
    let mut game = Game {
        state: GameState::BoardGame,
        board: Board { pieces: [[None; 8]; 8] },
        data: Data {
            current_turn: TeamColor::White,
            player_color: TeamColor::White,
            focused_square: None,
            danger_squares: Vec::new(),
            available_moves: Vec::new(),
            recent_advancing_pawn: None,
            recent_promoting_pawn: None,
            is_valid_castling: [[false, false], [false, false]],
        },
    };
    game.board.pieces[1][0] = Some(Piece { variant: PieceVariant::Pawn, color: TeamColor::White });
    let moves = generate_moves(&game);
    assert_eq!(moves.len(), 4);
    assert!(moves.iter().all(|m| m.from == (0, 1) && m.to == (0, 0)));
    for kind in [
        PieceVariant::Queen,
        PieceVariant::Castle,
        PieceVariant::Knight,
        PieceVariant::Bishop,
    ] {
        assert!(moves
            .iter()
            .any(|m| m.variant == MoveType::Promotion(kind)));
    }
}

#[test]
fn promotion_apply_replaces_the_pawn() {
    let mut game = Game {
        state: GameState::PromoteSelection,
        board: Board { pieces: [[None; 8]; 8] },
        data: Data {
            current_turn: TeamColor::White,
            player_color: TeamColor::White,
            focused_square: None,
            danger_squares: Vec::new(),
            available_moves: Vec::new(),
            recent_advancing_pawn: None,
            recent_promoting_pawn: Some((0, 0)),
            is_valid_castling: [[false, false], [false, false]],
        },
    };
    game.board.pieces[1][0] = Some(Piece { variant: PieceVariant::Pawn, color: TeamColor::White });
    game.data.available_moves = generate_moves(&game);

    let chosen = Move {
        variant: MoveType::Promotion(PieceVariant::Knight),
        from: (0, 1),
        to: (0, 0),
    };
    assert!(game.data.available_moves.contains(&chosen));
    move_piece(&mut game, chosen);
    assert_eq!(
        game.get_square(0, 0),
        Some(Piece { variant: PieceVariant::Knight, color: TeamColor::White })
    );
    assert_eq!(game.get_square(0, 1), None);
    assert_eq!(game.state, GameState::BoardGame);
    assert_eq!(game.data.recent_promoting_pawn, None);
}

#[test]
fn promote_opens_the_selection_menu() {
    let mut game = initialize_game();
    select_team(&mut game, TeamColor::White);
    promote(&mut game, (3, 0));
    assert_eq!(game.state, GameState::PromoteSelection);
    assert_eq!(game.data.recent_promoting_pawn, Some((3, 0)));
}

#[test]
fn update_walks_the_menu_states() {
    let mut game = initialize_game();
    assert_eq!(game.state, GameState::StartMenu);
    update(vec![Command::Play], &mut game);
    assert_eq!(game.state, GameState::TeamSelection);
    update(vec![Command::SelectTeam(TeamColor::White)], &mut game);
    assert_eq!(game.state, GameState::BoardGame);
    assert_eq!(game.data.available_moves.len(), 20);
    update(vec![Command::ExitGame], &mut game);
    assert_eq!(game.state, GameState::StartMenu);
    update(vec![Command::Quit], &mut game);
    assert_eq!(game.state, GameState::Terminated);
}

#[test]
fn update_runs_a_whole_move_in_one_batch() {
    let mut game = initialize_game();
    update(
        vec![Command::Play, Command::SelectTeam(TeamColor::White)],
        &mut game,
    );
    update(vec![Command::Focus(4, 6)], &mut game);
    assert_eq!(game.data.focused_square, Some((4, 6)));
    assert_eq!(game.data.danger_squares.len(), 2);
    assert!(game.data.danger_squares.contains(&(4, 5)));
    assert!(game.data.danger_squares.contains(&(4, 4)));

    let push = Move { variant: MoveType::AdvancePawn, from: (4, 6), to: (4, 4) };
    update(
        vec![Command::Move(push), Command::Unfocus, Command::ChangeTurn],
        &mut game,
    );
    assert_eq!(game.data.focused_square, None);
    assert!(game.data.danger_squares.is_empty());
    assert_eq!(game.data.current_turn, TeamColor::Black);
    assert_eq!(
        game.get_square(4, 4),
        Some(Piece { variant: PieceVariant::Pawn, color: TeamColor::White })
    );
}
