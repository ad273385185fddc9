use chess::amend::{select_team, update};
use chess::game::{initialize_game, Command, GameState};
use chess::listener::{
    handle_mouse_on_board, handle_promotion_choice, is_move_castling, is_move_enpassant,
    is_move_promotion, is_piece_ally,
};
use chess::piece::{Piece, PieceVariant, TeamColor};
use chess::produce::{Move, MoveType};

#[test]
fn clicking_an_own_piece_focuses_it() {
    let mut game = initialize_game();
    select_team(&mut game, TeamColor::White);
    let commands = handle_mouse_on_board(&game, 4, 6);
    assert_eq!(commands, vec![Command::Focus(4, 6)]);
}

#[test]
fn clicking_nowhere_drops_the_focus() {
    let mut game = initialize_game();
    select_team(&mut game, TeamColor::White);
    let commands = handle_mouse_on_board(&game, 4, 3);
    assert_eq!(commands, vec![Command::Unfocus]);
}

#[test]
fn clicking_a_highlighted_square_commits_the_move() {
    let mut game = initialize_game();
    select_team(&mut game, TeamColor::White);
    update(vec![Command::Focus(4, 6)], &mut game);

    let commands = handle_mouse_on_board(&game, 4, 5);
    assert_eq!(
        commands,
        vec![
            Command::Unfocus,
            Command::Move(Move { variant: MoveType::NonCapture, from: (4, 6), to: (4, 5) }),
            Command::ChangeTurn,
        ]
    );

    let commands = handle_mouse_on_board(&game, 4, 4);
    assert_eq!(
        commands,
        vec![
            Command::Move(Move { variant: MoveType::AdvancePawn, from: (4, 6), to: (4, 4) }),
            Command::Unfocus,
            Command::ChangeTurn,
        ]
    );
}

#[test]
fn the_committed_click_plays_out() {
    let mut game = initialize_game();
    select_team(&mut game, TeamColor::White);
    update(vec![Command::Focus(4, 6)], &mut game);
    let commands = handle_mouse_on_board(&game, 4, 4);
    update(commands, &mut game);
    assert_eq!(game.data.current_turn, TeamColor::Black);
    assert_eq!(
        game.get_square(4, 4),
        Some(Piece { variant: PieceVariant::Pawn, color: TeamColor::White })
    );
    assert_eq!(game.data.focused_square, None);
}

#[test]
fn promotion_choice_builds_three_commands() {
    let mut game = initialize_game();
    select_team(&mut game, TeamColor::White);
    game.data.focused_square = Some((0, 1));
    game.data.recent_promoting_pawn = Some((0, 0));
    let commands = handle_promotion_choice(&game, PieceVariant::Queen);
    assert_eq!(
        commands,
        vec![
            Command::Move(Move {
                variant: MoveType::Promotion(PieceVariant::Queen),
                from: (0, 1),
                to: (0, 0),
            }),
            Command::Unfocus,
            Command::ChangeTurn,
        ]
    );
}

#[test]
fn ally_test_follows_the_turn() {
    let mut game = initialize_game();
    select_team(&mut game, TeamColor::White);
    let white_pawn = Piece { variant: PieceVariant::Pawn, color: TeamColor::White };
    let black_pawn = Piece { variant: PieceVariant::Pawn, color: TeamColor::Black };
    assert!(is_piece_ally(&game, &white_pawn));
    assert!(!is_piece_ally(&game, &black_pawn));
}

#[test]
fn click_classifiers_need_a_focus() {
    let mut game = initialize_game();
    select_team(&mut game, TeamColor::White);
    assert!(!is_move_promotion(&game, 0));
    assert!(!is_move_enpassant(&game, 3));
    assert!(!is_move_castling(&game, 2));
}

#[test]
fn castle_click_is_recognised() {
    let mut game = initialize_game();
    select_team(&mut game, TeamColor::White);
    game.data.focused_square = Some((4, 7));
    assert!(is_move_castling(&game, 2));
    assert!(is_move_castling(&game, 6));
    assert!(!is_move_castling(&game, 5));
}

#[test]
fn quit_terminates_the_session() {
    let mut game = initialize_game();
    update(vec![Command::Quit], &mut game);
    assert_eq!(game.state, GameState::Terminated);
}
