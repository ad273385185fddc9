use std::collections::HashSet;

use chess::amend::{change_turn, select_team};
use chess::game::initialize_game;
use chess::piece::{PieceVariant, TeamColor};
use chess::produce::{generate_pawn_promotion_moves, Move, MoveType};

#[test]
fn current_turn_tracks_the_flip() {
    let mut game = initialize_game();
    select_team(&mut game, TeamColor::White);
    assert_eq!(game.current_turn(), TeamColor::White);
    change_turn(&mut game);
    assert_eq!(game.current_turn(), TeamColor::Black);
    change_turn(&mut game);
    assert_eq!(game.current_turn(), TeamColor::White);
}

#[test]
fn legal_moves_from_filters_by_square() {
    let mut game = initialize_game();
    select_team(&mut game, TeamColor::White);
    let pawn_moves = game.legal_moves_from(4, 6);
    let targets: HashSet<(usize, usize)> = pawn_moves.iter().map(|m| m.to).collect();
    assert_eq!(targets, [(4, 5), (4, 4)].into_iter().collect());
    assert!(pawn_moves.iter().all(|m| m.from == (4, 6)));

    assert!(game.legal_moves_from(4, 7).is_empty(), "the king is walled in");
    assert!(game.legal_moves_from(3, 3).is_empty(), "an empty square has no moves");
}

#[test]
fn black_seat_mirrors_the_opening() {
    let mut game = initialize_game();
    select_team(&mut game, TeamColor::Black);
    // White still moves first, from the top of the mirrored board.
    assert_eq!(game.current_turn(), TeamColor::White);
    let distinct: HashSet<Move> = game.data.available_moves.iter().cloned().collect();
    assert_eq!(distinct.len(), 20);
    assert!(game.data.available_moves.iter().all(|m| m.from.1 <= 1 && m.to.1 <= 3));
}

#[test]
fn promotion_helper_appends_all_four_kinds() {
    let mut moves = vec![Move { variant: MoveType::NonCapture, from: (0, 6), to: (0, 5) }];
    assert!(generate_pawn_promotion_moves(&mut moves, (2, 1), (2, 0)));
    assert_eq!(moves.len(), 5);
    let kinds: HashSet<PieceVariant> = moves
        .iter()
        .filter_map(|m| match m.variant {
            MoveType::Promotion(v) => Some(v),
            _ => None,
        })
        .collect();
    assert_eq!(
        kinds,
        [
            PieceVariant::Queen,
            PieceVariant::Castle,
            PieceVariant::Knight,
            PieceVariant::Bishop,
        ]
        .into_iter()
        .collect()
    );
    assert!(moves[1..].iter().all(|m| m.from == (2, 1) && m.to == (2, 0)));
}
