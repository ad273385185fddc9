use chess::board::{
    get_castling_move_data, get_target_squares, into_absolute_position, into_relative_position,
    is_cursor_inside_board, is_cursor_inside_promoting_selection, is_move_advancing_pawn,
    move_board_piece, Board,
};
use chess::piece::{Piece, PieceVariant, TeamColor};
use chess::produce::{Move, MoveType};

#[test]
fn cursor_inside_board_bounds() {
    assert!(is_cursor_inside_board(57, 26));
    assert!(is_cursor_inside_board(455, 424));
    assert!(!is_cursor_inside_board(56, 200));
    assert!(!is_cursor_inside_board(456, 200));
    assert!(!is_cursor_inside_board(200, 25));
    assert!(!is_cursor_inside_board(200, 425));
}

#[test]
fn cursor_inside_promoting_selection_bounds() {
    assert!(is_cursor_inside_promoting_selection(97, 191));
    assert!(is_cursor_inside_promoting_selection(415, 260));
    assert!(!is_cursor_inside_promoting_selection(96, 200));
    assert!(!is_cursor_inside_promoting_selection(416, 200));
    assert!(!is_cursor_inside_promoting_selection(200, 190));
    assert!(!is_cursor_inside_promoting_selection(200, 261));
}

#[test]
fn absolute_position_of_squares() {
    assert_eq!(into_absolute_position(0, 0), (56, 25));
    assert_eq!(into_absolute_position(7, 7), (406, 375));
    assert_eq!(into_absolute_position(3, 2), (206, 125));
}

#[test]
fn relative_position_of_pixels() {
    assert_eq!(into_relative_position(56, 25), (0, 0));
    assert_eq!(into_relative_position(105, 74), (0, 0));
    assert_eq!(into_relative_position(106, 75), (1, 1));
    assert_eq!(into_relative_position(455, 424), (7, 7));
}

#[test]
fn castling_rook_relocations() {
    let m = get_castling_move_data((1, 7));
    assert_eq!((m.from, m.to), ((0, 7), (2, 7)));
    let m = get_castling_move_data((2, 7));
    assert_eq!((m.from, m.to), ((0, 7), (3, 7)));
    let m = get_castling_move_data((5, 0));
    assert_eq!((m.from, m.to), ((7, 0), (4, 0)));
    let m = get_castling_move_data((6, 0));
    assert_eq!((m.from, m.to), ((7, 0), (5, 0)));
}

#[test]
fn target_squares_follow_the_moves() {
    let moves = vec![
        Move { variant: MoveType::NonCapture, from: (0, 6), to: (0, 5) },
        Move { variant: MoveType::AdvancePawn, from: (0, 6), to: (0, 4) },
        Move { variant: MoveType::Capture, from: (3, 3), to: (4, 4) },
    ];
    assert_eq!(get_target_squares(&moves), vec![(0, 5), (0, 4), (4, 4)]);
    assert_eq!(get_target_squares(&[]), Vec::<(usize, usize)>::new());
}

#[test]
fn advancing_pawn_is_detected_after_the_fact() {
    let mut board = Board::init();
    board.pieces[4][3] = Some(Piece { variant: PieceVariant::Pawn, color: TeamColor::White });
    let double = Move { variant: MoveType::AdvancePawn, from: (3, 6), to: (3, 4) };
    assert!(is_move_advancing_pawn(&double, &board));
    let single = Move { variant: MoveType::NonCapture, from: (3, 5), to: (3, 4) };
    assert!(!is_move_advancing_pawn(&single, &board));
    let empty_target = Move { variant: MoveType::AdvancePawn, from: (5, 6), to: (5, 4) };
    assert!(!is_move_advancing_pawn(&empty_target, &board));
}

#[test]
fn move_board_piece_relocates() {
    let mut board = Board::color(&TeamColor::White);
    let mv = Move { variant: MoveType::NonCapture, from: (1, 7), to: (2, 5) };
    move_board_piece(&mut board, &mv);
    assert_eq!(board.get_square(1, 7), None);
    assert_eq!(
        board.get_square(2, 5),
        Some(Piece { variant: PieceVariant::Knight, color: TeamColor::White })
    );
}

#[test]
fn starting_array_mirrors_for_black() {
    let white_board = Board::color(&TeamColor::White);
    assert_eq!(
        white_board.get_square(4, 7),
        Some(Piece { variant: PieceVariant::King, color: TeamColor::White })
    );
    assert_eq!(
        white_board.get_square(3, 7),
        Some(Piece { variant: PieceVariant::Queen, color: TeamColor::White })
    );
    assert_eq!(
        white_board.get_square(4, 0),
        Some(Piece { variant: PieceVariant::King, color: TeamColor::Black })
    );

    let black_board = Board::color(&TeamColor::Black);
    assert_eq!(
        black_board.get_square(3, 7),
        Some(Piece { variant: PieceVariant::King, color: TeamColor::Black })
    );
    assert_eq!(
        black_board.get_square(4, 7),
        Some(Piece { variant: PieceVariant::Queen, color: TeamColor::Black })
    );
    assert_eq!(
        black_board.get_square(3, 0),
        Some(Piece { variant: PieceVariant::King, color: TeamColor::White })
    );
    for column in 0..8 {
        assert_eq!(
            black_board.get_square(column, 6),
            Some(Piece { variant: PieceVariant::Pawn, color: TeamColor::Black })
        );
        for row in 2..6 {
            assert_eq!(black_board.get_square(column, row), None);
        }
    }
    assert_eq!(
        black_board.get_square(0, 7),
        Some(Piece { variant: PieceVariant::Castle, color: TeamColor::Black })
    );
    assert_eq!(
        black_board.get_square(1, 7),
        Some(Piece { variant: PieceVariant::Knight, color: TeamColor::Black })
    );
    assert_eq!(
        black_board.get_square(2, 7),
        Some(Piece { variant: PieceVariant::Bishop, color: TeamColor::Black })
    );
}

#[test]
fn get_square_is_total() {
    let board = Board::color(&TeamColor::White);
    assert_eq!(board.get_square(8, 0), None);
    assert_eq!(board.get_square(0, 8), None);
    assert_eq!(board.get_square(100, 100), None);
}
