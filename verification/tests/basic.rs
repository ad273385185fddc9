use chess::board::Board;
use chess::piece::{Piece, PieceVariant, TeamColor};

#[test]
fn empty_board_has_no_pieces() {
    let board = Board::init();
    for row in 0..8 {
        for column in 0..8 {
            assert!(board.get_square(column, row).is_none());
        }
    }
}

#[test]
fn starting_array_places_pawns() {
    let board = Board::color(&TeamColor::White);
    for column in 0..8 {
        assert_eq!(
            board.get_square(column, 6),
            Some(Piece { variant: PieceVariant::Pawn, color: TeamColor::White })
        );
        assert_eq!(
            board.get_square(column, 1),
            Some(Piece { variant: PieceVariant::Pawn, color: TeamColor::Black })
        );
    }
}
