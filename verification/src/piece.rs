//! Pieces: a kind, a colour, and their pairing on a square.

use vstd::prelude::*;

verus! {

/// The two sides.  The engine runs both; `player_color` in the auxiliary
/// state only records which side sits at the bottom of the board.
#[derive(Clone, Copy, Debug, PartialEq, Eq, Structural, Hash)]
pub enum TeamColor {
    White,
    Black,
}

impl TeamColor {
    /// The opposing side.
    pub open spec fn spec_other(self) -> TeamColor {
        match self {
            TeamColor::White => TeamColor::Black,
            TeamColor::Black => TeamColor::White,
        }
    }

    /// The opposing side.
    pub fn other(self) -> (r: TeamColor)
        ensures
            r == self.spec_other(),
    {
        match self {
            TeamColor::White => TeamColor::Black,
            TeamColor::Black => TeamColor::White,
        }
    }
}

/// The six piece kinds.  The rook is called `Castle` throughout.
#[derive(Clone, Copy, Debug, PartialEq, Eq, Structural, Hash)]
pub enum PieceVariant {
    King,
    Queen,
    Castle,
    Bishop,
    Knight,
    Pawn,
}

/// A coloured piece as it stands on a square.
#[derive(Clone, Copy, Debug, PartialEq, Eq, Structural, Hash)]
pub struct Piece {
    pub variant: PieceVariant,
    pub color: TeamColor,
}

} // verus!
