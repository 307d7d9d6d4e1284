//! Pieces: type, colour, current square, and the two special-move flags.

use vstd::prelude::*;
use crate::position::Position;

verus! {

#[derive(Clone, Copy, PartialEq, Eq, Structural, Debug)]
pub enum PieceType {
    King,
    Queen,
    Rook,
    Bishop,
    Knight,
    Pawn,
}

#[derive(Clone, Copy, PartialEq, Eq, Structural, Debug)]
pub enum PieceColour {
    Black,
    White,
}

/// The colour of the opposing side.
pub open spec fn opponent(c: PieceColour) -> PieceColour {
    match c {
        PieceColour::White => PieceColour::Black,
        PieceColour::Black => PieceColour::White,
    }
}

/// A piece in play.  The single dual-purpose flag of older engines is split
/// into two explicitly named fields:
/// - `unmoved` records castling eligibility and is meaningful for King and
///   Rook only;
/// - `en_passant` records "just advanced two squares last ply" and is
///   meaningful for Pawn only.
#[derive(Clone, Copy, PartialEq, Eq, Structural, Debug)]
pub struct Piece {
    pub piece_type: PieceType,
    pub position: Position,
    pub colour: PieceColour,
    pub unmoved: bool,
    pub en_passant: bool,
}

impl Piece {
    /// Creates a piece.  `special` carries the dual-purpose flag of the
    /// caller: for King and Rook it means "has not moved yet", for a Pawn it
    /// means "just advanced two squares"; for every other type it is ignored.
    pub fn new(
        piece_type: PieceType,
        column: usize,
        row: usize,
        colour: PieceColour,
        special: bool,
    ) -> (r: Piece)
        ensures
            r.piece_type == piece_type,
            r.position == (Position { row, column }),
            r.colour == colour,
            r.unmoved == (special && (piece_type == PieceType::King
                || piece_type == PieceType::Rook)),
            r.en_passant == (special && piece_type == PieceType::Pawn),
    {
        let unmoved: bool = match piece_type {
            PieceType::King | PieceType::Rook => special,
            _ => false,
        };
        let en_passant: bool = match piece_type {
            PieceType::Pawn => special,
            _ => false,
        };
        Piece {
            piece_type,
            colour,
            position: Position::new(row, column),
            unmoved,
            en_passant,
        }
    }
}

} // verus!
