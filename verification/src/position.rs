//! Coordinates, move requests and move outcomes.

use vstd::prelude::*;
use crate::piece::PieceType;

verus! {

/// A square of the board: `row` and `column` both range over 1..=8 for
/// squares that lie on the board.  Row 1 is White's back rank, column 1 is
/// the a-file.
#[derive(Clone, Copy, PartialEq, Eq, Structural, Hash, Debug)]
pub struct Position {
    pub row: usize,
    pub column: usize,
}

impl Position {
    pub fn new(row: usize, column: usize) -> (r: Self)
        ensures
            r.row == row,
            r.column == column,
    {
        Position { row, column }
    }
}

/// True exactly of the 64 squares of the board.
pub open spec fn in_bounds(p: Position) -> bool {
    1 <= p.row <= 8 && 1 <= p.column <= 8
}

/// Returned by the notation decoder when the input is malformed.
#[derive(Clone, Copy, PartialEq, Eq, Structural, Debug)]
pub struct NotationError;

/// A disambiguated move request: which piece type should move where, with
/// optional starting row/column to narrow the choice when several pieces of
/// the same type could reach the target.
#[derive(Clone, Copy, PartialEq, Eq, Structural, Debug)]
pub struct Move {
    pub piece_type: PieceType,
    pub new_position: Position,
    pub starting_column: Option<usize>,
    pub starting_row: Option<usize>,
}

/// The board column a letter names, upper or lower case: the a-file is
/// column 1.
pub open spec fn column_of_char(c: char) -> Option<usize> {
    if c == 'A' || c == 'a' {
        Some(1usize)
    } else if c == 'B' || c == 'b' {
        Some(2usize)
    } else if c == 'C' || c == 'c' {
        Some(3usize)
    } else if c == 'D' || c == 'd' {
        Some(4usize)
    } else if c == 'E' || c == 'e' {
        Some(5usize)
    } else if c == 'F' || c == 'f' {
        Some(6usize)
    } else if c == 'G' || c == 'g' {
        Some(7usize)
    } else if c == 'H' || c == 'h' {
        Some(8usize)
    } else {
        None
    }
}

/// The value of a decimal digit character.
pub open spec fn digit_of_char(c: char) -> Option<usize> {
    if c == '0' {
        Some(0usize)
    } else if c == '1' {
        Some(1usize)
    } else if c == '2' {
        Some(2usize)
    } else if c == '3' {
        Some(3usize)
    } else if c == '4' {
        Some(4usize)
    } else if c == '5' {
        Some(5usize)
    } else if c == '6' {
        Some(6usize)
    } else if c == '7' {
        Some(7usize)
    } else if c == '8' {
        Some(8usize)
    } else if c == '9' {
        Some(9usize)
    } else {
        None
    }
}

/// The piece type a notation's first symbol names.  A lower-case file
/// letter up to `g` stands for a pawn move naming its starting file.
pub open spec fn piece_of_char(c: char) -> Option<PieceType> {
    if c == 'R' {
        Some(PieceType::Rook)
    } else if c == 'B' {
        Some(PieceType::Bishop)
    } else if c == 'K' {
        Some(PieceType::King)
    } else if c == 'N' {
        Some(PieceType::Knight)
    } else if c == 'Q' {
        Some(PieceType::Queen)
    } else if 'a' <= c && c <= 'g' {
        Some(PieceType::Pawn)
    } else {
        None
    }
}

/// What a notation string decodes to: the last two symbols name the target
/// square; two symbols alone request a pawn move; otherwise the first
/// symbol names the piece, and what stands between supplies the optional
/// starting column and row.
pub open spec fn parse_notation(s: Seq<char>) -> Result<Move, NotationError> {
    if s.len() < 2 || s.len() > 6 {
        Err(NotationError)
    } else if digit_of_char(s[s.len() - 1]) is None {
        Err(NotationError)
    } else if column_of_char(s[s.len() - 2]) is None {
        Err(NotationError)
    } else {
        let target = Position {
            row: digit_of_char(s[s.len() - 1])->0,
            column: column_of_char(s[s.len() - 2])->0,
        };
        if s.len() == 2 {
            Ok(Move {
                piece_type: PieceType::Pawn,
                new_position: target,
                starting_column: None,
                starting_row: None,
            })
        } else {
            match piece_of_char(s[0]) {
                None => Err(NotationError),
                Some(piece_type) => {
                    if s.len() == 3 {
                        if piece_type != PieceType::Pawn {
                            Ok(Move {
                                piece_type,
                                new_position: target,
                                starting_column: None,
                                starting_row: None,
                            })
                        } else {
                            Ok(Move {
                                piece_type,
                                new_position: target,
                                starting_column: Some(column_of_char(s[0])->0),
                                starting_row: None,
                            })
                        }
                    } else if s.len() == 4 {
                        if digit_of_char(s[1]) is Some {
                            Ok(Move {
                                piece_type,
                                new_position: target,
                                starting_column: None,
                                starting_row: Some(digit_of_char(s[1])->0),
                            })
                        } else {
                            match column_of_char(s[1]) {
                                Some(column) => Ok(Move {
                                    piece_type,
                                    new_position: target,
                                    starting_column: Some(column),
                                    starting_row: None,
                                }),
                                None => Err(NotationError),
                            }
                        }
                    } else {
                        match column_of_char(s[1]) {
                            None => Err(NotationError),
                            Some(column) => match digit_of_char(s[2]) {
                                None => Err(NotationError),
                                Some(row) => Ok(Move {
                                    piece_type,
                                    new_position: target,
                                    starting_column: Some(column),
                                    starting_row: Some(row),
                                }),
                            },
                        }
                    }
                },
            }
        }
    }
}

/// Reads `column_of_char` off the character's ASCII byte.
fn column_of_byte(b: u8, Ghost(c): Ghost<char>) -> (r: Option<usize>)
    requires
        '\0' <= c <= '\u{7f}',
        c as u8 == b,
    ensures
        r == column_of_char(c),
{
    match b {
        65u8 | 97u8 => Some(1),
        66u8 | 98u8 => Some(2),
        67u8 | 99u8 => Some(3),
        68u8 | 100u8 => Some(4),
        69u8 | 101u8 => Some(5),
        70u8 | 102u8 => Some(6),
        71u8 | 103u8 => Some(7),
        72u8 | 104u8 => Some(8),
        _ => None,
    }
}

/// Reads `digit_of_char` off the character's ASCII byte.
fn digit_of_byte(b: u8, Ghost(c): Ghost<char>) -> (r: Option<usize>)
    requires
        '\0' <= c <= '\u{7f}',
        c as u8 == b,
    ensures
        r == digit_of_char(c),
{
    if b >= 48u8 && b <= 57u8 {
        Some((b - 48u8) as usize)
    } else {
        None
    }
}

/// Reads `piece_of_char` off the character's ASCII byte.
fn piece_of_byte(b: u8, Ghost(c): Ghost<char>) -> (r: Option<PieceType>)
    requires
        '\0' <= c <= '\u{7f}',
        c as u8 == b,
    ensures
        r == piece_of_char(c),
{
    match b {
        82u8 => Some(PieceType::Rook),
        66u8 => Some(PieceType::Bishop),
        75u8 => Some(PieceType::King),
        78u8 => Some(PieceType::Knight),
        81u8 => Some(PieceType::Queen),
        97u8..=103u8 => Some(PieceType::Pawn),
        _ => None,
    }
}

impl Move {
    pub fn new(
        new_position: Position,
        starting_column: Option<usize>,
        starting_row: Option<usize>,
        piece_type: PieceType,
    ) -> (r: Self)
        ensures
            r.piece_type == piece_type,
            r.new_position == new_position,
            r.starting_column == starting_column,
            r.starting_row == starting_row,
    {
        Move { piece_type, new_position, starting_column, starting_row }
    }

    /// Decodes a move request from algebraic-style notation.  Only ASCII
    /// input is accepted; anything malformed — too short, too long, or
    /// holding an unrecognized symbol — is a `NotationError`.
    pub fn from_notation(notation: &str) -> (r: Result<Self, NotationError>)
        ensures
            vstd::utf8::is_ascii_chars(notation@) ==> r == parse_notation(notation@),
            !vstd::utf8::is_ascii_chars(notation@) ==> r == Err::<Move, NotationError>(
                NotationError,
            ),
    {
        if !notation.is_ascii() {
            return Err(NotationError);
        }
        proof {
            vstd::utf8::is_ascii_chars_encode_utf8(notation@);
        }
        let ghost s = notation@;
        let bytes: &[u8] = notation.as_bytes();
        let n: usize = bytes.len();

        if n < 2 {
            return Err(NotationError);
        }
        if n > 6 {
            return Err(NotationError);
        }

        let row: usize = match digit_of_byte(bytes[n - 1], Ghost(s[n - 1])) {
            Some(row) => row,
            None => {
                return Err(NotationError);
            },
        };
        let column: usize = match column_of_byte(bytes[n - 2], Ghost(s[n - 2])) {
            Some(column) => column,
            None => {
                return Err(NotationError);
            },
        };
        let end_position: Position = Position::new(row, column);

        if n == 2 {
            return Ok(Move::new(end_position, None, None, PieceType::Pawn));
        }

        let piece_type: PieceType = match piece_of_byte(bytes[0], Ghost(s[0])) {
            Some(piece_type) => piece_type,
            None => {
                return Err(NotationError);
            },
        };

        if n == 3 {
            if !matches!(piece_type, PieceType::Pawn) {
                return Ok(Move::new(end_position, None, None, piece_type));
            }
            let starting_column: usize = match column_of_byte(bytes[0], Ghost(s[0])) {
                Some(column) => column,
                None => {
                    return Err(NotationError);
                },
            };
            return Ok(Move::new(end_position, Some(starting_column), None, piece_type));
        }

        if n == 4 {
            if let Some(starting_row) = digit_of_byte(bytes[1], Ghost(s[1])) {
                return Ok(Move::new(end_position, None, Some(starting_row), piece_type));
            }
            return match column_of_byte(bytes[1], Ghost(s[1])) {
                Some(starting_column) => Ok(Move::new(
                    end_position,
                    Some(starting_column),
                    None,
                    piece_type,
                )),
                None => Err(NotationError),
            };
        }

        let starting_column: usize = match column_of_byte(bytes[1], Ghost(s[1])) {
            Some(column) => column,
            None => {
                return Err(NotationError);
            },
        };
        let starting_row: usize = match digit_of_byte(bytes[2], Ghost(s[2])) {
            Some(row) => row,
            None => {
                return Err(NotationError);
            },
        };
        Ok(Move::new(end_position, Some(starting_column), Some(starting_row), piece_type))
    }
}

/// The closed set of outcomes of a move request.
#[derive(Clone, Copy, PartialEq, Eq, Structural, Debug)]
pub enum MoveResult {
    Success,
    PromotionAvailable(Position),
    ImpossibleMove,
    Checked,
    PiecePinned,
    AmbiguousMove,
    MissingPiece,
    Draw,
}

} // verus!
