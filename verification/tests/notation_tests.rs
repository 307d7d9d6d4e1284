use chess_engine::board::Board;
use chess_engine::piece::{PieceColour, PieceType};
use chess_engine::position::{Move, MoveResult, Position};

#[test]
fn plain_pawn_move() {
    let m: Move = Move::from_notation("e4").unwrap();
    assert_eq!(m.piece_type, PieceType::Pawn);
    assert_eq!(m.new_position, Position::new(4, 5));
    assert_eq!(m.starting_column, None);
    assert_eq!(m.starting_row, None);
}

#[test]
fn piece_move() {
    let m: Move = Move::from_notation("Nf3").unwrap();
    assert_eq!(m.piece_type, PieceType::Knight);
    assert_eq!(m.new_position, Position::new(3, 6));
    assert_eq!(m.starting_column, None);
    assert_eq!(m.starting_row, None);
}

#[test]
fn pawn_move_with_starting_file() {
    let m: Move = Move::from_notation("ed5").unwrap();
    assert_eq!(m.piece_type, PieceType::Pawn);
    assert_eq!(m.new_position, Position::new(5, 4));
    assert_eq!(m.starting_column, Some(5));
    assert_eq!(m.starting_row, None);
}

#[test]
fn piece_move_with_starting_row() {
    let m: Move = Move::from_notation("N1c3").unwrap();
    assert_eq!(m.piece_type, PieceType::Knight);
    assert_eq!(m.new_position, Position::new(3, 3));
    assert_eq!(m.starting_column, None);
    assert_eq!(m.starting_row, Some(1));
}

#[test]
fn piece_move_with_starting_column() {
    let m: Move = Move::from_notation("Nbc3").unwrap();
    assert_eq!(m.piece_type, PieceType::Knight);
    assert_eq!(m.new_position, Position::new(3, 3));
    assert_eq!(m.starting_column, Some(2));
    assert_eq!(m.starting_row, None);
}

#[test]
fn fully_disambiguated_move() {
    let m: Move = Move::from_notation("Qd1e2").unwrap();
    assert_eq!(m.piece_type, PieceType::Queen);
    assert_eq!(m.new_position, Position::new(2, 5));
    assert_eq!(m.starting_column, Some(4));
    assert_eq!(m.starting_row, Some(1));
}

#[test]
fn upper_case_target_column_is_accepted() {
    let m: Move = Move::from_notation("E4").unwrap();
    assert_eq!(m.piece_type, PieceType::Pawn);
    assert_eq!(m.new_position, Position::new(4, 5));
}

#[test]
fn too_short_is_rejected() {
    assert!(Move::from_notation("e").is_err());
    assert!(Move::from_notation("").is_err());
}

#[test]
fn too_long_is_rejected() {
    assert!(Move::from_notation("Qd1xe2f").is_err());
}

#[test]
fn unrecognized_symbols_are_rejected() {
    assert!(Move::from_notation("z9").is_err());
    assert!(Move::from_notation("ex").is_err());
    assert!(Move::from_notation("Xf3").is_err());
    // The pawn-file shorthand stops at `g`.
    assert!(Move::from_notation("hg4").is_err());
    // Non-ASCII input never decodes.
    assert!(Move::from_notation("♞f3").is_err());
}

#[test]
fn notation_drives_a_full_mating_game() {
    // The decoder and the engine together: scholar's mate from notation.
    let mut board = Board::new();
    let game = [
        (PieceColour::White, "e4"),
        (PieceColour::Black, "e5"),
        (PieceColour::White, "Bc4"),
        (PieceColour::Black, "a6"),
        (PieceColour::White, "Qf3"),
        (PieceColour::Black, "a5"),
        (PieceColour::White, "Qf7"),
    ];
    for (colour, notation) in game {
        let movement = Move::from_notation(notation).unwrap();
        assert_eq!(board.make_move(colour, &movement), MoveResult::Success);
    }
    assert!(board.is_mate(PieceColour::Black));
}

#[test]
fn capture_shrinks_the_piece_count() {
    let mut board = Board::new();
    assert_eq!(board.pieces().len(), 32);
    let moves = [
        (PieceColour::White, "e4"),
        (PieceColour::Black, "d5"),
    ];
    for (colour, notation) in moves {
        let movement = Move::from_notation(notation).unwrap();
        assert_eq!(board.make_move(colour, &movement), MoveResult::Success);
    }
    let capture = Move::from_notation("ed5").unwrap();
    assert_eq!(board.make_move(PieceColour::White, &capture), MoveResult::Success);
    assert_eq!(board.pieces().len(), 31);
}

#[test]
fn out_of_range_row_still_decodes() {
    // The decoder accepts any digit; the board engine later rejects a
    // request whose target lies off the board.
    let m: Move = Move::from_notation("e9").unwrap();
    assert_eq!(m.new_position, Position::new(9, 5));
    let mut board = Board::new();
    assert_eq!(
        board.make_move(PieceColour::White, &m),
        MoveResult::ImpossibleMove
    );
}
