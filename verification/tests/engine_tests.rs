use chess_engine::board::{Board, CastleDirection};
use chess_engine::piece::{PieceColour, PieceType};
use chess_engine::position::{Move, MoveResult, Position};

fn mv(row: usize, column: usize, piece_type: PieceType) -> Move {
    Move::new(Position::new(row, column), None, None, piece_type)
}

fn mv_col(row: usize, column: usize, start_col: usize, piece_type: PieceType) -> Move {
    Move::new(Position::new(row, column), Some(start_col), None, piece_type)
}

#[test]
fn initial_setup() {
    let board = Board::new();
    board.test_positions();
    let king = board.piece_at(Position::new(1, 5)).unwrap();
    assert_eq!(king.piece_type, PieceType::King);
    assert_eq!(king.colour, PieceColour::White);
    assert!(king.unmoved);
    let pawn = board.piece_at(Position::new(7, 4)).unwrap();
    assert_eq!(pawn.piece_type, PieceType::Pawn);
    assert_eq!(pawn.colour, PieceColour::Black);
    assert!(!pawn.en_passant);
    assert!(board.piece_at(Position::new(4, 4)).is_none());
    assert_eq!(board.pieces().len(), 32);
}

#[test]
fn pawn_double_step_sets_flag() {
    // Fresh board, White plays e2 -> e4: success, and the pawn's
    // en-passant window opens.
    let mut board = Board::new();
    let result = board.make_move(PieceColour::White, &mv(4, 5, PieceType::Pawn));
    assert_eq!(result, MoveResult::Success);
    let pawn = board.piece_at(Position::new(4, 5)).unwrap();
    assert_eq!(pawn.piece_type, PieceType::Pawn);
    assert_eq!(pawn.colour, PieceColour::White);
    assert!(pawn.en_passant);
    assert!(board.piece_at(Position::new(2, 5)).is_none());
}

#[test]
fn en_passant_window_closes_after_one_ply() {
    let mut board = Board::new();
    assert_eq!(
        board.make_move(PieceColour::White, &mv(4, 5, PieceType::Pawn)),
        MoveResult::Success
    );
    assert_eq!(
        board.make_move(PieceColour::Black, &mv(6, 1, PieceType::Pawn)),
        MoveResult::Success
    );
    // Black's reply closed White's window.
    assert!(!board.piece_at(Position::new(4, 5)).unwrap().en_passant);
}

#[test]
fn en_passant_capture_removes_adjacent_pawn() {
    // White pawn reaches e5; Black plays d7 -> d5; White captures en
    // passant: the pawn removed is the one on d5, and White lands on d6.
    let mut board = Board::new();
    assert_eq!(
        board.make_move(PieceColour::White, &mv(4, 5, PieceType::Pawn)),
        MoveResult::Success
    );
    assert_eq!(
        board.make_move(PieceColour::Black, &mv(6, 1, PieceType::Pawn)),
        MoveResult::Success
    );
    assert_eq!(
        board.make_move(PieceColour::White, &mv(5, 5, PieceType::Pawn)),
        MoveResult::Success
    );
    assert_eq!(
        board.make_move(PieceColour::Black, &mv(5, 4, PieceType::Pawn)),
        MoveResult::Success
    );
    assert!(board.piece_at(Position::new(5, 4)).unwrap().en_passant);
    assert_eq!(
        board.make_move(PieceColour::White, &mv(6, 4, PieceType::Pawn)),
        MoveResult::Success
    );
    assert!(board.piece_at(Position::new(5, 4)).is_none());
    assert!(board.piece_at(Position::new(5, 5)).is_none());
    let pawn = board.piece_at(Position::new(6, 4)).unwrap();
    assert_eq!(pawn.piece_type, PieceType::Pawn);
    assert_eq!(pawn.colour, PieceColour::White);
}

#[test]
fn kingside_castle_relocates_king_and_rook() {
    // Clear f1 and g1, then castle king-side: King ends on g1, Rook on f1.
    let mut board = Board::new();
    assert_eq!(
        board.make_move(PieceColour::White, &mv(3, 6, PieceType::Knight)),
        MoveResult::Success
    );
    assert_eq!(
        board.make_move(PieceColour::Black, &mv(6, 1, PieceType::Pawn)),
        MoveResult::Success
    );
    assert_eq!(
        board.make_move(PieceColour::White, &mv(3, 5, PieceType::Pawn)),
        MoveResult::Success
    );
    assert_eq!(
        board.make_move(PieceColour::Black, &mv(6, 2, PieceType::Pawn)),
        MoveResult::Success
    );
    assert_eq!(
        board.make_move(PieceColour::White, &mv(2, 5, PieceType::Bishop)),
        MoveResult::Success
    );
    assert_eq!(
        board.make_move(PieceColour::Black, &mv(6, 3, PieceType::Pawn)),
        MoveResult::Success
    );
    let result = board.castle(PieceColour::White, CastleDirection::KingSide);
    assert_eq!(result, MoveResult::Success);
    let king = board.piece_at(Position::new(1, 7)).unwrap();
    assert_eq!(king.piece_type, PieceType::King);
    assert!(!king.unmoved);
    let rook = board.piece_at(Position::new(1, 6)).unwrap();
    assert_eq!(rook.piece_type, PieceType::Rook);
    assert!(!rook.unmoved);
    assert!(board.piece_at(Position::new(1, 5)).is_none());
    assert!(board.piece_at(Position::new(1, 8)).is_none());
}

#[test]
fn queenside_castle_relocates_king_and_rook() {
    // Clear b1, c1 and d1, then castle queen-side: King ends on c1, Rook
    // on d1.
    let mut board = Board::new();
    assert_eq!(
        board.make_move(PieceColour::White, &mv(3, 3, PieceType::Knight)),
        MoveResult::Success
    );
    assert_eq!(
        board.make_move(PieceColour::Black, &mv(6, 8, PieceType::Pawn)),
        MoveResult::Success
    );
    assert_eq!(
        board.make_move(PieceColour::White, &mv(4, 4, PieceType::Pawn)),
        MoveResult::Success
    );
    assert_eq!(
        board.make_move(PieceColour::Black, &mv(6, 7, PieceType::Pawn)),
        MoveResult::Success
    );
    assert_eq!(
        board.make_move(PieceColour::White, &mv(4, 6, PieceType::Bishop)),
        MoveResult::Success
    );
    assert_eq!(
        board.make_move(PieceColour::Black, &mv(5, 8, PieceType::Pawn)),
        MoveResult::Success
    );
    assert_eq!(
        board.make_move(PieceColour::White, &mv(3, 4, PieceType::Queen)),
        MoveResult::Success
    );
    assert_eq!(
        board.make_move(PieceColour::Black, &mv(5, 7, PieceType::Pawn)),
        MoveResult::Success
    );
    assert_eq!(
        board.castle(PieceColour::White, CastleDirection::QueenSide),
        MoveResult::Success
    );
    let king = board.piece_at(Position::new(1, 3)).unwrap();
    assert_eq!(king.piece_type, PieceType::King);
    assert!(!king.unmoved);
    let rook = board.piece_at(Position::new(1, 4)).unwrap();
    assert_eq!(rook.piece_type, PieceType::Rook);
    assert!(!rook.unmoved);
    assert!(board.piece_at(Position::new(1, 5)).is_none());
    assert!(board.piece_at(Position::new(1, 1)).is_none());
}

#[test]
fn castle_fails_when_transit_square_attacked() {
    // f1 and g1 are clear and nothing has moved, but Black's bishop on c4
    // covers f1 — the square the rook (and the King's path) crosses.
    let mut board = Board::new();
    assert_eq!(
        board.make_move(PieceColour::White, &mv(4, 5, PieceType::Pawn)),
        MoveResult::Success
    );
    assert_eq!(
        board.make_move(PieceColour::Black, &mv(6, 2, PieceType::Pawn)),
        MoveResult::Success
    );
    assert_eq!(
        board.make_move(PieceColour::White, &mv(4, 3, PieceType::Bishop)),
        MoveResult::Success
    );
    assert_eq!(
        board.make_move(PieceColour::Black, &mv(6, 1, PieceType::Bishop)),
        MoveResult::Success
    );
    assert_eq!(
        board.make_move(PieceColour::White, &mv(3, 6, PieceType::Knight)),
        MoveResult::Success
    );
    assert_eq!(
        board.make_move(PieceColour::Black, &mv(4, 3, PieceType::Bishop)),
        MoveResult::Success
    );
    assert_eq!(
        board.castle(PieceColour::White, CastleDirection::KingSide),
        MoveResult::ImpossibleMove
    );
}

#[test]
fn castle_fails_while_blocked() {
    let mut board = Board::new();
    assert_eq!(
        board.castle(PieceColour::White, CastleDirection::KingSide),
        MoveResult::ImpossibleMove
    );
    assert_eq!(
        board.castle(PieceColour::White, CastleDirection::QueenSide),
        MoveResult::ImpossibleMove
    );
}

#[test]
fn castle_fails_after_king_moved() {
    let mut board = Board::new();
    assert_eq!(
        board.make_move(PieceColour::White, &mv(3, 6, PieceType::Knight)),
        MoveResult::Success
    );
    assert_eq!(
        board.make_move(PieceColour::Black, &mv(6, 1, PieceType::Pawn)),
        MoveResult::Success
    );
    assert_eq!(
        board.make_move(PieceColour::White, &mv(3, 5, PieceType::Pawn)),
        MoveResult::Success
    );
    assert_eq!(
        board.make_move(PieceColour::Black, &mv(6, 2, PieceType::Pawn)),
        MoveResult::Success
    );
    assert_eq!(
        board.make_move(PieceColour::White, &mv(2, 5, PieceType::Bishop)),
        MoveResult::Success
    );
    assert_eq!(
        board.make_move(PieceColour::Black, &mv(6, 3, PieceType::Pawn)),
        MoveResult::Success
    );
    // The King steps out and back: castling rights are gone for good.
    assert_eq!(
        board.make_move(PieceColour::White, &mv(1, 6, PieceType::King)),
        MoveResult::Success
    );
    assert_eq!(
        board.make_move(PieceColour::Black, &mv(6, 4, PieceType::Pawn)),
        MoveResult::Success
    );
    assert_eq!(
        board.make_move(PieceColour::White, &mv(1, 5, PieceType::King)),
        MoveResult::Success
    );
    assert_eq!(
        board.make_move(PieceColour::Black, &mv(6, 5, PieceType::Pawn)),
        MoveResult::Success
    );
    assert_eq!(
        board.castle(PieceColour::White, CastleDirection::KingSide),
        MoveResult::ImpossibleMove
    );
}

#[test]
fn scholars_mate_is_mate() {
    // A position where Black is in check and every escape square is
    // attacked or occupied: checkmate.
    let mut board = Board::new();
    assert_eq!(
        board.make_move(PieceColour::White, &mv(4, 5, PieceType::Pawn)),
        MoveResult::Success
    );
    assert_eq!(
        board.make_move(PieceColour::Black, &mv(5, 5, PieceType::Pawn)),
        MoveResult::Success
    );
    assert_eq!(
        board.make_move(PieceColour::White, &mv(4, 3, PieceType::Bishop)),
        MoveResult::Success
    );
    assert_eq!(
        board.make_move(PieceColour::Black, &mv(6, 1, PieceType::Pawn)),
        MoveResult::Success
    );
    assert_eq!(
        board.make_move(PieceColour::White, &mv(3, 6, PieceType::Queen)),
        MoveResult::Success
    );
    assert_eq!(
        board.make_move(PieceColour::Black, &mv(5, 1, PieceType::Pawn)),
        MoveResult::Success
    );
    assert_eq!(
        board.make_move(PieceColour::White, &mv(7, 6, PieceType::Queen)),
        MoveResult::Success
    );
    assert!(board.is_mate(PieceColour::Black));
    assert!(!board.is_stalemate(PieceColour::Black));
}

#[test]
fn fresh_board_is_neither_mate_nor_stalemate() {
    let mut board = Board::new();
    assert!(!board.is_mate(PieceColour::White));
    assert!(!board.is_stalemate(PieceColour::White));
    assert!(!board.is_mate(PieceColour::Black));
    assert!(!board.is_stalemate(PieceColour::Black));
}

#[test]
fn two_knights_same_target_is_ambiguous() {
    // Knights on f3 and c4 can both reach e5; without a disambiguator the
    // request is ambiguous and the board does not change.
    let mut board = Board::new();
    assert_eq!(
        board.make_move(PieceColour::White, &mv(3, 6, PieceType::Knight)),
        MoveResult::Success
    );
    assert_eq!(
        board.make_move(PieceColour::Black, &mv(6, 1, PieceType::Pawn)),
        MoveResult::Success
    );
    assert_eq!(
        board.make_move(PieceColour::White, &mv(3, 1, PieceType::Knight)),
        MoveResult::Success
    );
    assert_eq!(
        board.make_move(PieceColour::Black, &mv(6, 2, PieceType::Pawn)),
        MoveResult::Success
    );
    assert_eq!(
        board.make_move(PieceColour::White, &mv(4, 3, PieceType::Knight)),
        MoveResult::Success
    );
    assert_eq!(
        board.make_move(PieceColour::Black, &mv(6, 3, PieceType::Pawn)),
        MoveResult::Success
    );
    assert_eq!(
        board.make_move(PieceColour::White, &mv(5, 5, PieceType::Knight)),
        MoveResult::AmbiguousMove
    );
    // Both knights still stand where they were.
    assert_eq!(
        board.piece_at(Position::new(3, 6)).unwrap().piece_type,
        PieceType::Knight
    );
    assert_eq!(
        board.piece_at(Position::new(4, 3)).unwrap().piece_type,
        PieceType::Knight
    );
    // A column disambiguator resolves it.
    assert_eq!(
        board.make_move(PieceColour::White, &mv_col(5, 5, 6, PieceType::Knight)),
        MoveResult::Success
    );
}

#[test]
fn missing_piece_report() {
    let mut board = Board::new();
    let request = Move::new(Position::new(5, 4), None, Some(5), PieceType::Queen);
    assert_eq!(
        board.make_move(PieceColour::White, &request),
        MoveResult::MissingPiece
    );
}

#[test]
fn impossible_move_report() {
    let mut board = Board::new();
    // The queen exists but is boxed in.
    assert_eq!(
        board.make_move(PieceColour::White, &mv(5, 4, PieceType::Queen)),
        MoveResult::ImpossibleMove
    );
}

#[test]
fn moving_while_checked_is_rejected() {
    // Black's bishop checks from b4; a pawn push that ignores the check is
    // rejected as Checked and the board stays put.
    let mut board = Board::new();
    assert_eq!(
        board.make_move(PieceColour::White, &mv(4, 4, PieceType::Pawn)),
        MoveResult::Success
    );
    assert_eq!(
        board.make_move(PieceColour::Black, &mv(6, 5, PieceType::Pawn)),
        MoveResult::Success
    );
    assert_eq!(
        board.make_move(PieceColour::White, &mv(3, 8, PieceType::Pawn)),
        MoveResult::Success
    );
    assert_eq!(
        board.make_move(PieceColour::Black, &mv(4, 2, PieceType::Bishop)),
        MoveResult::Success
    );
    assert_eq!(
        board.make_move(PieceColour::White, &mv(4, 8, PieceType::Pawn)),
        MoveResult::Checked
    );
    assert!(board.piece_at(Position::new(4, 8)).is_none());
    assert_eq!(
        board.piece_at(Position::new(3, 8)).unwrap().piece_type,
        PieceType::Pawn
    );
    // Blocking the check works.
    assert_eq!(
        board.make_move(PieceColour::White, &mv(3, 3, PieceType::Pawn)),
        MoveResult::Success
    );
}

#[test]
fn pinned_piece_is_rejected() {
    // Black's queen on h4 eyes e1; pushing the f-pawn would expose the
    // King, so the pawn is pinned.
    let mut board = Board::new();
    assert_eq!(
        board.make_move(PieceColour::White, &mv(4, 5, PieceType::Pawn)),
        MoveResult::Success
    );
    assert_eq!(
        board.make_move(PieceColour::Black, &mv(5, 5, PieceType::Pawn)),
        MoveResult::Success
    );
    assert_eq!(
        board.make_move(PieceColour::White, &mv(3, 1, PieceType::Pawn)),
        MoveResult::Success
    );
    assert_eq!(
        board.make_move(PieceColour::Black, &mv(4, 8, PieceType::Queen)),
        MoveResult::Success
    );
    assert_eq!(
        board.make_move(PieceColour::White, &mv(3, 6, PieceType::Pawn)),
        MoveResult::PiecePinned
    );
    assert!(board.piece_at(Position::new(3, 6)).is_none());
}

#[test]
fn promotion_flow() {
    // The a-pawn marches, captures through, reaches b8 and promotes.
    let mut board = Board::new();
    assert_eq!(
        board.make_move(PieceColour::White, &mv(4, 1, PieceType::Pawn)),
        MoveResult::Success
    );
    assert_eq!(
        board.make_move(PieceColour::Black, &mv(5, 2, PieceType::Pawn)),
        MoveResult::Success
    );
    assert_eq!(
        board.make_move(PieceColour::White, &mv(5, 2, PieceType::Pawn)),
        MoveResult::Success
    );
    assert_eq!(
        board.make_move(PieceColour::Black, &mv(6, 1, PieceType::Pawn)),
        MoveResult::Success
    );
    assert_eq!(
        board.make_move(PieceColour::White, &mv(6, 1, PieceType::Pawn)),
        MoveResult::Success
    );
    assert_eq!(
        board.make_move(PieceColour::Black, &mv(6, 8, PieceType::Pawn)),
        MoveResult::Success
    );
    assert_eq!(
        board.make_move(PieceColour::White, &mv(7, 1, PieceType::Pawn)),
        MoveResult::Success
    );
    assert_eq!(
        board.make_move(PieceColour::Black, &mv(5, 8, PieceType::Pawn)),
        MoveResult::Success
    );
    let result = board.make_move(PieceColour::White, &mv(8, 2, PieceType::Pawn));
    assert_eq!(result, MoveResult::PromotionAvailable(Position::new(8, 2)));
    assert!(board.is_promotion_available(PieceColour::White, &mv(8, 2, PieceType::Pawn)));
    board.promote(Position::new(8, 2), PieceColour::White, PieceType::Queen);
    let queen = board.piece_at(Position::new(8, 2)).unwrap();
    assert_eq!(queen.piece_type, PieceType::Queen);
    assert_eq!(queen.colour, PieceColour::White);
    assert!(!queen.en_passant);
    assert!(!queen.unmoved);
}

#[test]
fn quickest_stalemate_game() {
    // A known shortest stalemate: after White's tenth move Black is not in
    // check and has no legal move.
    let mut board = Board::new();
    let white = PieceColour::White;
    let black = PieceColour::Black;
    assert_eq!(board.make_move(white, &mv(4, 3, PieceType::Pawn)), MoveResult::Success);
    assert_eq!(board.make_move(black, &mv(5, 8, PieceType::Pawn)), MoveResult::Success);
    assert_eq!(board.make_move(white, &mv(4, 8, PieceType::Pawn)), MoveResult::Success);
    assert_eq!(board.make_move(black, &mv(5, 1, PieceType::Pawn)), MoveResult::Success);
    assert_eq!(board.make_move(white, &mv(4, 1, PieceType::Queen)), MoveResult::Success);
    assert_eq!(board.make_move(black, &mv(6, 1, PieceType::Rook)), MoveResult::Success);
    assert_eq!(board.make_move(white, &mv(5, 1, PieceType::Queen)), MoveResult::Success);
    assert_eq!(
        board.make_move(black, &mv_col(6, 8, 1, PieceType::Rook)),
        MoveResult::Success
    );
    assert_eq!(board.make_move(white, &mv(7, 3, PieceType::Queen)), MoveResult::Success);
    assert_eq!(board.make_move(black, &mv(6, 6, PieceType::Pawn)), MoveResult::Success);
    assert_eq!(board.make_move(white, &mv(7, 4, PieceType::Queen)), MoveResult::Success);
    assert_eq!(board.make_move(black, &mv(7, 6, PieceType::King)), MoveResult::Success);
    assert_eq!(board.make_move(white, &mv(7, 2, PieceType::Queen)), MoveResult::Success);
    assert_eq!(board.make_move(black, &mv(3, 4, PieceType::Queen)), MoveResult::Success);
    assert_eq!(board.make_move(white, &mv(8, 2, PieceType::Queen)), MoveResult::Success);
    assert_eq!(board.make_move(black, &mv(7, 8, PieceType::Queen)), MoveResult::Success);
    assert_eq!(board.make_move(white, &mv(8, 3, PieceType::Queen)), MoveResult::Success);
    assert_eq!(board.make_move(black, &mv(6, 7, PieceType::King)), MoveResult::Success);
    assert_eq!(board.make_move(white, &mv(6, 5, PieceType::Queen)), MoveResult::Success);
    assert!(board.is_stalemate(black));
    assert!(!board.is_mate(black));
}
