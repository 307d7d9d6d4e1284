//! The board engine: sole authority on move legality and board mutation.
//!
//! The 64 squares are stored as a vector indexed by square; the abstract
//! state is the map from occupied squares to pieces (see [`crate::rules`]),
//! and every operation is specified against that map.

use vstd::prelude::*;
use vstd::pervasive::VecAdditionalExecFns;
use crate::piece::{opponent, Piece, PieceColour, PieceType};
use crate::position::{in_bounds, Move, MoveResult, Position};
use crate::rules::{
    attacks, bishop_move, board_ok, dist, ep_victim_square, has_king, in_check,
    initial_board, initial_piece, initially_occupied, is_ep_capture, is_king_at, king_move,
    king_square, king_unique, knight_move, lemma_bishop_cover, lemma_ep_move,
    lemma_king_cover, lemma_knight_cover, lemma_pseudo_legal_facts, lemma_rook_cover,
    lemma_slide_capture, lemma_slide_stop, lemma_specul_king, lemma_specul_undo, occ,
    offset_target, on_open_segment, pawn_dir, pawn_en_passant, pawn_jump, pawn_move,
    any_piece_move, any_valid_move, candidate_at, castle_king_dest, castle_ok,
    castle_rook_dest, castled_map, commit_map, flags_after, home_row, king_home, legal_move,
    matches_request, mover_at, multiple_movers, pawn_last_row, promotion_pending,
    pseudo_legal, queen_move, ray_hit, removed_by_move, rook_corner, rook_move,
    slide_target, some_candidate, some_mover, specul_map, target_open, the_mover,
    unique_mover, was_pawn_jump,
};

verus! {

broadcast use vstd::seq_lib::lemma_seq_contains_after_push;

/// Which side of the board a castle moves toward.
#[derive(Clone, Copy, PartialEq, Eq, Structural, Debug)]
pub enum CastleDirection {
    KingSide,
    QueenSide,
}

/// What a piece of a given colour finds on a square.
#[derive(PartialEq, Eq, Structural)]
enum SquareStatus {
    Occupied,
    OutsideBounds,
    Capturable,
    Free,
}

/// The vector slot that stores square `p`.
pub open spec fn idx_of(p: Position) -> int {
    (p.row - 1) * 8 + (p.column - 1)
}

/// The square stored in vector slot `i`.
pub open spec fn pos_of(i: int) -> Position {
    Position { row: (i / 8 + 1) as usize, column: (i % 8 + 1) as usize }
}

pub proof fn lemma_idx_of(p: Position)
    requires
        in_bounds(p),
    ensures
        0 <= idx_of(p) < 64,
        pos_of(idx_of(p)) == p,
{
}

pub proof fn lemma_pos_of(i: int)
    requires
        0 <= i < 64,
    ensures
        in_bounds(pos_of(i)),
        idx_of(pos_of(i)) == i,
{
}

/// The board: a mapping from squares to at most one piece each.
pub struct Board {
    grid: Vec<Option<Piece>>,
}

impl View for Board {
    type V = Map<Position, Piece>;

    /// The occupied squares and the pieces standing on them.
    closed spec fn view(&self) -> Map<Position, Piece> {
        Map::new(
            |p: Position| in_bounds(p) && self.grid@[idx_of(p)] is Some,
            |p: Position| self.grid@[idx_of(p)]->0,
        )
    }
}

impl Board {
    /// Representation invariant: 64 slots, and each stored piece records the
    /// square it is stored on.
    pub closed spec fn wf(&self) -> bool {
        &&& self.grid@.len() == 64
        &&& forall|i: int| 0 <= i < 64 ==> match #[trigger] self.grid@[i] {
            Some(pc) => pc.position == pos_of(i),
            None => true,
        }
    }

    /// A well-formed board presents a well-formed mapping: every occupied
    /// square lies on the board and holds a piece that records that square.
    pub broadcast proof fn lemma_wf_board_ok(&self)
        requires
            #[trigger] self.wf(),
        ensures
            board_ok(self@),
    {
        assert forall|p: Position| #[trigger] self@.dom().contains(p) implies in_bounds(p)
            && self@[p].position == p by {
            lemma_idx_of(p);
        }
    }

    /// Reads the piece standing on `p`, if any.  Squares outside the board
    /// are reported empty.
    pub fn piece_at(&self, p: Position) -> (r: Option<Piece>)
        requires
            self.wf(),
        ensures
            r == if occ(self@, p) {
                Some(self@[p])
            } else {
                None::<Piece>
            },
    {
        if p.row < 1 || p.row > 8 || p.column < 1 || p.column > 8 {
            return None;
        }
        let i: usize = (p.row - 1) * 8 + (p.column - 1);
        self.grid[i]
    }

    /// Writes `v` onto square `p`.
    fn write_square(&mut self, p: Position, v: Option<Piece>)
        requires
            old(self).wf(),
            in_bounds(p),
            v is Some ==> v->0.position == p,
        ensures
            final(self).wf(),
            final(self)@ == match v {
                Some(pc) => old(self)@.insert(p, pc),
                None => old(self)@.remove(p),
            },
    {
        let i: usize = (p.row - 1) * 8 + (p.column - 1);
        self.grid.set(i, v);
        proof {
            lemma_idx_of(p);
            assert forall|q: Position| in_bounds(q) && #[trigger] idx_of(q) == idx_of(p)
                implies q == p by {
                lemma_idx_of(q);
                lemma_idx_of(p);
            }
            match v {
                Some(pc) => {
                    assert(final(self)@ =~= old(self)@.insert(p, pc));
                },
                None => {
                    assert(final(self)@ =~= old(self)@.remove(p));
                },
            }
        }
    }

    /// Checks that each stored piece records the square it stands on; the
    /// representation invariant makes the check vacuous.
    pub fn test_positions(&self)
        requires
            self.wf(),
    {
        let mut i: usize = 0;
        while i < 64
            invariant
                self.wf(),
                i <= 64,
            decreases 64 - i,
        {
            let square: Option<Piece> = self.grid[i];
            if let Some(pc) = square {
                proof {
                    lemma_pos_of(i as int);
                }
                assert(pc.position == pos_of(i as int));
            }
            i = i + 1;
        }
    }

    /// What vector slot `i` holds at the start of the game.
    spec fn initial_cell(i: int) -> Option<Piece> {
        if initially_occupied(pos_of(i)) {
            Some(initial_piece(pos_of(i)))
        } else {
            None
        }
    }

    /// The standard 32-piece starting position: back ranks on rows 1 and 8,
    /// pawns on rows 2 and 7; Kings and Rooks start castling-eligible.
    pub fn new() -> (r: Self)
        ensures
            r.wf(),
            board_ok(r@),
            r@ == initial_board(),
    {
        broadcast use Board::lemma_wf_board_ok;

        let mut grid: Vec<Option<Piece>> = Vec::new();
        let mut i: usize = 0;
        while i < 64
            invariant
                grid@.len() == i,
                i <= 64,
                forall|j: int| 0 <= j < i ==> grid@[j] == Self::initial_cell(j),
            decreases 64 - i,
        {
            let row: usize = i / 8 + 1;
            let column: usize = i % 8 + 1;
            let cell: Option<Piece> = if row == 1 || row == 8 {
                let piece_type: PieceType = match column {
                    1 | 8 => PieceType::Rook,
                    2 | 7 => PieceType::Knight,
                    3 | 6 => PieceType::Bishop,
                    4 => PieceType::Queen,
                    _ => PieceType::King,
                };
                let special: bool = match piece_type {
                    PieceType::King | PieceType::Rook => true,
                    _ => false,
                };
                let colour: PieceColour = if row == 1 {
                    PieceColour::White
                } else {
                    PieceColour::Black
                };
                Some(Piece::new(piece_type, column, row, colour, special))
            } else if row == 2 {
                Some(Piece::new(PieceType::Pawn, column, 2, PieceColour::White, false))
            } else if row == 7 {
                Some(Piece::new(PieceType::Pawn, column, 7, PieceColour::Black, false))
            } else {
                None
            };
            grid.push(cell);
            assert(grid@[i as int] == Self::initial_cell(i as int));
            i = i + 1;
        }
        let board = Board { grid };
        proof {
            assert forall|j: int| 0 <= j < 64 implies match #[trigger] board.grid@[j] {
                Some(pc) => pc.position == pos_of(j),
                None => true,
            } by {
                assert(board.grid@[j] == Self::initial_cell(j));
                lemma_pos_of(j);
            }
            assert forall|p: Position| true implies #[trigger] initial_board().dom().contains(p)
                == board@.dom().contains(p)
                && (initial_board().dom().contains(p) ==> initial_board()[p] == board@[p]) by {
                if in_bounds(p) {
                    lemma_idx_of(p);
                    assert(board.grid@[idx_of(p)] == Self::initial_cell(idx_of(p)));
                }
            }
            assert(board@ =~= initial_board());
        }
        board
    }

    /// What a piece of colour `ally_colour` finds on the square at the given
    /// coordinates (which may lie off the board).
    fn validate_square(&self, row: i32, column: i32, ally_colour: PieceColour)
        -> (r: SquareStatus)
        requires
            self.wf(),
        ensures
            !(1 <= row <= 8 && 1 <= column <= 8) ==> r == SquareStatus::OutsideBounds,
            (1 <= row <= 8 && 1 <= column <= 8) ==> ({
                let p = Position { row: row as usize, column: column as usize };
                &&& (r == SquareStatus::Free <==> !occ(self@, p))
                &&& (r == SquareStatus::Capturable <==> occ(self@, p)
                    && self@[p].colour != ally_colour)
                &&& (r == SquareStatus::Occupied <==> occ(self@, p)
                    && self@[p].colour == ally_colour)
            }),
    {
        if column > 8 || column < 1 {
            SquareStatus::OutsideBounds
        } else if row > 8 || row < 1 {
            SquareStatus::OutsideBounds
        } else {
            match self.piece_at(Position::new(row as usize, column as usize)) {
                Some(piece) => {
                    if piece.colour == ally_colour {
                        SquareStatus::Occupied
                    } else {
                        SquareStatus::Capturable
                    }
                },
                None => SquareStatus::Free,
            }
        }
    }

    /// Walks one ray from the piece's square, collecting empty squares until
    /// the edge of the board, a friendly piece (excluded) or an enemy piece
    /// (included) stops the walk.
    fn slide_dir(&self, moves: &mut Vec<Position>, piece: &Piece, dr: i32, dc: i32)
        requires
            self.wf(),
            in_bounds(piece.position),
            -1 <= dr <= 1,
            -1 <= dc <= 1,
            !(dr == 0 && dc == 0),
        ensures
            forall|t: Position| #[trigger] final(moves)@.contains(t)
                <==> old(moves)@.contains(t)
                    || slide_target(self@, *piece, dr as int, dc as int, t),
    {
        let a = piece.position;
        let mut cur: Position = a;
        loop
            invariant
                self.wf(),
                in_bounds(a),
                a == piece.position,
                -1 <= dr <= 1,
                -1 <= dc <= 1,
                !(dr == 0 && dc == 0),
                cur == a || (ray_hit(a, dr as int, dc as int, cur) && in_bounds(cur)
                    && !occ(self@, cur)),
                forall|q: Position| #[trigger] on_open_segment(a, q, cur)
                    ==> in_bounds(q) && !occ(self@, q),
                forall|t: Position| #[trigger] moves@.contains(t)
                    <==> old(moves)@.contains(t) || on_open_segment(a, t, cur)
                        || (t == cur && t != a),
            decreases 16 - dist(cur.row as int, a.row as int)
                - dist(cur.column as int, a.column as int),
        {
            let next_row: i32 = cur.row as i32 + dr;
            let next_col: i32 = cur.column as i32 + dc;
            match self.validate_square(next_row, next_col, piece.colour) {
                SquareStatus::OutsideBounds | SquareStatus::Occupied => {
                    proof {
                        assert forall|t: Position| #[trigger] moves@.contains(t)
                            <==> old(moves)@.contains(t)
                                || slide_target(self@, *piece, dr as int, dc as int, t) by {
                            lemma_slide_stop(self@, *piece, dr as int, dc as int, cur, t);
                        }
                    }
                    return;
                },
                SquareStatus::Capturable => {
                    let next = Position::new(next_row as usize, next_col as usize);
                    moves.push(next);
                    proof {
                        assert forall|t: Position| #[trigger] moves@.contains(t)
                            <==> old(moves)@.contains(t)
                                || slide_target(self@, *piece, dr as int, dc as int, t) by {
                            lemma_slide_capture(
                                self@, *piece, dr as int, dc as int, cur, next, t,
                            );
                        }
                    }
                    return;
                },
                SquareStatus::Free => {
                    let next = Position::new(next_row as usize, next_col as usize);
                    moves.push(next);
                    proof {
                        assert forall|q: Position| #[trigger] on_open_segment(a, q, next)
                            implies in_bounds(q) && !occ(self@, q) by {
                            assert(on_open_segment(a, q, cur) || q == cur);
                        }
                        assert forall|t: Position| #[trigger] moves@.contains(t)
                            <==> old(moves)@.contains(t) || on_open_segment(a, t, next)
                                || (t == next && t != a) by {
                            assert(on_open_segment(a, t, next)
                                <==> on_open_segment(a, t, cur) || (t == cur && t != a));
                        }
                    }
                    cur = next;
                },
            }
        }
    }

    /// The squares a rook on `piece.position` can slide to.
    fn find_rook_moves(&self, moves: &mut Vec<Position>, piece: &Piece)
        requires
            self.wf(),
            in_bounds(piece.position),
        ensures
            forall|t: Position| #[trigger] final(moves)@.contains(t)
                <==> old(moves)@.contains(t) || rook_move(self@, *piece, t),
    {
        self.slide_dir(moves, piece, 1, 0);
        self.slide_dir(moves, piece, -1, 0);
        self.slide_dir(moves, piece, 0, 1);
        self.slide_dir(moves, piece, 0, -1);
        proof {
            assert forall|t: Position| #[trigger] final(moves)@.contains(t)
                <==> old(moves)@.contains(t) || rook_move(self@, *piece, t) by {
                lemma_rook_cover(self@, *piece, t);
            }
        }
    }

    /// The squares a bishop on `piece.position` can slide to.
    fn find_bishop_moves(&self, moves: &mut Vec<Position>, piece: &Piece)
        requires
            self.wf(),
            in_bounds(piece.position),
        ensures
            forall|t: Position| #[trigger] final(moves)@.contains(t)
                <==> old(moves)@.contains(t) || bishop_move(self@, *piece, t),
    {
        self.slide_dir(moves, piece, 1, 1);
        self.slide_dir(moves, piece, 1, -1);
        self.slide_dir(moves, piece, -1, 1);
        self.slide_dir(moves, piece, -1, -1);
        proof {
            assert forall|t: Position| #[trigger] final(moves)@.contains(t)
                <==> old(moves)@.contains(t) || bishop_move(self@, *piece, t) by {
                lemma_bishop_cover(self@, *piece, t);
            }
        }
    }

    /// The squares a queen on `piece.position` can slide to: the union of
    /// the rook's and the bishop's.
    fn find_queen_moves(&self, moves: &mut Vec<Position>, piece: &Piece)
        requires
            self.wf(),
            in_bounds(piece.position),
        ensures
            forall|t: Position| #[trigger] final(moves)@.contains(t)
                <==> old(moves)@.contains(t) || queen_move(self@, *piece, t),
    {
        self.find_bishop_moves(moves, piece);
        self.find_rook_moves(moves, piece);
    }

    /// Collects the square one fixed offset away, if it can be stepped onto.
    fn push_offset(&self, moves: &mut Vec<Position>, piece: &Piece, dr: i32, dc: i32)
        requires
            self.wf(),
            in_bounds(piece.position),
            -2 <= dr <= 2,
            -2 <= dc <= 2,
        ensures
            forall|t: Position| #[trigger] final(moves)@.contains(t)
                <==> old(moves)@.contains(t)
                    || offset_target(self@, *piece, dr as int, dc as int, t),
    {
        let r: i32 = piece.position.row as i32 + dr;
        let c: i32 = piece.position.column as i32 + dc;
        match self.validate_square(r, c, piece.colour) {
            SquareStatus::Capturable | SquareStatus::Free => {
                moves.push(Position::new(r as usize, c as usize));
            },
            _ => {},
        }
    }

    /// The squares a King on `piece.position` can step to (castling aside).
    fn find_king_moves(&self, moves: &mut Vec<Position>, piece: &Piece)
        requires
            self.wf(),
            in_bounds(piece.position),
        ensures
            forall|t: Position| #[trigger] final(moves)@.contains(t)
                <==> old(moves)@.contains(t) || king_move(self@, *piece, t),
    {
        self.push_offset(moves, piece, 1, 0);
        self.push_offset(moves, piece, 0, 1);
        self.push_offset(moves, piece, -1, 0);
        self.push_offset(moves, piece, 0, -1);
        self.push_offset(moves, piece, 1, 1);
        self.push_offset(moves, piece, 1, -1);
        self.push_offset(moves, piece, -1, 1);
        self.push_offset(moves, piece, -1, -1);
        proof {
            assert forall|t: Position| #[trigger] final(moves)@.contains(t)
                <==> old(moves)@.contains(t) || king_move(self@, *piece, t) by {
                lemma_king_cover(self@, *piece, t);
            }
        }
    }

    /// The squares a Knight on `piece.position` can jump to.
    fn find_knight_moves(&self, moves: &mut Vec<Position>, piece: &Piece)
        requires
            self.wf(),
            in_bounds(piece.position),
        ensures
            forall|t: Position| #[trigger] final(moves)@.contains(t)
                <==> old(moves)@.contains(t) || knight_move(self@, *piece, t),
    {
        self.push_offset(moves, piece, 2, 1);
        self.push_offset(moves, piece, 2, -1);
        self.push_offset(moves, piece, 1, 2);
        self.push_offset(moves, piece, 1, -2);
        self.push_offset(moves, piece, -1, 2);
        self.push_offset(moves, piece, -1, -2);
        self.push_offset(moves, piece, -2, 1);
        self.push_offset(moves, piece, -2, -1);
        proof {
            assert forall|t: Position| #[trigger] final(moves)@.contains(t)
                <==> old(moves)@.contains(t) || knight_move(self@, *piece, t) by {
                lemma_knight_cover(self@, *piece, t);
            }
        }
    }

    /// Whether the pawn may advance two squares: it stands on its home row
    /// and both the intervening square and the destination are empty.
    fn pawn_has_jump(&self, pawn: &Piece) -> (r: bool)
        requires
            self.wf(),
            in_bounds(pawn.position),
        ensures
            r == pawn_jump(
                self@,
                *pawn,
                Position {
                    row: (pawn.position.row + 2 * pawn_dir(pawn.colour)) as usize,
                    column: pawn.position.column,
                },
            ),
    {
        let row: i32 = pawn.position.row as i32;
        let col: i32 = pawn.position.column as i32;
        match pawn.colour {
            PieceColour::White => {
                if pawn.position.row != 2 {
                    return false;
                }
                let mid = self.validate_square(row + 1, col, pawn.colour);
                let dest = self.validate_square(row + 2, col, pawn.colour);
                matches!(mid, SquareStatus::Free) && matches!(dest, SquareStatus::Free)
            },
            PieceColour::Black => {
                if pawn.position.row != 7 {
                    return false;
                }
                let mid = self.validate_square(row - 1, col, pawn.colour);
                let dest = self.validate_square(row - 2, col, pawn.colour);
                matches!(mid, SquareStatus::Free) && matches!(dest, SquareStatus::Free)
            },
        }
    }

    /// Whether the pawn may capture en passant toward the lower columns.
    fn pawn_has_en_passant_left(&self, pawn: &Piece, step: i32) -> (r: bool)
        requires
            self.wf(),
            in_bounds(pawn.position),
            step as int == pawn_dir(pawn.colour),
        ensures
            r == ({
                let dest = Position {
                    row: (pawn.position.row + pawn_dir(pawn.colour)) as usize,
                    column: (pawn.position.column - 1) as usize,
                };
                &&& pawn.position.column >= 2
                &&& in_bounds(dest)
                &&& pawn_en_passant(self@, *pawn, dest)
            }),
    {
        if pawn.position.column < 2 {
            return false;
        }
        let dest_row: i32 = pawn.position.row as i32 + step;
        let dest_col: i32 = pawn.position.column as i32 - 1;
        match self.validate_square(dest_row, dest_col, pawn.colour) {
            SquareStatus::Free => {},
            _ => {
                return false;
            },
        }
        let beside = Position::new(pawn.position.row, pawn.position.column - 1);
        match self.piece_at(beside) {
            Some(piece) => {
                matches!(piece.piece_type, PieceType::Pawn)
                    && piece.colour != pawn.colour && piece.en_passant
            },
            None => false,
        }
    }

    /// Whether the pawn may capture en passant toward the higher columns.
    fn pawn_has_en_passant_right(&self, pawn: &Piece, step: i32) -> (r: bool)
        requires
            self.wf(),
            in_bounds(pawn.position),
            step as int == pawn_dir(pawn.colour),
        ensures
            r == ({
                let dest = Position {
                    row: (pawn.position.row + pawn_dir(pawn.colour)) as usize,
                    column: (pawn.position.column + 1) as usize,
                };
                &&& pawn.position.column <= 7
                &&& in_bounds(dest)
                &&& pawn_en_passant(self@, *pawn, dest)
            }),
    {
        if pawn.position.column > 7 {
            return false;
        }
        let dest_row: i32 = pawn.position.row as i32 + step;
        let dest_col: i32 = pawn.position.column as i32 + 1;
        match self.validate_square(dest_row, dest_col, pawn.colour) {
            SquareStatus::Free => {},
            _ => {
                return false;
            },
        }
        let beside = Position::new(pawn.position.row, pawn.position.column + 1);
        match self.piece_at(beside) {
            Some(piece) => {
                matches!(piece.piece_type, PieceType::Pawn)
                    && piece.colour != pawn.colour && piece.en_passant
            },
            None => false,
        }
    }

    /// The squares a pawn on `piece.position` can move to: single or double
    /// advances onto empty squares, diagonal captures, and en passant.
    fn find_pawn_moves(&self, moves: &mut Vec<Position>, piece: &Piece)
        requires
            self.wf(),
            in_bounds(piece.position),
        ensures
            forall|t: Position| #[trigger] final(moves)@.contains(t)
                <==> old(moves)@.contains(t) || pawn_move(self@, *piece, t),
    {
        let row: usize = piece.position.row;
        let col: usize = piece.position.column;
        match (row, piece.colour) {
            (8, PieceColour::White) => {
                return;
            },
            (1, PieceColour::Black) => {
                return;
            },
            _ => {},
        }
        let step: i32 = match piece.colour {
            PieceColour::White => 1,
            PieceColour::Black => -1,
        };
        let fwd_row: i32 = row as i32 + step;

        if let SquareStatus::Free = self.validate_square(fwd_row, col as i32, piece.colour) {
            moves.push(Position::new(fwd_row as usize, col));
        }
        if self.pawn_has_jump(piece) {
            moves.push(Position::new((row as i32 + 2 * step) as usize, col));
        }
        if self.pawn_has_en_passant_left(piece, step) {
            moves.push(Position::new(fwd_row as usize, col - 1));
        }
        if self.pawn_has_en_passant_right(piece, step) {
            moves.push(Position::new(fwd_row as usize, col + 1));
        }
        if let SquareStatus::Capturable = self.validate_square(
            fwd_row,
            col as i32 - 1,
            piece.colour,
        ) {
            moves.push(Position::new(fwd_row as usize, col - 1));
        }
        if let SquareStatus::Capturable = self.validate_square(
            fwd_row,
            col as i32 + 1,
            piece.colour,
        ) {
            moves.push(Position::new(fwd_row as usize, col + 1));
        }
    }

    /// All pseudo-legal destinations of `piece`, by piece type.
    fn find_moves(&self, piece: &Piece) -> (moves: Vec<Position>)
        requires
            self.wf(),
            in_bounds(piece.position),
        ensures
            forall|t: Position| #[trigger] moves@.contains(t)
                <==> pseudo_legal(self@, *piece, t),
    {
        let mut moves: Vec<Position> = Vec::new();
        match piece.piece_type {
            PieceType::Bishop => self.find_bishop_moves(&mut moves, piece),
            PieceType::King => self.find_king_moves(&mut moves, piece),
            PieceType::Queen => self.find_queen_moves(&mut moves, piece),
            PieceType::Knight => self.find_knight_moves(&mut moves, piece),
            PieceType::Pawn => self.find_pawn_moves(&mut moves, piece),
            PieceType::Rook => self.find_rook_moves(&mut moves, piece),
        }
        moves
    }

    /// Vector slot `j` holds a piece of colour `c` that can reach `t`.
    spec fn cell_attacks(&self, j: int, c: PieceColour, t: Position) -> bool {
        &&& 0 <= j < 64
        &&& self.grid@[j] is Some
        &&& self.grid@[j]->0.colour == c
        &&& pseudo_legal(self@, self.grid@[j]->0, t)
    }

    /// Every pseudo-legal destination of every piece of colour `colour`.
    fn find_all_moves(&self, colour: PieceColour) -> (moves: Vec<Position>)
        requires
            self.wf(),
        ensures
            forall|t: Position| #[trigger] moves@.contains(t) <==> attacks(self@, colour, t),
    {
        let mut moves: Vec<Position> = Vec::new();
        let mut i: usize = 0;
        while i < 64
            invariant
                self.wf(),
                i <= 64,
                forall|t: Position| #[trigger] moves@.contains(t)
                    <==> exists|j: int| j < i && #[trigger] self.cell_attacks(j, colour, t),
            decreases 64 - i,
        {
            let cell: Option<Piece> = self.grid[i];
            if let Some(piece) = cell {
                if piece.colour == colour {
                    proof {
                        lemma_pos_of(i as int);
                    }
                    let new_moves = self.find_moves(&piece);
                    let mut k: usize = 0;
                    while k < new_moves.len()
                        invariant
                            k <= new_moves.len(),
                            forall|t: Position| #[trigger] moves@.contains(t)
                                <==> (exists|j: int| j < i
                                        && #[trigger] self.cell_attacks(j, colour, t))
                                    || new_moves@.subrange(0, k as int).contains(t),
                        decreases new_moves.len() - k,
                    {
                        moves.push(new_moves[k]);
                        proof {
                            assert(new_moves@.subrange(0, k + 1 as int)
                                =~= new_moves@.subrange(0, k as int).push(new_moves@[k as int]));
                        }
                        k = k + 1;
                    }
                    proof {
                        assert(new_moves@.subrange(0, new_moves@.len() as int) =~= new_moves@);
                        assert forall|t: Position| #[trigger] moves@.contains(t)
                            <==> exists|j: int| j < i + 1
                                && #[trigger] self.cell_attacks(j, colour, t) by {
                            if moves@.contains(t) {
                                if new_moves@.contains(t) {
                                    assert(self.cell_attacks(i as int, colour, t));
                                }
                            }
                            if exists|j: int| j < i + 1 && #[trigger] self.cell_attacks(j, colour, t) {
                                let j = choose|j: int| j < i + 1
                                    && #[trigger] self.cell_attacks(j, colour, t);
                                if j == i {
                                    assert(new_moves@.contains(t));
                                }
                            }
                        }
                    }
                } else {
                    proof {
                        assert forall|t: Position| #[trigger] moves@.contains(t)
                            <==> exists|j: int| j < i + 1
                                && #[trigger] self.cell_attacks(j, colour, t) by {
                            if exists|j: int| j < i + 1 && #[trigger] self.cell_attacks(j, colour, t) {
                                let j = choose|j: int| j < i + 1
                                    && #[trigger] self.cell_attacks(j, colour, t);
                                assert(j < i || j == i);
                            }
                        }
                    }
                }
            } else {
                proof {
                    assert forall|t: Position| #[trigger] moves@.contains(t)
                        <==> exists|j: int| j < i + 1
                            && #[trigger] self.cell_attacks(j, colour, t) by {
                        if exists|j: int| j < i + 1 && #[trigger] self.cell_attacks(j, colour, t) {
                            let j = choose|j: int| j < i + 1
                                && #[trigger] self.cell_attacks(j, colour, t);
                            assert(j < i || j == i);
                        }
                    }
                }
            }
            i = i + 1;
        }
        proof {
            assert forall|t: Position| #[trigger] moves@.contains(t)
                <==> attacks(self@, colour, t) by {
                if moves@.contains(t) {
                    let j = choose|j: int| j < 64 && #[trigger] self.cell_attacks(j, colour, t);
                    lemma_pos_of(j);
                    let p = pos_of(j);
                    assert(occ(self@, p) && self@[p].colour == colour
                        && pseudo_legal(self@, self@[p], t));
                }
                if attacks(self@, colour, t) {
                    let p = choose|p: Position| #[trigger] occ(self@, p)
                        && self@[p].colour == colour && pseudo_legal(self@, self@[p], t);
                    lemma_idx_of(p);
                    assert(self.cell_attacks(idx_of(p), colour, t));
                }
            }
        }
        moves
    }

    /// Vector slot `j` holds the King of colour `c`.
    spec fn king_cell(&self, j: int, c: PieceColour) -> bool {
        &&& 0 <= j < 64
        &&& self.grid@[j] is Some
        &&& self.grid@[j]->0.piece_type == PieceType::King
        &&& self.grid@[j]->0.colour == c
    }

    /// The square the King of colour `colour` stands on.
    fn find_king_position(&self, colour: PieceColour) -> (r: Position)
        requires
            self.wf(),
            has_king(self@, colour),
        ensures
            is_king_at(self@, r, colour),
    {
        let mut i: usize = 0;
        while i < 64
            invariant
                self.wf(),
                has_king(self@, colour),
                i <= 64,
                forall|j: int| 0 <= j < i ==> !(#[trigger] self.king_cell(j, colour)),
            decreases 64 - i,
        {
            let cell: Option<Piece> = self.grid[i];
            if let Some(piece) = cell {
                if matches!(piece.piece_type, PieceType::King) && piece.colour == colour {
                    proof {
                        lemma_pos_of(i as int);
                    }
                    return piece.position;
                }
            }
            proof {
                assert(!self.king_cell(i as int, colour));
            }
            i = i + 1;
        }
        proof {
            let p = choose|p: Position| is_king_at(self@, p, colour);
            lemma_idx_of(p);
            assert(self.king_cell(idx_of(p), colour));
            assert(false);
        }
        vstd::pervasive::unreached()
    }

    /// Whether the King of `player` is attacked: its square lies among the
    /// enemy's pseudo-legal destinations.
    fn is_in_check(&self, player: PieceColour) -> (r: bool)
        requires
            self.wf(),
            king_unique(self@, player),
        ensures
            r == in_check(self@, player),
    {
        let king_position = self.find_king_position(player);
        let enemy_colour: PieceColour = match player {
            PieceColour::Black => PieceColour::White,
            PieceColour::White => PieceColour::Black,
        };
        let enemy_moves = self.find_all_moves(enemy_colour);
        proof {
            assert(is_king_at(self@, king_square(self@, player), player));
            assert(king_square(self@, player) == king_position);
        }
        Self::contains_position(&enemy_moves, king_position)
    }

    /// Whether the move just placed on `new_position` captured en passant:
    /// the moved piece is a pawn that changed column, yet nothing was
    /// removed from the destination square.
    fn move_was_en_passant(
        &self,
        new_position: Position,
        old_position: Position,
        removed_piece: &Option<Piece>,
    ) -> (r: bool)
        requires
            self.wf(),
            occ(self@, new_position),
        ensures
            r == (removed_piece is None
                && self@[new_position].piece_type == PieceType::Pawn
                && new_position.column != old_position.column),
    {
        if removed_piece.is_some() {
            return false;
        }
        let moved: Piece = self.piece_at(new_position).unwrap();
        if !matches!(moved.piece_type, PieceType::Pawn) {
            return false;
        }
        if new_position.column == old_position.column {
            return false;
        }
        true
    }

    /// Removes the pawn captured en passant: it stands beside the origin of
    /// the move, in the destination's column.  Must only be called after a
    /// pawn moved diagonally onto an empty square; returns the captured
    /// pawn.
    fn handle_en_passant(&mut self, new_position: Position, old_position: Position)
        -> (captured: Option<Piece>)
        requires
            old(self).wf(),
            in_bounds(new_position),
            in_bounds(old_position),
            new_position.column != old_position.column,
        ensures
            final(self).wf(),
            final(self)@ == old(self)@.remove(ep_victim_square(old_position, new_position)),
            captured == (if occ(old(self)@, ep_victim_square(old_position, new_position)) {
                Some(old(self)@[ep_victim_square(old_position, new_position)])
            } else {
                None::<Piece>
            }),
    {
        let victim_square = Position::new(old_position.row, new_position.column);
        let captured_pawn: Option<Piece> = self.piece_at(victim_square);
        self.write_square(victim_square, None);
        captured_pawn
    }

    /// Places the piece on `old_position` onto `new_position`: the origin is
    /// vacated, a captured occupant or en-passant victim is removed, and the
    /// moved piece's recorded square is updated.  Returns the removed piece.
    fn apply_move(&mut self, old_position: Position, new_position: Position)
        -> (removed: Option<Piece>)
        requires
            old(self).wf(),
            occ(old(self)@, old_position),
            pseudo_legal(old(self)@, old(self)@[old_position], new_position),
        ensures
            final(self).wf(),
            final(self)@ == specul_map(old(self)@, old_position, new_position),
            removed == removed_by_move(old(self)@, old_position, new_position),
    {
        proof {
            self.lemma_wf_board_ok();
            lemma_pseudo_legal_facts(self@, self@[old_position], new_position);
            if is_ep_capture(self@, old_position, new_position) {
                lemma_ep_move(self@, old_position, new_position);
            }
        }
        let mut piece_to_move: Piece = self.piece_at(old_position).unwrap();
        let mut removed_piece: Option<Piece> = self.piece_at(new_position);
        piece_to_move.position = new_position;
        self.write_square(old_position, None);
        self.write_square(new_position, Some(piece_to_move));
        if self.move_was_en_passant(new_position, old_position, &removed_piece) {
            removed_piece = self.handle_en_passant(new_position, old_position);
        }
        proof {
            assert(final(self)@ =~= specul_map(old(self)@, old_position, new_position));
        }
        removed_piece
    }

    /// Rolls a move back: returns the piece on `new_position` to
    /// `old_position` and reinserts the removed piece, if any.
    fn undo_move(
        &mut self,
        new_position: Position,
        old_position: Position,
        removed_piece: Option<Piece>,
    )
        requires
            old(self).wf(),
            occ(old(self)@, new_position),
            in_bounds(old_position),
            removed_piece is Some ==> in_bounds(removed_piece->0.position),
        ensures
            final(self).wf(),
            final(self)@ == ({
                let back = Piece { position: old_position, ..old(self)@[new_position] };
                let m1 = old(self)@.remove(new_position).insert(old_position, back);
                match removed_piece {
                    Some(rp) => m1.insert(rp.position, rp),
                    None => m1,
                }
            }),
    {
        let mut piece_to_move: Piece = self.piece_at(new_position).unwrap();
        piece_to_move.position = old_position;
        self.write_square(new_position, None);
        self.write_square(old_position, Some(piece_to_move));
        if let Some(removed) = removed_piece {
            self.write_square(removed.position, Some(removed));
        }
    }

    /// Whether playing the pseudo-legal move from `old_position` to
    /// `new_position` leaves the mover's King safe.  The move is applied
    /// speculatively, the King tested, and the board rolled back exactly.
    fn move_can_be_played(
        &mut self,
        old_position: Position,
        new_position: Position,
        colour: PieceColour,
    ) -> (r: bool)
        requires
            old(self).wf(),
            king_unique(old(self)@, colour),
            occ(old(self)@, old_position),
            old(self)@[old_position].colour == colour,
            pseudo_legal(old(self)@, old(self)@[old_position], new_position),
        ensures
            final(self).wf(),
            final(self)@ == old(self)@,
            r == !in_check(specul_map(old(self)@, old_position, new_position), colour),
    {
        proof {
            self.lemma_wf_board_ok();
            lemma_specul_king(self@, colour, old_position, new_position);
            lemma_specul_undo(self@, old_position, new_position);
            lemma_pseudo_legal_facts(self@, self@[old_position], new_position);
            if is_ep_capture(self@, old_position, new_position) {
                lemma_ep_move(self@, old_position, new_position);
            }
        }
        let mut valid: bool = true;
        let removed_piece = self.apply_move(old_position, new_position);
        if self.is_in_check(colour) {
            valid = false;
        }
        self.undo_move(new_position, old_position, removed_piece);
        valid
    }

    /// The pieces of `colour` and `piece_type` that stand on the starting
    /// row and column the request names (where it names them); `None` when
    /// no piece fits.
    fn find_moveable_pieces(
        &self,
        piece_type: PieceType,
        colour: PieceColour,
        movement: &Move,
    ) -> (r: Option<Vec<Piece>>)
        requires
            self.wf(),
            piece_type == movement.piece_type,
        ensures
            r is Some <==> some_candidate(self@, colour, *movement),
            r matches Some(v) ==> {
                &&& v@.len() >= 1
                &&& forall|k: int| 0 <= k < v@.len() ==> {
                    &&& occ(self@, (#[trigger] v@[k]).position)
                    &&& self@[v@[k].position] == v@[k]
                    &&& matches_request(v@[k], colour, *movement)
                }
                &&& forall|p: Position| #[trigger] candidate_at(self@, colour, *movement, p)
                    ==> exists|k: int| 0 <= k < v@.len() && (#[trigger] v@[k]).position == p
                &&& forall|k: int, l: int| 0 <= k < l < v@.len()
                    ==> (#[trigger] v@[k]).position != (#[trigger] v@[l]).position
            },
    {
        let mut pieces: Vec<Piece> = Vec::new();
        let mut i: usize = 0;
        while i < 64
            invariant
                self.wf(),
                piece_type == movement.piece_type,
                i <= 64,
                forall|k: int| 0 <= k < pieces@.len() ==> {
                    &&& occ(self@, (#[trigger] pieces@[k]).position)
                    &&& self@[pieces@[k].position] == pieces@[k]
                    &&& matches_request(pieces@[k], colour, *movement)
                    &&& idx_of(pieces@[k].position) < i
                },
                forall|p: Position| #[trigger] candidate_at(self@, colour, *movement, p)
                    && idx_of(p) < i
                    ==> exists|k: int| 0 <= k < pieces@.len()
                        && (#[trigger] pieces@[k]).position == p,
                forall|k: int, l: int| 0 <= k < l < pieces@.len()
                    ==> (#[trigger] pieces@[k]).position != (#[trigger] pieces@[l]).position,
            decreases 64 - i,
        {
            let cell: Option<Piece> = self.grid[i];
            if let Some(piece) = cell {
                proof {
                    lemma_pos_of(i as int);
                }
                let type_ok: bool = match (piece.piece_type, piece_type) {
                    (PieceType::King, PieceType::King) => true,
                    (PieceType::Queen, PieceType::Queen) => true,
                    (PieceType::Rook, PieceType::Rook) => true,
                    (PieceType::Bishop, PieceType::Bishop) => true,
                    (PieceType::Knight, PieceType::Knight) => true,
                    (PieceType::Pawn, PieceType::Pawn) => true,
                    _ => false,
                };
                let column_ok: bool = match movement.starting_column {
                    Some(column) => piece.position.column == column,
                    None => true,
                };
                let row_ok: bool = match movement.starting_row {
                    Some(row) => piece.position.row == row,
                    None => true,
                };
                let ghost pieces0 = pieces@;
                if type_ok && piece.colour == colour && column_ok && row_ok {
                    pieces.push(piece);
                }
                proof {
                    assert forall|p: Position| #[trigger] candidate_at(
                        self@, colour, *movement, p,
                    ) && idx_of(p) < i + 1
                        implies exists|k: int| 0 <= k < pieces@.len()
                            && (#[trigger] pieces@[k]).position == p by {
                        if idx_of(p) == i {
                            lemma_idx_of(p);
                            assert(self@[p] == piece);
                            assert(pieces@[pieces@.len() - 1] == piece);
                        } else {
                            let k = choose|k: int| 0 <= k < pieces0.len()
                                && (#[trigger] pieces0[k]).position == p;
                            assert(pieces@[k].position == p);
                        }
                    }
                }
            } else {
                proof {
                    lemma_pos_of(i as int);
                    assert forall|p: Position| #[trigger] candidate_at(
                        self@, colour, *movement, p,
                    ) && idx_of(p) < i + 1
                        implies exists|k: int| 0 <= k < pieces@.len()
                            && (#[trigger] pieces@[k]).position == p by {
                        if idx_of(p) == i {
                            lemma_idx_of(p);
                            assert(self.grid@[idx_of(p)] is Some);
                            assert(false);
                        }
                    }
                }
            }
            i = i + 1;
        }
        if pieces.len() == 0 {
            proof {
                assert forall|p: Position| !(#[trigger] candidate_at(self@, colour, *movement, p))
                    by {
                    if candidate_at(self@, colour, *movement, p) {
                        lemma_idx_of(p);
                    }
                }
            }
            None
        } else {
            proof {
                let p0 = pieces@[0].position;
                assert(candidate_at(self@, colour, *movement, p0));
            }
            Some(pieces)
        }
    }

    /// Whether the piece that just landed on `new_position` is a pawn that
    /// advanced two rows.
    fn move_was_pawn_jump(
        &self,
        new_position: Position,
        old_position: Position,
        colour: PieceColour,
    ) -> (r: bool)
        requires
            self.wf(),
            occ(self@, new_position),
            in_bounds(old_position),
        ensures
            r == (self@[new_position].piece_type == PieceType::Pawn
                && ((colour == PieceColour::White && new_position.row == old_position.row + 2)
                    || (colour == PieceColour::Black
                        && new_position.row + 2 == old_position.row))),
    {
        let moved: Piece = self.piece_at(new_position).unwrap();
        if !matches!(moved.piece_type, PieceType::Pawn) {
            return false;
        }
        match colour {
            PieceColour::White => {
                new_position.row == old_position.row + 2
            },
            PieceColour::Black => {
                new_position.row + 2 == old_position.row
            },
        }
    }

    /// Closes every pawn's en-passant window: the flag lasts exactly one
    /// ply.
    fn clear_pawn_flags(&mut self)
        requires
            old(self).wf(),
        ensures
            final(self).wf(),
            final(self)@ == Map::new(
                |p: Position| occ(old(self)@, p),
                |p: Position| flags_after(old(self)@[p], false, false),
            ),
    {
        let ghost g0 = self.grid@;
        let mut i: usize = 0;
        while i < 64
            invariant
                self.grid@.len() == 64,
                i <= 64,
                forall|j: int| 0 <= j < 64 ==> match #[trigger] self.grid@[j] {
                    Some(pc) => pc.position == pos_of(j),
                    None => true,
                },
                forall|j: int| i <= j < 64 ==> #[trigger] self.grid@[j] == g0[j],
                forall|j: int| 0 <= j < i ==> #[trigger] self.grid@[j] == match g0[j] {
                    Some(pc) => Some(flags_after(pc, false, false)),
                    None => None::<Piece>,
                },
            decreases 64 - i,
        {
            let cell: Option<Piece> = self.grid[i];
            if let Some(piece) = cell {
                if matches!(piece.piece_type, PieceType::Pawn) {
                    let cleared = Piece { en_passant: false, ..piece };
                    self.grid.set(i, Some(cleared));
                }
            }
            i = i + 1;
        }
        proof {
            assert forall|p: Position| true implies
                #[trigger] final(self)@.dom().contains(p) == occ(old(self)@, p)
                && (occ(old(self)@, p)
                    ==> final(self)@[p] == flags_after(old(self)@[p], false, false)) by {
                if in_bounds(p) {
                    lemma_idx_of(p);
                }
            }
            assert(final(self)@ =~= Map::new(
                |p: Position| occ(old(self)@, p),
                |p: Position| flags_after(old(self)@[p], false, false),
            ));
        }
    }

    /// Whether the request just committed leaves a pawn on the farthest
    /// rank, so that the caller owes a promotion.
    pub fn is_promotion_available(&self, colour: PieceColour, movement: &Move) -> (r: bool)
        requires
            self.wf(),
            occ(self@, movement.new_position),
        ensures
            r == (self@[movement.new_position].piece_type == PieceType::Pawn
                && movement.new_position.row == pawn_last_row(colour)),
    {
        let moved: Piece = self.piece_at(movement.new_position).unwrap();
        if !matches!(moved.piece_type, PieceType::Pawn) {
            false
        } else if matches!(colour, PieceColour::White) && movement.new_position.row == 8 {
            true
        } else if matches!(colour, PieceColour::Black) && movement.new_position.row == 1 {
            true
        } else {
            false
        }
    }

    /// Resolves a move request for `colour`.  The one piece that fits the
    /// request and can reach the target is selected (`MissingPiece`,
    /// `ImpossibleMove` and `AmbiguousMove` report the ways that can fail);
    /// the move is committed only if it leaves the mover's own King safe
    /// (`Checked`/`PiecePinned` otherwise, with the board unchanged), and
    /// the special-move flags are adjusted.  A pawn reaching the farthest
    /// rank reports `PromotionAvailable`.
    pub fn make_move(&mut self, colour: PieceColour, movement: &Move) -> (r: MoveResult)
        requires
            old(self).wf(),
            king_unique(old(self)@, colour),
        ensures
            final(self).wf(),
            board_ok(final(self)@),
            r == MoveResult::MissingPiece <==> !some_candidate(old(self)@, colour, *movement),
            r == MoveResult::ImpossibleMove <==> (some_candidate(old(self)@, colour, *movement)
                && !some_mover(old(self)@, colour, *movement)),
            r == MoveResult::AmbiguousMove <==> multiple_movers(old(self)@, colour, *movement),
            (r == MoveResult::MissingPiece || r == MoveResult::ImpossibleMove
                || r == MoveResult::AmbiguousMove || r == MoveResult::Checked
                || r == MoveResult::PiecePinned) ==> final(self)@ == old(self)@,
            unique_mover(old(self)@, colour, *movement) ==> ({
                let from = the_mover(old(self)@, colour, *movement);
                let to = movement.new_position;
                if in_check(specul_map(old(self)@, from, to), colour) {
                    &&& (r == MoveResult::Checked || r == MoveResult::PiecePinned)
                    &&& (r == MoveResult::Checked <==> (in_check(old(self)@, colour)
                        || movement.piece_type == PieceType::King))
                } else {
                    &&& final(self)@ == commit_map(old(self)@, from, to)
                    &&& r == if promotion_pending(old(self)@[from], to) {
                        MoveResult::PromotionAvailable(to)
                    } else {
                        MoveResult::Success
                    }
                }
            }),
    {
        broadcast use Board::lemma_wf_board_ok;

        let ghost m0 = self@;
        let started_in_check: bool = self.is_in_check(colour);

        // Which pieces fit the request at all?
        let pieces: Vec<Piece> = match self.find_moveable_pieces(
            movement.piece_type,
            colour,
            movement,
        ) {
            Some(p) => p,
            None => {
                proof {
                    assert(!some_mover(m0, colour, *movement)) by {
                        if some_mover(m0, colour, *movement) {
                            let p = choose|p: Position| mover_at(m0, colour, *movement, p);
                            assert(candidate_at(m0, colour, *movement, p));
                        }
                    }
                    assert(!multiple_movers(m0, colour, *movement)) by {
                        if multiple_movers(m0, colour, *movement) {
                            let (p, q) = choose|p: Position, q: Position| p != q
                                && #[trigger] mover_at(m0, colour, *movement, p)
                                && #[trigger] mover_at(m0, colour, *movement, q);
                            assert(candidate_at(m0, colour, *movement, p));
                        }
                    }
                    assert(!unique_mover(m0, colour, *movement));
                }
                return MoveResult::MissingPiece;
            },
        };

        // Exactly one of them must be able to reach the target.
        let mut found: bool = false;
        let mut piece_to_move: Piece = pieces[0];
        let mut idx: usize = 0;
        while idx < pieces.len()
            invariant
                self.wf(),
                self@ == m0,
                m0 == old(self)@,
                board_ok(m0),
                king_unique(m0, colour),
                pieces@.len() >= 1,
                idx <= pieces@.len(),
                forall|k: int| 0 <= k < pieces@.len() ==> {
                    &&& occ(m0, (#[trigger] pieces@[k]).position)
                    &&& m0[pieces@[k].position] == pieces@[k]
                    &&& matches_request(pieces@[k], colour, *movement)
                },
                forall|p: Position| #[trigger] candidate_at(m0, colour, *movement, p)
                    ==> exists|k: int| 0 <= k < pieces@.len()
                        && (#[trigger] pieces@[k]).position == p,
                forall|k: int, l: int| 0 <= k < l < pieces@.len()
                    ==> (#[trigger] pieces@[k]).position != (#[trigger] pieces@[l]).position,
                !found ==> forall|k: int| 0 <= k < idx
                    ==> !mover_at(m0, colour, *movement, (#[trigger] pieces@[k]).position),
                found ==> mover_at(m0, colour, *movement, piece_to_move.position),
                found ==> exists|k: int| 0 <= k < idx && #[trigger] pieces@[k] == piece_to_move,
                found ==> forall|k: int| 0 <= k < idx
                    && mover_at(m0, colour, *movement, (#[trigger] pieces@[k]).position)
                    ==> pieces@[k].position == piece_to_move.position,
            decreases pieces@.len() - idx,
        {
            let candidate: Piece = pieces[idx];
            let moves: Vec<Position> = self.find_moves(&candidate);
            if Self::contains_position(&moves, movement.new_position) {
                proof {
                    assert(mover_at(m0, colour, *movement, candidate.position));
                }
                if found {
                    proof {
                        let k = choose|k: int| 0 <= k < idx
                            && #[trigger] pieces@[k] == piece_to_move;
                        assert(piece_to_move.position != candidate.position);
                        assert(multiple_movers(m0, colour, *movement));
                        assert(some_candidate(m0, colour, *movement)) by {
                            assert(candidate_at(m0, colour, *movement, candidate.position));
                        }
                        assert(!unique_mover(m0, colour, *movement));
                    }
                    return MoveResult::AmbiguousMove;
                }
                found = true;
                piece_to_move = candidate;
            }
            idx = idx + 1;
        }

        if !found {
            proof {
                assert(!some_mover(m0, colour, *movement)) by {
                    if some_mover(m0, colour, *movement) {
                        let p = choose|p: Position| mover_at(m0, colour, *movement, p);
                        assert(candidate_at(m0, colour, *movement, p));
                        let k = choose|k: int| 0 <= k < pieces@.len()
                            && (#[trigger] pieces@[k]).position == p;
                        assert(!mover_at(m0, colour, *movement, pieces@[k].position));
                    }
                }
                assert(!multiple_movers(m0, colour, *movement)) by {
                    if multiple_movers(m0, colour, *movement) {
                        let (p, q) = choose|p: Position, q: Position| p != q
                            && #[trigger] mover_at(m0, colour, *movement, p)
                            && #[trigger] mover_at(m0, colour, *movement, q);
                    }
                }
                assert(some_candidate(m0, colour, *movement)) by {
                    assert(candidate_at(m0, colour, *movement, pieces@[0].position));
                }
                assert(!unique_mover(m0, colour, *movement));
            }
            return MoveResult::ImpossibleMove;
        }

        proof {
            assert(unique_mover(m0, colour, *movement)) by {
                assert(some_mover(m0, colour, *movement)) by {
                    assert(mover_at(m0, colour, *movement, piece_to_move.position));
                }
                assert forall|p: Position, q: Position|
                    mover_at(m0, colour, *movement, p) && mover_at(m0, colour, *movement, q)
                    implies p == q by {
                    assert(candidate_at(m0, colour, *movement, p));
                    let kp = choose|k: int| 0 <= k < pieces@.len()
                        && (#[trigger] pieces@[k]).position == p;
                    assert(pieces@[kp].position == piece_to_move.position);
                    assert(candidate_at(m0, colour, *movement, q));
                    let kq = choose|k: int| 0 <= k < pieces@.len()
                        && (#[trigger] pieces@[k]).position == q;
                    assert(pieces@[kq].position == piece_to_move.position);
                }
            }
            assert(!multiple_movers(m0, colour, *movement)) by {
                if multiple_movers(m0, colour, *movement) {
                    let (p, q) = choose|p: Position, q: Position| p != q
                        && #[trigger] mover_at(m0, colour, *movement, p)
                        && #[trigger] mover_at(m0, colour, *movement, q);
                }
            }
            assert(the_mover(m0, colour, *movement) == piece_to_move.position) by {
                assert(mover_at(m0, colour, *movement, the_mover(m0, colour, *movement)));
                assert(mover_at(m0, colour, *movement, piece_to_move.position));
            }
            assert(some_candidate(m0, colour, *movement)) by {
                assert(candidate_at(m0, colour, *movement, piece_to_move.position));
            }
        }

        let old_position: Position = piece_to_move.position;
        let to: Position = movement.new_position;
        proof {
            lemma_specul_king(m0, colour, old_position, to);
            lemma_specul_undo(m0, old_position, to);
            lemma_pseudo_legal_facts(m0, m0[old_position], to);
            if is_ep_capture(m0, old_position, to) {
                lemma_ep_move(m0, old_position, to);
            }
        }

        // Commit the move, then test the mover's King: if it is attacked,
        // roll the whole commit back.
        let removed_piece: Option<Piece> = self.apply_move(old_position, to);
        if self.is_in_check(colour) {
            self.undo_move(to, old_position, removed_piece);
            proof {
                assert(self@ == m0);
            }
            if started_in_check || matches!(movement.piece_type, PieceType::King) {
                return MoveResult::Checked;
            } else {
                return MoveResult::PiecePinned;
            }
        }

        // The move stands: close every pawn's en-passant window, then give
        // the moved piece its new flags.
        let ghost s_mid = self@;
        let was_jump: bool = self.move_was_pawn_jump(to, old_position, colour);
        self.clear_pawn_flags();
        let moved_piece: Piece = self.piece_at(to).unwrap();
        let updated = Piece { en_passant: was_jump, unmoved: false, ..moved_piece };
        self.write_square(to, Some(updated));
        proof {
            assert(was_jump == was_pawn_jump(m0[old_position], old_position, to));
            assert(self@ =~= commit_map(m0, old_position, to));
        }

        if self.is_promotion_available(colour, movement) {
            MoveResult::PromotionAvailable(to)
        } else {
            MoveResult::Success
        }
    }

    /// Whether castling toward `direction` is available to `colour`: the
    /// mover is not in check, King and rook are unmoved on their home
    /// squares, the squares between them are empty, and the squares the
    /// King passes through are not enemy-attacked.
    fn is_castle_available(&self, direction: &CastleDirection, colour: PieceColour)
        -> (r: bool)
        requires
            self.wf(),
            king_unique(self@, colour),
        ensures
            r == castle_ok(self@, colour, *direction),
    {
        if self.is_in_check(colour) {
            return false;
        }

        let row: usize = match colour {
            PieceColour::White => 1,
            PieceColour::Black => 8,
        };
        let home = Position::new(row, 5);
        let king: Piece = match self.piece_at(home) {
            Some(p) => p,
            None => {
                return false;
            },
        };
        if !matches!(king.piece_type, PieceType::King) || king.colour != colour
            || !king.unmoved {
            return false;
        }

        let corner = match direction {
            CastleDirection::KingSide => Position::new(row, 8),
            CastleDirection::QueenSide => Position::new(row, 1),
        };
        let rook: Piece = match self.piece_at(corner) {
            Some(p) => p,
            None => {
                return false;
            },
        };
        if !matches!(rook.piece_type, PieceType::Rook) || rook.colour != colour
            || !rook.unmoved {
            return false;
        }

        // Every square strictly between the King and the rook must be
        // empty.
        let first_column: usize = match direction {
            CastleDirection::KingSide => 6,
            CastleDirection::QueenSide => 2,
        };
        let last_column: usize = match direction {
            CastleDirection::KingSide => 7,
            CastleDirection::QueenSide => 4,
        };
        let mut column: usize = first_column;
        while column <= last_column
            invariant
                self.wf(),
                row == home_row(colour),
                king_home(colour) == (Position { row, column: 5 }),
                (first_column == 6 && last_column == 7
                    && rook_corner(colour, *direction) == (Position { row, column: 8 }))
                    || (first_column == 2 && last_column == 4
                        && rook_corner(colour, *direction) == (Position { row, column: 1 })),
                first_column <= column <= last_column + 1,
                forall|c: int| first_column <= c < column
                    ==> !#[trigger] occ(self@, Position { row, column: c as usize }),
            decreases last_column + 1 - column,
        {
            if self.piece_at(Position::new(row, column)).is_some() {
                proof {
                    assert(on_open_segment(
                        king_home(colour),
                        Position { row, column },
                        rook_corner(colour, *direction),
                    ));
                }
                return false;
            }
            column = column + 1;
        }
        proof {
            assert forall|q: Position| #[trigger] on_open_segment(
                king_home(colour), q, rook_corner(colour, *direction),
            ) implies !occ(self@, q) by {
                assert(q == Position { row, column: q.column });
                assert(!occ(self@, Position { row, column: q.column }));
            }
        }

        // Neither square the King passes through may be enemy-attacked.
        let enemy_colour: PieceColour = match colour {
            PieceColour::Black => PieceColour::White,
            PieceColour::White => PieceColour::Black,
        };
        let moves: Vec<Position> = self.find_all_moves(enemy_colour);
        let king_dest = match direction {
            CastleDirection::KingSide => Position::new(row, 7),
            CastleDirection::QueenSide => Position::new(row, 3),
        };
        let rook_dest = match direction {
            CastleDirection::KingSide => Position::new(row, 6),
            CastleDirection::QueenSide => Position::new(row, 4),
        };
        if Self::contains_position(&moves, king_dest) {
            return false;
        }
        if Self::contains_position(&moves, rook_dest) {
            return false;
        }
        true
    }

    /// Castles: the King moves two squares toward the rook and the rook
    /// lands just inside the King's new square; both lose their castling
    /// eligibility.  `ImpossibleMove` (board unchanged) when unavailable.
    pub fn castle(&mut self, colour: PieceColour, direction: CastleDirection)
        -> (r: MoveResult)
        requires
            old(self).wf(),
            king_unique(old(self)@, colour),
        ensures
            final(self).wf(),
            board_ok(final(self)@),
            !castle_ok(old(self)@, colour, direction) ==> r == MoveResult::ImpossibleMove
                && final(self)@ == old(self)@,
            castle_ok(old(self)@, colour, direction) ==> r == MoveResult::Success
                && final(self)@ == castled_map(old(self)@, colour, direction),
    {
        broadcast use Board::lemma_wf_board_ok;

        if !self.is_castle_available(&direction, colour) {
            return MoveResult::ImpossibleMove;
        }
        let ghost m0 = self@;
        let row: usize = match colour {
            PieceColour::White => 1,
            PieceColour::Black => 8,
        };
        let home = Position::new(row, 5);
        let corner = match direction {
            CastleDirection::KingSide => Position::new(row, 8),
            CastleDirection::QueenSide => Position::new(row, 1),
        };
        let king_dest = match direction {
            CastleDirection::KingSide => Position::new(row, 7),
            CastleDirection::QueenSide => Position::new(row, 3),
        };
        let rook_dest = match direction {
            CastleDirection::KingSide => Position::new(row, 6),
            CastleDirection::QueenSide => Position::new(row, 4),
        };
        let mut rook: Piece = self.piece_at(corner).unwrap();
        let mut king: Piece = self.piece_at(home).unwrap();
        king.unmoved = false;
        rook.unmoved = false;
        king.position = king_dest;
        rook.position = rook_dest;
        self.write_square(corner, None);
        self.write_square(home, None);
        self.write_square(king_dest, Some(king));
        self.write_square(rook_dest, Some(rook));
        proof {
            assert(self@ =~= castled_map(m0, colour, direction));
        }
        MoveResult::Success
    }

    /// Whether `player` still has a legal move: a castle, or a piece move
    /// that leaves its own King safe.
    fn has_valid_move(&mut self, player: PieceColour) -> (r: bool)
        requires
            old(self).wf(),
            king_unique(old(self)@, player),
        ensures
            final(self).wf(),
            final(self)@ == old(self)@,
            r == any_valid_move(old(self)@, player),
    {
        if self.is_castle_available(&CastleDirection::KingSide, player) {
            return true;
        }
        if self.is_castle_available(&CastleDirection::QueenSide, player) {
            return true;
        }
        proof {
            self.lemma_wf_board_ok();
        }
        let ghost m0 = self@;
        let mut i: usize = 0;
        while i < 64
            invariant
                self.wf(),
                self@ == m0,
                m0 == old(self)@,
                board_ok(m0),
                king_unique(m0, player),
                i <= 64,
                forall|j: int, t: Position| 0 <= j < i
                    ==> !(#[trigger] legal_move(m0, player, pos_of(j), t)),
            decreases 64 - i,
        {
            let cell: Option<Piece> = self.grid[i];
            if let Some(piece) = cell {
                if piece.colour == player {
                    proof {
                        lemma_pos_of(i as int);
                    }
                    let moves: Vec<Position> = self.find_moves(&piece);
                    let mut k: usize = 0;
                    while k < moves.len()
                        invariant
                            self.wf(),
                            self@ == m0,
                            m0 == old(self)@,
                            board_ok(m0),
                            king_unique(m0, player),
                            k <= moves@.len(),
                            0 <= i < 64,
                            self.grid@[i as int] == Some(piece),
                            piece.position == pos_of(i as int),
                            in_bounds(piece.position),
                            occ(m0, piece.position) && m0[piece.position] == piece
                                && piece.colour == player,
                            forall|t: Position| #[trigger] moves@.contains(t)
                                <==> pseudo_legal(m0, piece, t),
                            forall|l: int| 0 <= l < k
                                ==> !legal_move(m0, player, piece.position,
                                    #[trigger] moves@[l]),
                        decreases moves@.len() - k,
                    {
                        let target: Position = moves[k];
                        proof {
                            assert(moves@.contains(moves@[k as int]));
                        }
                        if self.move_can_be_played(piece.position, target, player) {
                            proof {
                                assert(legal_move(m0, player, piece.position, target));
                            }
                            return true;
                        }
                        k = k + 1;
                    }
                    proof {
                        assert forall|t: Position| true
                            implies !(#[trigger] legal_move(m0, player, pos_of(i as int), t))
                            by {
                            if legal_move(m0, player, pos_of(i as int), t) {
                                assert(moves@.contains(t));
                                let l = choose|l: int| 0 <= l < moves@.len()
                                    && moves@[l] == t;
                                assert(!legal_move(m0, player, piece.position, moves@[l]));
                            }
                        }
                    }
                } else {
                    proof {
                        lemma_pos_of(i as int);
                        assert forall|t: Position| true
                            implies !(#[trigger] legal_move(m0, player, pos_of(i as int), t))
                            by {
                            assert(m0[pos_of(i as int)] == piece);
                        }
                    }
                }
            } else {
                proof {
                    lemma_pos_of(i as int);
                    assert forall|t: Position| true
                        implies !(#[trigger] legal_move(m0, player, pos_of(i as int), t)) by {
                        assert(!occ(m0, pos_of(i as int)));
                    }
                }
            }
            i = i + 1;
        }
        proof {
            assert(!any_piece_move(m0, player)) by {
                if any_piece_move(m0, player) {
                    let (from, to) = choose|from: Position, to: Position|
                        #[trigger] legal_move(m0, player, from, to);
                    lemma_idx_of(from);
                    assert(!legal_move(m0, player, pos_of(idx_of(from)), to));
                }
            }
        }
        false
    }

    /// Stalemate: `player` is not in check yet has no legal move.
    pub fn is_stalemate(&mut self, player: PieceColour) -> (r: bool)
        requires
            old(self).wf(),
            king_unique(old(self)@, player),
        ensures
            final(self).wf(),
            final(self)@ == old(self)@,
            r == (!in_check(old(self)@, player) && !any_valid_move(old(self)@, player)),
    {
        if self.is_in_check(player) {
            return false;
        }
        if self.has_valid_move(player) {
            return false;
        }
        true
    }

    /// Checkmate: `player` is in check and has no legal move.
    pub fn is_mate(&mut self, player: PieceColour) -> (r: bool)
        requires
            old(self).wf(),
            king_unique(old(self)@, player),
        ensures
            final(self).wf(),
            final(self)@ == old(self)@,
            r == (in_check(old(self)@, player) && !any_valid_move(old(self)@, player)),
    {
        if !self.is_in_check(player) {
            return false;
        }
        if self.has_valid_move(player) {
            return false;
        }
        true
    }

    /// Replaces the piece on `position` with a fresh piece of `piece_type`
    /// and `colour`, both flags cleared.  The caller owes this exactly
    /// after `make_move` returned `PromotionAvailable(position)`.
    pub fn promote(&mut self, position: Position, colour: PieceColour, piece_type: PieceType)
        requires
            old(self).wf(),
            in_bounds(position),
        ensures
            final(self).wf(),
            board_ok(final(self)@),
            final(self)@ == old(self)@.insert(
                position,
                Piece {
                    piece_type,
                    position,
                    colour,
                    unmoved: false,
                    en_passant: false,
                },
            ),
    {
        broadcast use Board::lemma_wf_board_ok;

        let new_piece: Piece = Piece::new(piece_type, position.column, position.row, colour,
            false);
        self.write_square(position, Some(new_piece));
    }

    /// Every piece in play, for rendering and inspection.
    pub fn pieces(&self) -> (r: Vec<Piece>)
        requires
            self.wf(),
        ensures
            forall|pc: Piece| #[trigger] r@.contains(pc)
                <==> occ(self@, pc.position) && self@[pc.position] == pc,
    {
        let mut result: Vec<Piece> = Vec::new();
        let mut i: usize = 0;
        while i < 64
            invariant
                self.wf(),
                i <= 64,
                forall|pc: Piece| #[trigger] result@.contains(pc)
                    <==> exists|j: int| 0 <= j < i && #[trigger] self.grid@[j] == Some(pc),
            decreases 64 - i,
        {
            let cell: Option<Piece> = self.grid[i];
            if let Some(piece) = cell {
                result.push(piece);
            }
            proof {
                assert forall|pc: Piece| #[trigger] result@.contains(pc)
                    <==> exists|j: int| 0 <= j < i + 1 && #[trigger] self.grid@[j] == Some(pc)
                    by {
                    if exists|j: int| 0 <= j < i + 1 && #[trigger] self.grid@[j] == Some(pc) {
                        let j = choose|j: int| 0 <= j < i + 1
                            && #[trigger] self.grid@[j] == Some(pc);
                        assert(j < i || j == i);
                    }
                }
            }
            i = i + 1;
        }
        proof {
            assert forall|pc: Piece| #[trigger] result@.contains(pc)
                <==> occ(self@, pc.position) && self@[pc.position] == pc by {
                if result@.contains(pc) {
                    let j = choose|j: int| 0 <= j < 64 && #[trigger] self.grid@[j] == Some(pc);
                    lemma_pos_of(j);
                }
                if occ(self@, pc.position) && self@[pc.position] == pc {
                    lemma_idx_of(pc.position);
                    assert(self.grid@[idx_of(pc.position)] == Some(pc));
                }
            }
        }
        result
    }

    /// Whether `v` holds `p`.
    fn contains_position(v: &Vec<Position>, p: Position) -> (r: bool)
        ensures
            r == v@.contains(p),
    {
        let mut i: usize = 0;
        while i < v.len()
            invariant
                i <= v@.len(),
                forall|j: int| 0 <= j < i ==> v@[j] != p,
            decreases v@.len() - i,
        {
            if v[i] == p {
                return true;
            }
            i = i + 1;
        }
        false
    }
}

} // verus!
