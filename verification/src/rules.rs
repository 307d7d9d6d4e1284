//! The mathematical model of the chess rules.
//!
//! A board state is modelled as a finite map from squares to pieces.  The
//! spec functions here say which moves follow each piece's movement pattern
//! (pseudo-legal moves), when a side is in check, what a move does to the
//! board, and when castling is permitted.  The executable engine in
//! `board` is specified and verified against these definitions.

use vstd::prelude::*;
use crate::piece::{opponent, Piece, PieceColour, PieceType};
use crate::position::{in_bounds, Move, Position};
use crate::board::CastleDirection;

verus! {

/// Well-formed board state: every occupied square lies on the board and the
/// piece stored there records that square as its own position.
pub open spec fn board_ok(m: Map<Position, Piece>) -> bool {
    forall|p: Position| #[trigger] m.dom().contains(p) ==> in_bounds(p) && m[p].position == p
}

/// The square holds a piece.
pub open spec fn occ(m: Map<Position, Piece>, p: Position) -> bool {
    m.dom().contains(p)
}

/// The square may be moved onto by a piece of colour `c`: it lies on the
/// board and is not occupied by a piece of the same colour.
pub open spec fn target_open(m: Map<Position, Piece>, p: Position, c: PieceColour) -> bool {
    in_bounds(p) && !(occ(m, p) && m[p].colour == c)
}

pub open spec fn strictly_between(x: int, a: int, b: int) -> bool {
    (a < x && x < b) || (b < x && x < a)
}

/// The distance between two coordinates.
pub open spec fn dist(x: int, y: int) -> int {
    if x >= y { x - y } else { y - x }
}

/// `q` lies strictly between `a` and `b` on a shared rank, file or diagonal.
pub open spec fn on_open_segment(a: Position, q: Position, b: Position) -> bool {
    ||| (a.row == b.row && q.row == a.row
        && strictly_between(q.column as int, a.column as int, b.column as int))
    ||| (a.column == b.column && q.column == a.column
        && strictly_between(q.row as int, a.row as int, b.row as int))
    ||| (a.row != b.row && b.row - a.row == b.column - a.column
        && q.row - a.row == q.column - a.column
        && strictly_between(q.row as int, a.row as int, b.row as int))
    ||| (a.row != b.row && b.row - a.row == a.column - b.column
        && q.row - a.row == a.column - q.column
        && strictly_between(q.row as int, a.row as int, b.row as int))
}

/// No piece stands strictly between `a` and `b`.
pub open spec fn path_clear(m: Map<Position, Piece>, a: Position, b: Position) -> bool {
    forall|q: Position| #[trigger] on_open_segment(a, q, b) ==> !occ(m, q)
}

/// `a` and `b` share a rank or a file.
pub open spec fn rook_path(a: Position, b: Position) -> bool {
    a != b && (a.row == b.row || a.column == b.column)
}

/// `a` and `b` share a diagonal.
pub open spec fn bishop_path(a: Position, b: Position) -> bool {
    a != b && (b.row - a.row == b.column - a.column || b.row - a.row == a.column - b.column)
}

pub open spec fn rook_move(m: Map<Position, Piece>, pc: Piece, b: Position) -> bool {
    rook_path(pc.position, b) && target_open(m, b, pc.colour) && path_clear(m, pc.position, b)
}

pub open spec fn bishop_move(m: Map<Position, Piece>, pc: Piece, b: Position) -> bool {
    bishop_path(pc.position, b) && target_open(m, b, pc.colour) && path_clear(m, pc.position, b)
}

pub open spec fn queen_move(m: Map<Position, Piece>, pc: Piece, b: Position) -> bool {
    rook_move(m, pc, b) || bishop_move(m, pc, b)
}

pub open spec fn knight_jump(a: Position, b: Position) -> bool {
    ||| (dist(b.row as int, a.row as int) == 2 && dist(b.column as int, a.column as int) == 1)
    ||| (dist(b.row as int, a.row as int) == 1 && dist(b.column as int, a.column as int) == 2)
}

pub open spec fn knight_move(m: Map<Position, Piece>, pc: Piece, b: Position) -> bool {
    knight_jump(pc.position, b) && target_open(m, b, pc.colour)
}

pub open spec fn king_step(a: Position, b: Position) -> bool {
    a != b && dist(b.row as int, a.row as int) <= 1 && dist(b.column as int, a.column as int) <= 1
}

pub open spec fn king_move(m: Map<Position, Piece>, pc: Piece, b: Position) -> bool {
    king_step(pc.position, b) && target_open(m, b, pc.colour)
}

/// The direction a pawn of colour `c` advances in: White up the rows, Black
/// down.
pub open spec fn pawn_dir(c: PieceColour) -> int {
    match c {
        PieceColour::White => 1,
        PieceColour::Black => -1,
    }
}

/// The row a pawn of colour `c` starts on.
pub open spec fn pawn_home_row(c: PieceColour) -> int {
    match c {
        PieceColour::White => 2,
        PieceColour::Black => 7,
    }
}

/// The farthest row for a pawn of colour `c`, where promotion takes place.
pub open spec fn pawn_last_row(c: PieceColour) -> int {
    match c {
        PieceColour::White => 8,
        PieceColour::Black => 1,
    }
}

/// A single advance onto an empty square.
pub open spec fn pawn_advance(m: Map<Position, Piece>, pc: Piece, b: Position) -> bool {
    &&& b.row == pc.position.row + pawn_dir(pc.colour)
    &&& b.column == pc.position.column
    &&& !occ(m, b)
}

/// A two-square advance from the home row; the intervening square and the
/// destination must both be empty.
pub open spec fn pawn_jump(m: Map<Position, Piece>, pc: Piece, b: Position) -> bool {
    &&& pc.position.row == pawn_home_row(pc.colour)
    &&& b.row == pc.position.row + 2 * pawn_dir(pc.colour)
    &&& b.column == pc.position.column
    &&& !occ(m, Position {
        row: (pc.position.row + pawn_dir(pc.colour)) as usize,
        column: pc.position.column,
    })
    &&& !occ(m, b)
}

/// A diagonal step, one row ahead and one column aside.
pub open spec fn pawn_diagonal(pc: Piece, b: Position) -> bool {
    &&& b.row == pc.position.row + pawn_dir(pc.colour)
    &&& (b.column == pc.position.column + 1 || b.column + 1 == pc.position.column)
}

/// A diagonal capture onto an enemy-occupied square.
pub open spec fn pawn_capture(m: Map<Position, Piece>, pc: Piece, b: Position) -> bool {
    pawn_diagonal(pc, b) && occ(m, b) && m[b].colour == opponent(pc.colour)
}

/// The square of the pawn captured en passant: it sits beside the moving
/// pawn, one row behind the destination, in the destination's column.
pub open spec fn ep_victim_square(from: Position, to: Position) -> Position {
    Position { row: from.row, column: to.column }
}

/// En passant: a diagonal move onto an empty square, permitted only when the
/// adjacent square holds an enemy pawn that just advanced two squares.
pub open spec fn pawn_en_passant(m: Map<Position, Piece>, pc: Piece, b: Position) -> bool {
    &&& pawn_diagonal(pc, b)
    &&& !occ(m, b)
    &&& occ(m, ep_victim_square(pc.position, b))
    &&& m[ep_victim_square(pc.position, b)].piece_type == PieceType::Pawn
    &&& m[ep_victim_square(pc.position, b)].colour == opponent(pc.colour)
    &&& m[ep_victim_square(pc.position, b)].en_passant
}

/// All pawn moves.  A pawn standing on the farthest rank generates none:
/// promotion replaces it before the next turn.
pub open spec fn pawn_move(m: Map<Position, Piece>, pc: Piece, b: Position) -> bool {
    &&& pc.position.row != pawn_last_row(pc.colour)
    &&& in_bounds(b)
    &&& {
        ||| pawn_advance(m, pc, b)
        ||| pawn_jump(m, pc, b)
        ||| pawn_capture(m, pc, b)
        ||| pawn_en_passant(m, pc, b)
    }
}

/// A move following the piece's movement pattern and the occupancy rules,
/// without regard to whether it leaves the mover's own King attacked.
pub open spec fn pseudo_legal(m: Map<Position, Piece>, pc: Piece, b: Position) -> bool {
    match pc.piece_type {
        PieceType::King => king_move(m, pc, b),
        PieceType::Queen => queen_move(m, pc, b),
        PieceType::Rook => rook_move(m, pc, b),
        PieceType::Bishop => bishop_move(m, pc, b),
        PieceType::Knight => knight_move(m, pc, b),
        PieceType::Pawn => pawn_move(m, pc, b),
    }
}

/// Some piece of colour `c` has `t` among its pseudo-legal destinations.
pub open spec fn attacks(m: Map<Position, Piece>, c: PieceColour, t: Position) -> bool {
    exists|p: Position| #[trigger] occ(m, p) && m[p].colour == c && pseudo_legal(m, m[p], t)
}

pub open spec fn is_king_at(m: Map<Position, Piece>, p: Position, c: PieceColour) -> bool {
    occ(m, p) && m[p].piece_type == PieceType::King && m[p].colour == c
}

pub open spec fn has_king(m: Map<Position, Piece>, c: PieceColour) -> bool {
    exists|p: Position| is_king_at(m, p, c)
}

/// Exactly one King of colour `c` is in play.  The engine requires this of
/// its callers: the initial board satisfies it and legal play preserves it.
pub open spec fn king_unique(m: Map<Position, Piece>, c: PieceColour) -> bool {
    &&& has_king(m, c)
    &&& forall|p: Position, q: Position|
        is_king_at(m, p, c) && is_king_at(m, q, c) ==> p == q
}

pub open spec fn king_square(m: Map<Position, Piece>, c: PieceColour) -> Position {
    choose|p: Position| is_king_at(m, p, c)
}

/// The King of colour `c` stands on a square some enemy piece can reach.
pub open spec fn in_check(m: Map<Position, Piece>, c: PieceColour) -> bool {
    attacks(m, opponent(c), king_square(m, c))
}

/// The move from `from` to `to` removes a pawn en passant: the mover is a
/// pawn, it changes column, and the destination square itself is empty.
pub open spec fn is_ep_capture(m: Map<Position, Piece>, from: Position, to: Position) -> bool {
    &&& occ(m, from)
    &&& m[from].piece_type == PieceType::Pawn
    &&& from.column != to.column
    &&& !occ(m, to)
}

/// The moving piece as it stands after the move, flags untouched.
pub open spec fn moved_piece(m: Map<Position, Piece>, from: Position, to: Position) -> Piece {
    Piece { position: to, ..m[from] }
}

/// The board after the piece on `from` is placed on `to`: the origin is
/// vacated, any occupant of `to` is captured, and an en-passant victim is
/// removed.  Flags are not yet adjusted; this is the state the check-safety
/// probe inspects.
pub open spec fn specul_map(m: Map<Position, Piece>, from: Position, to: Position)
    -> Map<Position, Piece>
{
    if is_ep_capture(m, from, to) {
        m.remove(from).remove(ep_victim_square(from, to)).insert(to, moved_piece(m, from, to))
    } else {
        m.remove(from).insert(to, moved_piece(m, from, to))
    }
}

/// A legal move of colour `c`: a pseudo-legal move of one of its pieces that
/// does not leave its own King attacked.
pub open spec fn legal_move(m: Map<Position, Piece>, c: PieceColour, from: Position, to: Position)
    -> bool
{
    &&& occ(m, from)
    &&& m[from].colour == c
    &&& pseudo_legal(m, m[from], to)
    &&& !in_check(specul_map(m, from, to), c)
}

/// The piece fits the move request: right colour, right type, and it stands
/// on the requested starting column and row where those are given.
pub open spec fn matches_request(pc: Piece, c: PieceColour, mv: Move) -> bool {
    &&& pc.colour == c
    &&& pc.piece_type == mv.piece_type
    &&& match mv.starting_column {
        Some(col) => pc.position.column == col,
        None => true,
    }
    &&& match mv.starting_row {
        Some(row) => pc.position.row == row,
        None => true,
    }
}

pub open spec fn candidate_at(m: Map<Position, Piece>, c: PieceColour, mv: Move, p: Position)
    -> bool
{
    occ(m, p) && matches_request(m[p], c, mv)
}

pub open spec fn some_candidate(m: Map<Position, Piece>, c: PieceColour, mv: Move) -> bool {
    exists|p: Position| candidate_at(m, c, mv, p)
}

/// A candidate piece that can also reach the requested target.
pub open spec fn mover_at(m: Map<Position, Piece>, c: PieceColour, mv: Move, p: Position)
    -> bool
{
    candidate_at(m, c, mv, p) && pseudo_legal(m, m[p], mv.new_position)
}

pub open spec fn some_mover(m: Map<Position, Piece>, c: PieceColour, mv: Move) -> bool {
    exists|p: Position| mover_at(m, c, mv, p)
}

/// Two different pieces could both serve the request: it is ambiguous.
pub open spec fn multiple_movers(m: Map<Position, Piece>, c: PieceColour, mv: Move) -> bool {
    exists|p: Position, q: Position|
        p != q && #[trigger] mover_at(m, c, mv, p) && #[trigger] mover_at(m, c, mv, q)
}

pub open spec fn unique_mover(m: Map<Position, Piece>, c: PieceColour, mv: Move) -> bool {
    &&& some_mover(m, c, mv)
    &&& forall|p: Position, q: Position|
        mover_at(m, c, mv, p) && mover_at(m, c, mv, q) ==> p == q
}

pub open spec fn the_mover(m: Map<Position, Piece>, c: PieceColour, mv: Move) -> Position {
    choose|p: Position| mover_at(m, c, mv, p)
}

/// The committed move was a two-square pawn advance.
pub open spec fn was_pawn_jump(pc: Piece, from: Position, to: Position) -> bool {
    &&& pc.piece_type == PieceType::Pawn
    &&& {
        ||| (pc.colour == PieceColour::White && to.row == from.row + 2)
        ||| (pc.colour == PieceColour::Black && to.row + 2 == from.row)
    }
}

/// Flag adjustment after a committed move.  Every pawn's en-passant window
/// closes; the pawn that just jumped two squares opens its own; the moved
/// piece loses castling eligibility.
pub open spec fn flags_after(pc: Piece, moved: bool, jump: bool) -> Piece {
    Piece {
        en_passant: if moved { jump } else if pc.piece_type == PieceType::Pawn { false } else {
            pc.en_passant
        },
        unmoved: if moved { false } else { pc.unmoved },
        ..pc
    }
}

/// The board after a committed move from `from` to `to`, flags adjusted.
pub open spec fn commit_map(m: Map<Position, Piece>, from: Position, to: Position)
    -> Map<Position, Piece>
{
    let s = specul_map(m, from, to);
    let jump = was_pawn_jump(m[from], from, to);
    Map::new(
        |p: Position| s.dom().contains(p),
        |p: Position| flags_after(s[p], p == to, jump),
    )
}

/// After this move the mover must promote: the moved piece is a pawn that
/// reached the farthest rank for its colour.
pub open spec fn promotion_pending(pc: Piece, to: Position) -> bool {
    pc.piece_type == PieceType::Pawn && to.row == pawn_last_row(pc.colour)
}

/// The back rank of colour `c`.
pub open spec fn home_row(c: PieceColour) -> usize {
    match c {
        PieceColour::White => 1usize,
        PieceColour::Black => 8usize,
    }
}

/// The square the King starts the game on.
pub open spec fn king_home(c: PieceColour) -> Position {
    Position { row: home_row(c), column: 5 }
}

/// The corner the castling rook starts on.
pub open spec fn rook_corner(c: PieceColour, d: CastleDirection) -> Position {
    match d {
        CastleDirection::KingSide => Position { row: home_row(c), column: 8 },
        CastleDirection::QueenSide => Position { row: home_row(c), column: 1 },
    }
}

/// Where the King lands when castling: two squares toward the rook.
pub open spec fn castle_king_dest(c: PieceColour, d: CastleDirection) -> Position {
    match d {
        CastleDirection::KingSide => Position { row: home_row(c), column: 7 },
        CastleDirection::QueenSide => Position { row: home_row(c), column: 3 },
    }
}

/// Where the rook lands when castling: just inside the King's new square.
pub open spec fn castle_rook_dest(c: PieceColour, d: CastleDirection) -> Position {
    match d {
        CastleDirection::KingSide => Position { row: home_row(c), column: 6 },
        CastleDirection::QueenSide => Position { row: home_row(c), column: 4 },
    }
}

/// Castling is available: the mover is not in check; the King stands unmoved
/// on its home square; the rook stands unmoved in its corner; every square
/// strictly between them is empty; and neither square the King passes
/// through (its destination included) is attacked by the enemy.
pub open spec fn castle_ok(m: Map<Position, Piece>, c: PieceColour, d: CastleDirection) -> bool {
    &&& !in_check(m, c)
    &&& is_king_at(m, king_home(c), c)
    &&& m[king_home(c)].unmoved
    &&& occ(m, rook_corner(c, d))
    &&& m[rook_corner(c, d)].piece_type == PieceType::Rook
    &&& m[rook_corner(c, d)].colour == c
    &&& m[rook_corner(c, d)].unmoved
    &&& forall|q: Position| #[trigger] on_open_segment(king_home(c), q, rook_corner(c, d))
        ==> !occ(m, q)
    &&& !attacks(m, opponent(c), castle_king_dest(c, d))
    &&& !attacks(m, opponent(c), castle_rook_dest(c, d))
}

/// The board after castling: King and rook relocate and both lose their
/// castling eligibility.
pub open spec fn castled_map(m: Map<Position, Piece>, c: PieceColour, d: CastleDirection)
    -> Map<Position, Piece>
{
    let king = m[king_home(c)];
    let rook = m[rook_corner(c, d)];
    m.remove(king_home(c)).remove(rook_corner(c, d))
        .insert(
            castle_king_dest(c, d),
            Piece { position: castle_king_dest(c, d), unmoved: false, ..king },
        )
        .insert(
            castle_rook_dest(c, d),
            Piece { position: castle_rook_dest(c, d), unmoved: false, ..rook },
        )
}

/// Colour `c` still has a legal move: a castle, or a piece move that leaves
/// its own King safe.
pub open spec fn any_piece_move(m: Map<Position, Piece>, c: PieceColour) -> bool {
    exists|from: Position, to: Position| #[trigger] legal_move(m, c, from, to)
}

pub open spec fn any_valid_move(m: Map<Position, Piece>, c: PieceColour) -> bool {
    ||| castle_ok(m, c, CastleDirection::KingSide)
    ||| castle_ok(m, c, CastleDirection::QueenSide)
    ||| any_piece_move(m, c)
}

/// `t` lies on the ray that leaves `a` in direction `(dr, dc)`, where each
/// component is -1, 0 or 1.
pub open spec fn ray_hit(a: Position, dr: int, dc: int, t: Position) -> bool {
    let kr = t.row - a.row;
    let kc = t.column - a.column;
    &&& (dr == 0 ==> kr == 0)
    &&& (dr == 1 ==> kr > 0)
    &&& (dr == -1 ==> kr < 0)
    &&& (dc == 0 ==> kc == 0)
    &&& (dc == 1 ==> kc > 0)
    &&& (dc == -1 ==> kc < 0)
    &&& (dr == 1 && dc == 1 ==> kr == kc)
    &&& (dr == 1 && dc == -1 ==> kr == -kc)
    &&& (dr == -1 && dc == 1 ==> kr == -kc)
    &&& (dr == -1 && dc == -1 ==> kr == kc)
}

/// A square a sliding piece standing on `pc.position` can reach along the
/// ray in direction `(dr, dc)`.
pub open spec fn slide_target(
    m: Map<Position, Piece>,
    pc: Piece,
    dr: int,
    dc: int,
    t: Position,
) -> bool {
    &&& ray_hit(pc.position, dr, dc, t)
    &&& in_bounds(t)
    &&& path_clear(m, pc.position, t)
    &&& target_open(m, t, pc.colour)
}

/// The square one fixed offset away from `pc` is a target: it exists, lies
/// on the board and is not held by the mover's own colour.
pub open spec fn offset_target(
    m: Map<Position, Piece>,
    pc: Piece,
    dr: int,
    dc: int,
    t: Position,
) -> bool {
    &&& t.row == pc.position.row + dr
    &&& t.column == pc.position.column + dc
    &&& target_open(m, t, pc.colour)
}

/// A King reaches exactly the targets of its eight unit offsets.
pub proof fn lemma_king_cover(m: Map<Position, Piece>, pc: Piece, t: Position)
    requires
        in_bounds(pc.position),
    ensures
        king_move(m, pc, t) <==> {
            ||| offset_target(m, pc, 1, 0, t)
            ||| offset_target(m, pc, 0, 1, t)
            ||| offset_target(m, pc, -1, 0, t)
            ||| offset_target(m, pc, 0, -1, t)
            ||| offset_target(m, pc, 1, 1, t)
            ||| offset_target(m, pc, 1, -1, t)
            ||| offset_target(m, pc, -1, 1, t)
            ||| offset_target(m, pc, -1, -1, t)
        },
{
}

/// A Knight reaches exactly the targets of its eight jump offsets.
pub proof fn lemma_knight_cover(m: Map<Position, Piece>, pc: Piece, t: Position)
    requires
        in_bounds(pc.position),
    ensures
        knight_move(m, pc, t) <==> {
            ||| offset_target(m, pc, 2, 1, t)
            ||| offset_target(m, pc, 2, -1, t)
            ||| offset_target(m, pc, 1, 2, t)
            ||| offset_target(m, pc, 1, -2, t)
            ||| offset_target(m, pc, -1, 2, t)
            ||| offset_target(m, pc, -1, -2, t)
            ||| offset_target(m, pc, -2, 1, t)
            ||| offset_target(m, pc, -2, -1, t)
        },
{
}

/// A rook reaches exactly the targets of the four straight rays.
pub proof fn lemma_rook_cover(m: Map<Position, Piece>, pc: Piece, t: Position)
    ensures
        rook_move(m, pc, t) <==> {
            ||| slide_target(m, pc, 1, 0, t)
            ||| slide_target(m, pc, -1, 0, t)
            ||| slide_target(m, pc, 0, 1, t)
            ||| slide_target(m, pc, 0, -1, t)
        },
{
}

/// A bishop reaches exactly the targets of the four diagonal rays.
pub proof fn lemma_bishop_cover(m: Map<Position, Piece>, pc: Piece, t: Position)
    ensures
        bishop_move(m, pc, t) <==> {
            ||| slide_target(m, pc, 1, 1, t)
            ||| slide_target(m, pc, 1, -1, t)
            ||| slide_target(m, pc, -1, 1, t)
            ||| slide_target(m, pc, -1, -1, t)
        },
{
}

/// Walking a ray square by square: when the walk stops on a square that is
/// off the board or held by the mover's own colour, the squares strictly
/// before the stop (`cur` itself included, if the walk advanced at all) are
/// exactly the ray's targets.
pub proof fn lemma_slide_stop(
    m: Map<Position, Piece>,
    pc: Piece,
    dr: int,
    dc: int,
    cur: Position,
    t: Position,
)
    requires
        in_bounds(pc.position),
        -1 <= dr <= 1,
        -1 <= dc <= 1,
        !(dr == 0 && dc == 0),
        cur == pc.position || (ray_hit(pc.position, dr, dc, cur) && in_bounds(cur)),
        forall|q: Position| #[trigger] on_open_segment(pc.position, q, cur)
            ==> in_bounds(q) && !occ(m, q),
        cur != pc.position ==> !occ(m, cur),
        !(1 <= cur.row + dr <= 8 && 1 <= cur.column + dc <= 8) || {
            let next = Position {
                row: (cur.row + dr) as usize,
                column: (cur.column + dc) as usize,
            };
            occ(m, next) && m[next].colour == pc.colour
        },
    ensures
        slide_target(m, pc, dr, dc, t)
            <==> (on_open_segment(pc.position, t, cur) || (t == cur && t != pc.position)),
{
    let a = pc.position;
    if slide_target(m, pc, dr, dc, t) {
        if t != cur && !on_open_segment(a, t, cur) {
            // t would lie strictly beyond the stop square, which either puts
            // it off the board or behind a blocking piece.
            if 1 <= cur.row + dr <= 8 && 1 <= cur.column + dc <= 8 {
                let next = Position {
                    row: (cur.row + dr) as usize,
                    column: (cur.column + dc) as usize,
                };
                if t == next {
                    assert(!target_open(m, t, pc.colour));
                } else {
                    assert(on_open_segment(a, next, t));
                    assert(!path_clear(m, a, t));
                }
            } else {
                assert(!in_bounds(t));
            }
        }
    }
    if on_open_segment(a, t, cur) || (t == cur && t != a) {
        assert forall|q: Position| #[trigger] on_open_segment(a, q, t) implies !occ(m, q) by {
            assert(on_open_segment(a, q, cur));
        }
        assert(slide_target(m, pc, dr, dc, t));
    }
}

/// Walking a ray square by square: when the walk stops by capturing on
/// `next`, the targets are the squares strictly between the origin and
/// `next`, plus `next` itself.
pub proof fn lemma_slide_capture(
    m: Map<Position, Piece>,
    pc: Piece,
    dr: int,
    dc: int,
    cur: Position,
    next: Position,
    t: Position,
)
    requires
        in_bounds(pc.position),
        -1 <= dr <= 1,
        -1 <= dc <= 1,
        !(dr == 0 && dc == 0),
        cur == pc.position || (ray_hit(pc.position, dr, dc, cur) && in_bounds(cur)),
        forall|q: Position| #[trigger] on_open_segment(pc.position, q, cur)
            ==> in_bounds(q) && !occ(m, q),
        cur != pc.position ==> !occ(m, cur),
        next.row == cur.row + dr,
        next.column == cur.column + dc,
        in_bounds(next),
        occ(m, next),
        m[next].colour != pc.colour,
    ensures
        slide_target(m, pc, dr, dc, t)
            <==> (on_open_segment(pc.position, t, cur)
                || (t == cur && t != pc.position) || t == next),
{
    let a = pc.position;
    if slide_target(m, pc, dr, dc, t) {
        if t != cur && t != next && !on_open_segment(a, t, cur) {
            assert(on_open_segment(a, next, t));
            assert(!path_clear(m, a, t));
        }
    }
    if on_open_segment(a, t, cur) || (t == cur && t != a) || t == next {
        assert forall|q: Position| #[trigger] on_open_segment(a, q, t) implies !occ(m, q) by {
            assert(on_open_segment(a, q, cur) || q == cur);
        }
        assert(slide_target(m, pc, dr, dc, t));
    }
}

/// Basic consequences of pseudo-legality: the move goes somewhere else on
/// the board, and never onto a piece of its own colour.
pub proof fn lemma_pseudo_legal_facts(m: Map<Position, Piece>, pc: Piece, b: Position)
    requires
        pseudo_legal(m, pc, b),
    ensures
        b != pc.position,
        in_bounds(b),
        occ(m, b) ==> m[b].colour != pc.colour,
{
}

/// When a pseudo-legal pawn move lands diagonally on an empty square, the
/// square beside the pawn holds the enemy pawn captured en passant.
pub proof fn lemma_ep_move(m: Map<Position, Piece>, from: Position, to: Position)
    requires
        board_ok(m),
        occ(m, from),
        pseudo_legal(m, m[from], to),
        is_ep_capture(m, from, to),
    ensures
        occ(m, ep_victim_square(from, to)),
        m[ep_victim_square(from, to)].piece_type == PieceType::Pawn,
        m[ep_victim_square(from, to)].colour == opponent(m[from].colour),
        m[ep_victim_square(from, to)].en_passant,
        ep_victim_square(from, to) != from,
        ep_victim_square(from, to) != to,
{
}

/// A pseudo-legal move of a piece of colour `c` neither removes nor
/// duplicates `c`'s King: afterwards it stands on `to` if the King itself
/// moved, and where it stood before otherwise.
pub proof fn lemma_specul_king(
    m: Map<Position, Piece>,
    c: PieceColour,
    from: Position,
    to: Position,
)
    requires
        board_ok(m),
        king_unique(m, c),
        occ(m, from),
        m[from].colour == c,
        pseudo_legal(m, m[from], to),
    ensures
        board_ok(specul_map(m, from, to)),
        king_unique(specul_map(m, from, to), c),
        king_square(specul_map(m, from, to), c)
            == if m[from].piece_type == PieceType::King { to } else { king_square(m, c) },
{
    let s = specul_map(m, from, to);
    lemma_pseudo_legal_facts(m, m[from], to);
    if is_ep_capture(m, from, to) {
        lemma_ep_move(m, from, to);
    }
    assert forall|p: Position| #[trigger] s.dom().contains(p)
        implies in_bounds(p) && s[p].position == p by {}

    let k0 = king_square(m, c);
    assert(is_king_at(m, k0, c));
    if m[from].piece_type == PieceType::King {
        assert(is_king_at(m, from, c));
        assert(from == k0);
        assert(is_king_at(s, to, c));
        assert forall|p: Position, q: Position|
            is_king_at(s, p, c) && is_king_at(s, q, c) implies p == q by {
            assert forall|p: Position| #[trigger] is_king_at(s, p, c) implies p == to by {
                if p != to && p != from {
                    assert(is_king_at(m, p, c));
                }
            }
        }
        assert(king_square(s, c) == to);
    } else {
        assert(from != k0);
        assert(to != k0) by {
            if occ(m, to) {
                assert(m[to].colour != c);
            }
        }
        assert(is_king_at(s, k0, c));
        assert forall|p: Position, q: Position|
            is_king_at(s, p, c) && is_king_at(s, q, c) implies p == q by {
            assert forall|p: Position| #[trigger] is_king_at(s, p, c) implies p == k0 by {
                if p != to && p != from {
                    assert(is_king_at(m, p, c));
                } else if p == to {
                    assert(s[to] == moved_piece(m, from, to));
                }
            }
        }
        assert(king_square(s, c) == k0);
    }
}

/// The piece removed by the move from `from` to `to`: the captured occupant
/// of the destination, or the pawn taken en passant, if any.
pub open spec fn removed_by_move(m: Map<Position, Piece>, from: Position, to: Position)
    -> Option<Piece>
{
    if occ(m, to) {
        Some(m[to])
    } else if is_ep_capture(m, from, to) && occ(m, ep_victim_square(from, to)) {
        Some(m[ep_victim_square(from, to)])
    } else {
        None
    }
}

/// Rolling the speculative move back — returning the moved piece to its
/// origin and reinserting whatever was removed — restores the board
/// exactly.
pub proof fn lemma_specul_undo(m: Map<Position, Piece>, from: Position, to: Position)
    requires
        board_ok(m),
        occ(m, from),
        pseudo_legal(m, m[from], to),
    ensures
        ({
            let s = specul_map(m, from, to);
            let back = Piece { position: from, ..s[to] };
            let m1 = s.remove(to).insert(from, back);
            match removed_by_move(m, from, to) {
                Some(rp) => m1.insert(rp.position, rp) == m,
                None => m1 == m,
            }
        }),
{
    lemma_pseudo_legal_facts(m, m[from], to);
    if is_ep_capture(m, from, to) {
        lemma_ep_move(m, from, to);
    }
    let s = specul_map(m, from, to);
    let back = Piece { position: from, ..s[to] };
    let m1 = s.remove(to).insert(from, back);
    assert(back == m[from]);
    match removed_by_move(m, from, to) {
        Some(rp) => {
            assert(rp.position == if occ(m, to) { to } else { ep_victim_square(from, to) });
            assert(m1.insert(rp.position, rp) =~= m);
        },
        None => {
            assert(m1 =~= m);
        },
    }
}

/// Only pawns ever claim the en-passant window.
pub open spec fn ep_flags_ok(m: Map<Position, Piece>) -> bool {
    forall|p: Position| #[trigger] m.dom().contains(p) && m[p].en_passant
        ==> m[p].piece_type == PieceType::Pawn
}

/// Flag lifecycle law: after any committed move every pawn's en-passant
/// flag is false except possibly the moved piece's, which holds it exactly
/// when this move was a two-square pawn advance.
pub proof fn lemma_flag_lifecycle(m: Map<Position, Piece>, from: Position, to: Position)
    requires
        ep_flags_ok(m),
        occ(m, from),
    ensures
        ep_flags_ok(commit_map(m, from, to)),
        forall|p: Position| #[trigger] commit_map(m, from, to).dom().contains(p)
            && commit_map(m, from, to)[p].en_passant
            ==> p == to && was_pawn_jump(m[from], from, to),
        commit_map(m, from, to).dom().contains(to),
        commit_map(m, from, to)[to].en_passant <==> was_pawn_jump(m[from], from, to),
{
    let c = commit_map(m, from, to);
    let s = specul_map(m, from, to);
    assert forall|p: Position| #[trigger] c.dom().contains(p) && c[p].en_passant
        implies p == to && was_pawn_jump(m[from], from, to)
            && c[p].piece_type == PieceType::Pawn by {
        if p != to {
            if p != from && (!is_ep_capture(m, from, to) || p != ep_victim_square(from, to)) {
                assert(s[p] == m[p]);
            }
        }
    }
}

/// En-passant law: a pseudo-legal diagonal pawn move onto an empty square
/// exists only when the square beside the pawn holds an enemy pawn whose
/// flag is set; committing the move removes that adjacent pawn — not any
/// piece at the destination, which was empty — and lands the mover on the
/// destination.
pub proof fn lemma_en_passant_capture(m: Map<Position, Piece>, from: Position, to: Position)
    requires
        board_ok(m),
        occ(m, from),
        m[from].piece_type == PieceType::Pawn,
        from.column != to.column,
        !occ(m, to),
        pseudo_legal(m, m[from], to),
    ensures
        occ(m, ep_victim_square(from, to)),
        m[ep_victim_square(from, to)].piece_type == PieceType::Pawn,
        m[ep_victim_square(from, to)].colour == opponent(m[from].colour),
        m[ep_victim_square(from, to)].en_passant,
        !commit_map(m, from, to).dom().contains(ep_victim_square(from, to)),
        !commit_map(m, from, to).dom().contains(from),
        commit_map(m, from, to).dom().contains(to),
        commit_map(m, from, to)[to].piece_type == PieceType::Pawn,
        commit_map(m, from, to)[to].colour == m[from].colour,
        forall|q: Position| q != from && q != to && q != ep_victim_square(from, to)
            ==> (#[trigger] commit_map(m, from, to).dom().contains(q) <==> occ(m, q)),
{
    lemma_ep_move(m, from, to);
}

/// At the start of the game the engine's preconditions hold: the board is
/// well formed, each side has exactly one King, and no pawn claims an
/// en-passant capture.
pub proof fn lemma_initial_board_ready()
    ensures
        board_ok(initial_board()),
        king_unique(initial_board(), PieceColour::White),
        king_unique(initial_board(), PieceColour::Black),
        ep_flags_ok(initial_board()),
{
    let m = initial_board();
    let wk = Position { row: 1usize, column: 5usize };
    let bk = Position { row: 8usize, column: 5usize };
    assert(is_king_at(m, wk, PieceColour::White));
    assert(is_king_at(m, bk, PieceColour::Black));
    assert forall|p: Position, q: Position|
        is_king_at(m, p, PieceColour::White) && is_king_at(m, q, PieceColour::White)
        implies p == q by {
        assert forall|p2: Position| #[trigger] is_king_at(m, p2, PieceColour::White)
            implies p2 == wk by {}
    }
    assert forall|p: Position, q: Position|
        is_king_at(m, p, PieceColour::Black) && is_king_at(m, q, PieceColour::Black)
        implies p == q by {
        assert forall|p2: Position| #[trigger] is_king_at(m, p2, PieceColour::Black)
            implies p2 == bk by {}
    }
}

/// The piece type that starts the game on back-rank column `col`.
pub open spec fn back_rank_type(col: int) -> PieceType {
    if col == 1 || col == 8 {
        PieceType::Rook
    } else if col == 2 || col == 7 {
        PieceType::Knight
    } else if col == 3 || col == 6 {
        PieceType::Bishop
    } else if col == 4 {
        PieceType::Queen
    } else {
        PieceType::King
    }
}

/// The piece that starts the game on square `p` (meaningful for rows 1, 2,
/// 7 and 8).
pub open spec fn initial_piece(p: Position) -> Piece {
    Piece {
        piece_type: if p.row == 1 || p.row == 8 {
            back_rank_type(p.column as int)
        } else {
            PieceType::Pawn
        },
        position: p,
        colour: if p.row == 1 || p.row == 2 {
            PieceColour::White
        } else {
            PieceColour::Black
        },
        unmoved: (p.row == 1 || p.row == 8)
            && (p.column == 1 || p.column == 5 || p.column == 8),
        en_passant: false,
    }
}

/// Whether square `p` is occupied at the start of the game.
pub open spec fn initially_occupied(p: Position) -> bool {
    p.row == 1 || p.row == 2 || p.row == 7 || p.row == 8
}

/// The standard starting position.
pub open spec fn initial_board() -> Map<Position, Piece> {
    Map::new(
        |p: Position| in_bounds(p) && initially_occupied(p),
        |p: Position| initial_piece(p),
    )
}

} // verus!
