//! A two-player chess rules engine.
//!
//! The board owns the position-to-piece mapping, enumerates legal moves per
//! piece, enforces check, checkmate and stalemate, and implements castling,
//! en passant and promotion.  A small game clock supports the turn loop.

pub mod board;
pub mod game;
pub mod piece;
pub mod position;
pub mod rules;
pub mod timer;
