//! The game state an orchestrator drives: the board, whose turn it is, and
//! the two clocks.
//!
//! The turn loop itself — reading requests, rendering, sleeping — lives
//! outside the library.  What the library owns is the state and the one
//! decision the loop must get right atomically: on a turn change the
//! outgoing side's clock pauses and the incoming side's clock resumes
//! together.

use vstd::prelude::*;
use crate::board::Board;
use crate::piece::{opponent, PieceColour};
use crate::rules::initial_board;
use crate::timer::Timer;

verus! {

pub struct GameManager {
    pub board: Board,
    pub turn: PieceColour,
    pub white_timer: Timer,
    pub black_timer: Timer,
}

impl GameManager {
    /// A fresh game: the standard starting position, White to move, both
    /// clocks set to `minutes` and White's running.
    pub fn new(minutes: u64) -> (r: Self)
        requires
            minutes * 60 <= u64::MAX,
        ensures
            r.board.wf(),
            r.board@ == initial_board(),
            r.turn == PieceColour::White,
            r.white_timer.remaining() == minutes * 60 * 1000,
            r.black_timer.remaining() == minutes * 60 * 1000,
            !r.white_timer.spec_paused(),
            r.black_timer.spec_paused() || minutes == 0,
    {
        let mut black_timer = Timer::new(minutes * 60);
        black_timer.pause();
        GameManager {
            board: Board::new(),
            turn: PieceColour::White,
            white_timer: Timer::new(minutes * 60),
            black_timer,
        }
    }

    /// Hands the turn to the other side: the outgoing side's clock pauses
    /// and the incoming side's resumes, in one step, so no observer sees
    /// both clocks running or both stopped.
    pub fn switch_turn(&mut self)
        ensures
            final(self).board == old(self).board,
            final(self).turn == opponent(old(self).turn),
            final(self).white_timer.remaining() == old(self).white_timer.remaining(),
            final(self).black_timer.remaining() == old(self).black_timer.remaining(),
            old(self).turn == PieceColour::White ==> {
                &&& final(self).white_timer.spec_paused()
                    == if old(self).white_timer.remaining() == 0 {
                    old(self).white_timer.spec_paused()
                } else {
                    true
                }
                &&& final(self).black_timer.spec_paused()
                    == if old(self).black_timer.remaining() == 0 {
                    old(self).black_timer.spec_paused()
                } else {
                    false
                }
            },
            old(self).turn == PieceColour::Black ==> {
                &&& final(self).black_timer.spec_paused()
                    == if old(self).black_timer.remaining() == 0 {
                    old(self).black_timer.spec_paused()
                } else {
                    true
                }
                &&& final(self).white_timer.spec_paused()
                    == if old(self).white_timer.remaining() == 0 {
                    old(self).white_timer.spec_paused()
                } else {
                    false
                }
            },
    {
        match self.turn {
            PieceColour::White => {
                self.white_timer.pause();
                self.black_timer.resume();
                self.turn = PieceColour::Black;
            },
            PieceColour::Black => {
                self.black_timer.pause();
                self.white_timer.resume();
                self.turn = PieceColour::White;
            },
        }
    }
}

} // verus!
