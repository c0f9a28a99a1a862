//! A minimal turn-alternation game over the generic [`crate::board::Board`].
//!
//! This engine only tracks whose turn it is: a move into an empty, in-bounds
//! cell writes the symbol and hands the turn to the other player. It has no
//! scoring and no win condition.

use vstd::prelude::*;
use crate::board::Board;

verus! {

/// Enumerates the possible SOS cell values.
#[derive(Clone, PartialEq, Eq, Structural, Debug, Copy)]
pub enum Cell {
    EMPTY,
    S,
    O,
}

/// Enumerates the different game modes.
#[derive(Clone, PartialEq, Eq, Structural, Debug, Copy)]
pub enum Mode {
    CLASSIC,
    SIMPLE,
}

/// Enumerates player turns.
#[derive(Clone, PartialEq, Eq, Structural, Debug, Copy)]
pub enum Turn {
    LEFT,
    RIGHT,
}

/// The turn that plays after `t`.
pub open spec fn next_turn(t: Turn) -> Turn {
    match t {
        Turn::LEFT => Turn::RIGHT,
        Turn::RIGHT => Turn::LEFT,
    }
}

/// Contains game data such as board state, game mode, and player turn.
pub struct Game {
    pub board: Board<Cell>,
    pub mode: Mode,
    pub turn: Turn,
}

impl Game {
    /// Well-formedness: the board is a non-empty square grid.
    pub open spec fn wf(&self) -> bool {
        &&& self.board.wf()
        &&& self.board.width() == self.board.height()
    }

    /// A fresh game: an all-empty square board and the left player to move.
    pub fn new(board_size: usize, mode: Mode) -> (g: Self)
        requires
            board_size > 0,
        ensures
            g.wf(),
            g.board.height() == board_size,
            forall|y: int, x: int|
                0 <= y < board_size && 0 <= x < board_size
                    ==> #[trigger] g.board@[y][x] == Cell::EMPTY,
            g.mode == mode,
            g.turn == Turn::LEFT,
    {
        Game { board: Board::new(board_size, board_size, Cell::EMPTY), mode, turn: Turn::LEFT }
    }

    /// Make a move on the game board.
    ///
    /// If (x, y) is in bounds and empty, the symbol is written there and the
    /// turn switches; otherwise nothing changes.
    pub fn make_move(&mut self, x: usize, y: usize, input: Cell)
        requires
            old(self).wf(),
        ensures
            final(self).wf(),
            final(self).mode == old(self).mode,
            final(self).board.height() == old(self).board.height(),
            (old(self).board.spec_valid(x as int, y as int)
                && old(self).board@[y as int][x as int] == Cell::EMPTY) ==> {
                &&& final(self).board@ == old(self).board@.update(
                    y as int,
                    old(self).board@[y as int].update(x as int, input),
                )
                &&& final(self).turn == next_turn(old(self).turn)
            },
            !(old(self).board.spec_valid(x as int, y as int)
                && old(self).board@[y as int][x as int] == Cell::EMPTY) ==> {
                &&& final(self).board@ == old(self).board@
                &&& final(self).turn == old(self).turn
            },
    {
        match self.board.get_value(x, y) {
            Ok(Cell::EMPTY) => {
                match self.board.set_cell(x, y, input) {
                    Ok(()) => self.switch_turn(),
                    Err(_) => {},
                }
            },
            _ => {},
        }
    }

    /// Hand the turn to the other player.
    pub fn switch_turn(&mut self)
        ensures
            final(self).turn == next_turn(old(self).turn),
            final(self).board == old(self).board,
            final(self).mode == old(self).mode,
    {
        self.turn = match self.turn {
            Turn::LEFT => Turn::RIGHT,
            Turn::RIGHT => Turn::LEFT,
        };
    }
}

} // verus!
