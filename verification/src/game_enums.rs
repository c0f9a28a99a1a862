//! The small value types shared by the game engine and the recording.

use vstd::prelude::*;

verus! {

/// Enumerates the possible SOS cell values.
#[derive(Clone, PartialEq, Eq, Structural, Debug, Copy)]
pub enum Cell {
    Empty,
    S,
    O,
}

/// Enumerates the different game modes.
#[derive(Clone, PartialEq, Eq, Structural, Debug, Copy)]
pub enum Mode {
    Classic,
    Simple,
}

/// Enumerates player turns.
#[derive(Clone, PartialEq, Eq, Structural, Debug, Copy)]
pub enum Turn {
    Left,
    Right,
}

/// The overall status of a game.
#[derive(Clone, PartialEq, Eq, Structural, Debug, Copy)]
pub enum State {
    LeftWin,
    RightWin,
    Draw,
    Playing,
    NotStarted,
}

/// The turn that plays after `t`, when the turn alternates.
pub open spec fn other_turn(t: Turn) -> Turn {
    match t {
        Turn::Left => Turn::Right,
        Turn::Right => Turn::Left,
    }
}

} // verus!
