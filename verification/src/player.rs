//! A player's front-end settings: the symbol it places and whether a
//! computer plays for it.

use vstd::prelude::*;
use crate::game_enums::Cell;

verus! {

/// The symbol a player will place next, and whether the player is automated.
#[derive(Clone, Copy)]
pub struct Player {
    pub pmove: Cell,
    pub computer: bool,
}

impl Player {
    /// A player that will place `initial_move`, automated iff `is_computer`.
    pub fn new(initial_move: Cell, is_computer: bool) -> (p: Self)
        ensures
            p.pmove == initial_move,
            p.computer == is_computer,
    {
        Player { pmove: initial_move, computer: is_computer }
    }
}

} // verus!
