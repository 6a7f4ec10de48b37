//! This module contains what all states share: the indices by which they
//! refer to each other, and what an update of a state hands back.

use crate::board_logic::bit_board::BitBoard;
use vstd::prelude::*;

verus! {

/// All implemented game states get an index, with which they can refer to
/// each other.
#[derive(Clone, Copy, PartialEq, Eq, Debug, Structural)]
pub enum GameStateIndex {
    StartSelection,
    ComputerExecutionState,
    PlayerInputState,
    GameOverState,
}

impl GameStateIndex {
    /// The place of the state in the collection of states.
    pub open spec fn place(self) -> nat {
        match self {
            GameStateIndex::StartSelection => 0,
            GameStateIndex::ComputerExecutionState => 1,
            GameStateIndex::PlayerInputState => 2,
            GameStateIndex::GameOverState => 3,
        }
    }

    /// The place of the state in the collection of states.
    pub fn index(self) -> (place: usize)
        ensures
            place == self.place(),
            place < 4,
    {
        match self {
            GameStateIndex::StartSelection => 0,
            GameStateIndex::ComputerExecutionState => 1,
            GameStateIndex::PlayerInputState => 2,
            GameStateIndex::GameOverState => 3,
        }
    }
}

/// A stone that is to fall into a column, of the computer or of the player.
#[derive(Clone, Copy, PartialEq, Eq, Debug, Structural)]
pub struct StoneDrop {
    pub column: u32,
    pub is_computer: bool,
}

/// What is to be done after the update of a state.
#[derive(Clone, Copy, Debug)]
pub struct StateUpdate {
    /// The state to go to, where the state changes.
    pub next_state: Option<GameStateIndex>,
    /// The stone to drop, where one is to fall. It falls on the board as it
    /// is after the update.
    pub stone_drop: Option<StoneDrop>,
    /// The position to hand to the move search, where an answer is wanted.
    pub analysis_request: Option<BitBoard>,
}

/// Nothing is to be done.
pub open spec fn no_update() -> StateUpdate {
    StateUpdate { next_state: None, stone_drop: None, analysis_request: None }
}

/// Only the state changes.
pub open spec fn go_to(next_state: GameStateIndex) -> StateUpdate {
    StateUpdate { next_state: Some(next_state), stone_drop: None, analysis_request: None }
}

impl StateUpdate {
    /// Nothing is to be done.
    pub fn nothing() -> (update: StateUpdate)
        ensures
            update == no_update(),
    {
        StateUpdate { next_state: None, stone_drop: None, analysis_request: None }
    }

    /// Only the state changes.
    pub fn transition(next_state: GameStateIndex) -> (update: StateUpdate)
        ensures
            update == go_to(next_state),
    {
        StateUpdate { next_state: Some(next_state), stone_drop: None, analysis_request: None }
    }
}

} // verus!
