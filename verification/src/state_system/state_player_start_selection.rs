//! Contains the state to administrate the start screen, where the player
//! selects who will start the game. When the computer starts the first
//! calculation is kicked off.

use crate::board_logic::bit_board::BitBoard;
use crate::state_system::game_state::{go_to, no_update, GameStateIndex, StateUpdate};
use vstd::prelude::*;

verus! {

pub struct StatePlayerStartSelection {
    /// The button that was selected: 0 for the player, 1 for the computer.
    pub position_selected: u8,
    /// A button has been selected.
    pub selection_happened: bool,
}

impl StatePlayerStartSelection {
    pub fn new() -> (state: StatePlayerStartSelection)
        ensures
            state.position_selected == 0,
            !state.selection_happened,
    {
        StatePlayerStartSelection { position_selected: 0, selection_happened: false }
    }

    pub fn enter(&mut self)
        ensures
            !final(self).selection_happened,
            final(self).position_selected == old(self).position_selected,
    {
        self.selection_happened = false;
    }

    /// The update awaits the end of the time for which the selected button
    /// is highlighted. Then it notes on the game board who starts, and if it
    /// is the computer, asks for its move.
    pub fn update(&mut self, highlight_over: bool, game_board: &mut BitBoard) -> (update:
        StateUpdate)
        ensures
            *final(self) == *old(self),
            final(game_board).own_stones == old(game_board).own_stones,
            final(game_board).opponent_stones == old(game_board).opponent_stones,
            !highlight_over ==> update == no_update() && *final(game_board) == *old(game_board),
            highlight_over ==> final(game_board).computer_first == (old(self).position_selected
                == 1),
            highlight_over && old(self).position_selected == 1 ==> update == (StateUpdate {
                next_state: Some(GameStateIndex::ComputerExecutionState),
                stone_drop: None,
                analysis_request: Some(*final(game_board)),
            }),
            highlight_over && old(self).position_selected != 1 ==> update == go_to(
                GameStateIndex::PlayerInputState,
            ),
    {
        if highlight_over {
            game_board.set_computer_first(self.position_selected == 1);
            if self.position_selected == 1 {
                return StateUpdate {
                    next_state: Some(GameStateIndex::ComputerExecutionState),
                    stone_drop: None,
                    analysis_request: Some(*game_board),
                };
            } else {
                return StateUpdate::transition(GameStateIndex::PlayerInputState);
            }
        }
        StateUpdate::nothing()
    }

    /// A mouse click, told by which of the two buttons it hit. The first
    /// click that hits a button selects it; later clicks change nothing.
    pub fn mouse_click(&mut self, left_hit: bool, right_hit: bool)
        ensures
            old(self).selection_happened ==> *final(self) == *old(self),
            !old(self).selection_happened ==> {
                &&& final(self).selection_happened == (left_hit || right_hit)
                &&& final(self).position_selected == if right_hit {
                    1u8
                } else if left_hit {
                    0u8
                } else {
                    old(self).position_selected
                }
            },
    {
        if self.selection_happened {
            return ;
        }
        if left_hit {
            self.selection_happened = true;
            self.position_selected = 0;
        }
        if right_hit {
            self.selection_happened = true;
            self.position_selected = 1;
        }
    }
}

} // verus!
