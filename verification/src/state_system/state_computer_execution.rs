//! In this state we are awaiting the computation result, that has been
//! kicked off before, and let the stone of the computer fall.

use crate::board_logic::bit_board::{is_terminal, BitBoard};
use crate::board_logic::bit_board_coding::{possible_move_spec, BOARD_WIDTH};
use crate::state_system::game_state::{go_to, no_update, GameStateIndex, StateUpdate, StoneDrop};
use vstd::prelude::*;

verus! {

pub struct StateComputerExecution {
    /// The slot that the computer has chosen.
    pub slot_picked: u32,
    /// The result of the computation has come.
    pub computation_executed: bool,
}

impl StateComputerExecution {
    pub fn new() -> (state: StateComputerExecution)
        ensures
            state.slot_picked == 0,
            !state.computation_executed,
    {
        StateComputerExecution { slot_picked: 0, computation_executed: false }
    }

    /// The computation has been kicked off already, we only note that its
    /// result is still missing.
    pub fn enter(&mut self)
        ensures
            !final(self).computation_executed,
            final(self).slot_picked == old(self).slot_picked,
    {
        self.computation_executed = false;
    }

    /// As long as the result of the computation is missing we look whether
    /// it has come; when it has, its stone starts to fall. When the stone
    /// has come down, the move is made and the state changes: to game over
    /// if the move ended the game, to the input of the player if not.
    ///
    /// A move that has come has to be one that its column offers.
    pub fn update(
        &mut self,
        computed: Option<u32>,
        animation_running: bool,
        game_board: &mut BitBoard,
    ) -> (update: StateUpdate)
        requires
            !old(self).computation_executed && computed.is_some() ==> computed.unwrap()
                < BOARD_WIDTH,
            old(self).computation_executed && !animation_running ==> old(self).slot_picked
                < BOARD_WIDTH && possible_move_spec(
                old(game_board).occupancy(),
                old(self).slot_picked as int,
            ) != 0,
        ensures
            final(game_board).computer_first == old(game_board).computer_first,
            final(game_board).opponent_stones == old(game_board).opponent_stones,
            // The result is still missing.
            !old(self).computation_executed && computed.is_none() ==> {
                &&& update == no_update()
                &&& *final(game_board) == *old(game_board)
                &&& *final(self) == *old(self)
            },
            // The result has come.
            !old(self).computation_executed && computed.is_some() ==> {
                &&& update == (StateUpdate {
                    next_state: None,
                    stone_drop: Some(StoneDrop { column: computed.unwrap(), is_computer: true }),
                    analysis_request: None,
                })
                &&& *final(game_board) == *old(game_board)
                &&& *final(self) == (StateComputerExecution {
                    slot_picked: computed.unwrap(),
                    computation_executed: true,
                })
            },
            // The stone is falling.
            old(self).computation_executed && animation_running ==> {
                &&& update == no_update()
                &&& *final(game_board) == *old(game_board)
                &&& *final(self) == *old(self)
            },
            // The stone has come down.
            old(self).computation_executed && !animation_running ==> {
                &&& final(game_board).own_stones == old(game_board).own_stones
                    | possible_move_spec(old(game_board).occupancy(), old(self).slot_picked as int)
                &&& *final(self) == *old(self)
                &&& update == go_to(
                    if is_terminal(
                        final(game_board).own_stones,
                        final(game_board).opponent_stones,
                    ) {
                        GameStateIndex::GameOverState
                    } else {
                        GameStateIndex::PlayerInputState
                    },
                )
            },
    {
        if !self.computation_executed {
            if let Some(slot_choice) = computed {
                self.slot_picked = slot_choice;
                self.computation_executed = true;
                return StateUpdate {
                    next_state: None,
                    stone_drop: Some(StoneDrop { column: slot_choice, is_computer: true }),
                    analysis_request: None,
                };
            }
            return StateUpdate::nothing();
        }
        if animation_running {
            return StateUpdate::nothing();
        }
        game_board.apply_move_on_column(self.slot_picked, true);

        if game_board.is_game_over() {
            StateUpdate::transition(GameStateIndex::GameOverState)
        } else {
            StateUpdate::transition(GameStateIndex::PlayerInputState)
        }
    }
}

} // verus!
