//! The player input state administrates the players choice and checks it
//! for feasibility. While the stone falls it waits; if the move does not end
//! the game, the computer move calculation is kicked off before the stone
//! starts to fall.

use crate::board_logic::bit_board::{is_terminal, BitBoard};
use crate::board_logic::bit_board_coding::{possible_move_spec, BOARD_WIDTH};
use crate::state_system::game_state::{go_to, no_update, GameStateIndex, StateUpdate, StoneDrop};
use vstd::prelude::*;

verus! {

pub struct StatePlayerInput {
    /// The choice coming from the user interface.
    pub slot_picked: Option<u32>,
    /// A flag whether we want to transition to game over in the end.
    pub transition_to_game_over: bool,
    /// The buffered move we need to execute.
    pub buffered_move: u64,
    /// Indicates, that we are waiting for player input.
    pub waiting_for_player: bool,
}

impl StatePlayerInput {
    /// A slot that was picked is a column of the board.
    pub open spec fn wf(&self) -> bool {
        match self.slot_picked {
            Some(slot) => slot < BOARD_WIDTH,
            None => true,
        }
    }

    pub fn new() -> (state: StatePlayerInput)
        ensures
            state.slot_picked.is_none(),
            !state.transition_to_game_over,
            state.buffered_move == 0,
            !state.waiting_for_player,
            state.wf(),
    {
        StatePlayerInput {
            slot_picked: None,
            transition_to_game_over: false,
            buffered_move: 0,
            waiting_for_player: false,
        }
    }

    pub fn enter(&mut self)
        ensures
            final(self).slot_picked.is_none(),
            !final(self).transition_to_game_over,
            final(self).waiting_for_player,
            final(self).buffered_move == old(self).buffered_move,
            final(self).wf(),
    {
        self.slot_picked = None;
        self.transition_to_game_over = false;
        self.waiting_for_player = true;
    }

    /// While we wait for the player: a slot that was picked is taken up. If
    /// its column is full, nothing comes of it. Otherwise the move is
    /// buffered, its stone starts to fall, and unless the move ends the game
    /// the answer to it is asked for.
    ///
    /// While we do not wait, the stone is falling. When it has come down,
    /// the buffered move is made and the state changes: to game over if the
    /// move ended the game, to the execution of the computer's move if not.
    pub fn update(&mut self, animation_running: bool, game_board: &mut BitBoard) -> (update:
        StateUpdate)
        requires
            old(self).wf(),
        ensures
            final(self).wf(),
            final(game_board).computer_first == old(game_board).computer_first,
            final(game_board).own_stones == old(game_board).own_stones,
            // Waiting, and nothing picked or a full column.
            old(self).waiting_for_player && !old(self).picked_open_column(*old(game_board)) ==> {
                &&& update == no_update()
                &&& *final(game_board) == *old(game_board)
                &&& *final(self) == (StatePlayerInput { slot_picked: None, ..*old(self) })
            },
            // Waiting, and a column picked that offers a move.
            old(self).waiting_for_player && old(self).picked_open_column(*old(game_board)) ==> {
                let coded_move = possible_move_spec(
                    old(game_board).occupancy(),
                    old(self).slot_picked.unwrap() as int,
                );
                let ends_game = is_terminal(
                    old(game_board).own_stones,
                    old(game_board).opponent_stones | coded_move,
                );
                &&& *final(game_board) == *old(game_board)
                &&& *final(self) == (StatePlayerInput {
                    slot_picked: None,
                    transition_to_game_over: ends_game,
                    buffered_move: coded_move,
                    waiting_for_player: false,
                })
                &&& update.next_state.is_none()
                &&& update.stone_drop == Some(
                    StoneDrop { column: old(self).slot_picked.unwrap(), is_computer: false },
                )
                &&& update.analysis_request == if ends_game {
                    None
                } else {
                    Some(
                        BitBoard {
                            opponent_stones: old(game_board).opponent_stones | coded_move,
                            ..*old(game_board)
                        },
                    )
                }
            },
            // What is handed to the move search is fit for it.
            old(game_board).wf() ==> match update.analysis_request {
                Some(position) => position.wf() && !is_terminal(
                    position.own_stones,
                    position.opponent_stones,
                ),
                None => true,
            },
            // The stone is falling.
            !old(self).waiting_for_player && animation_running ==> {
                &&& update == no_update()
                &&& *final(game_board) == *old(game_board)
                &&& *final(self) == *old(self)
            },
            // The stone has come down.
            !old(self).waiting_for_player && !animation_running ==> {
                &&& final(game_board).opponent_stones == old(game_board).opponent_stones
                    | old(self).buffered_move
                &&& *final(self) == *old(self)
                &&& update == go_to(
                    if old(self).transition_to_game_over {
                        GameStateIndex::GameOverState
                    } else {
                        GameStateIndex::ComputerExecutionState
                    },
                )
            },
    {
        if self.waiting_for_player {
            let slot_choice = match self.slot_picked {
                Some(slot) => slot,
                None => {
                    return StateUpdate::nothing();
                },
            };

            // We have chosen a slot.
            self.slot_picked = None;

            let coded_move = game_board.get_possible_move(slot_choice);
            // Illegal move.
            if coded_move == 0 {
                return StateUpdate::nothing();
            }
            self.waiting_for_player = false;
            let mut clon = *game_board;
            clon.apply_move(coded_move, false);
            // See if we transition to game over in the end.
            self.transition_to_game_over = clon.is_game_over();
            self.buffered_move = coded_move;
            return StateUpdate {
                next_state: None,
                stone_drop: Some(StoneDrop { column: slot_choice, is_computer: false }),
                analysis_request: if self.transition_to_game_over {
                    None
                } else {
                    Some(clon)
                },
            };
        }
        // In this case the stone is falling.
        if animation_running {
            return StateUpdate::nothing();
        }
        // Animation is over at that point.
        game_board.apply_move(self.buffered_move, false);

        if self.transition_to_game_over {
            StateUpdate::transition(GameStateIndex::GameOverState)
        } else {
            StateUpdate::transition(GameStateIndex::ComputerExecutionState)
        }
    }

    /// A slot is picked, and its column offers a move on the board.
    pub open spec fn picked_open_column(&self, game_board: BitBoard) -> bool {
        match self.slot_picked {
            Some(slot) => possible_move_spec(game_board.occupancy(), slot as int) != 0,
            None => false,
        }
    }

    /// Picks the slot, that was chosen by the player, unless one is picked
    /// already.
    pub fn mouse_click(&mut self, slot: u32)
        requires
            slot < BOARD_WIDTH,
            old(self).wf(),
        ensures
            final(self).wf(),
            final(self).slot_picked == (if old(self).slot_picked.is_some() {
                old(self).slot_picked
            } else {
                Some(slot)
            }),
            final(self).transition_to_game_over == old(self).transition_to_game_over,
            final(self).buffered_move == old(self).buffered_move,
            final(self).waiting_for_player == old(self).waiting_for_player,
    {
        if self.slot_picked.is_some() {
            return ;
        }
        self.slot_picked = Some(slot);
    }
}

} // verus!
