//! At the highest level a game is a state machine. These states get
//! reflected in this module, as far as they decide: which state follows,
//! which stone is to be dropped, which position is to be analyzed.
//!
//! What a state needs from outside comes in as plain values: which button
//! or slot was clicked, whether a stone is still falling, which move was
//! computed. What it wants done goes out as a
//! [`game_state::StateUpdate`].
//!
//! We have 4 states:
//! 1. The player select state, where the player can choose who starts.
//! 2. The computer execution state, where the move of the computer is
//!    awaited and executed.
//! 3. The player input state, where the player picks a slot and the stone
//!    falls. The calculation of the answer is also kicked off here.
//! 4. The game end state, that shows the game situation and waits for a
//!    click to start over.
//!
//! Transitions are
//! * 1->2: If the player chooses to be second, the computer starts.
//! * 1->3: When the player chooses to start, we wind up here.
//! * 2->3: When the computer move is executed and the game end is not
//!   reached we go to player input.
//! * 2->4: The computer move resulted in a win or a draw.
//! * 3->2: When the player has made the input and the input does not result
//!   in ending the game, we go over to 2.
//! * 3->4: When the player input results in ending the game, the stone still
//!   falls and then the transfer happens.
//! * 4->1: When the player has acknowledged the result, we go to selection
//!   again.

pub mod game_state;
pub mod state_computer_execution;
pub mod state_game_over;
pub mod state_player_input;
pub mod state_player_start_selection;
