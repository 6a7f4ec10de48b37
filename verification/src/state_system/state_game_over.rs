//! This module holds the game over part with the winning situation. On a
//! click we transfer to the player selection screen.

use crate::board_logic::bit_board::{
    game_result_spec, winning_cells_spec, BitBoard, GameResult,
};
use crate::state_system::game_state::GameStateIndex;
use vstd::prelude::*;

verus! {

pub struct StateGameOver {
    /// How the game ended.
    pub end_result: GameResult,
    /// The stones of the winning lines.
    pub highlighted_stones: Vec<(u32, u32)>,
    /// The click that ends the state has come.
    pub exit_pressed: bool,
}

impl StateGameOver {
    pub fn new() -> (state: StateGameOver)
        ensures
            state.end_result == GameResult::Pending,
            state.highlighted_stones@ == Seq::<(u32, u32)>::empty(),
            !state.exit_pressed,
    {
        StateGameOver {
            end_result: GameResult::Pending,
            highlighted_stones: Vec::new(),
            exit_pressed: false,
        }
    }

    /// On enter we extract the information of why the game is over and the
    /// stones to highlight. The game has to be over.
    pub fn enter(&mut self, game_board: &BitBoard)
        requires
            game_result_spec(game_board.first_stones(), game_board.second_stones())
                != GameResult::Pending,
        ensures
            final(self).end_result == game_result_spec(
                game_board.first_stones(),
                game_board.second_stones(),
            ),
            final(self).highlighted_stones@ == match winning_cells_spec(
                game_board.first_stones(),
                game_board.second_stones(),
            ) {
                Some(cells) => cells,
                None => Seq::empty(),
            },
            !final(self).exit_pressed,
    {
        let (state, list) = game_board.get_winning_status_for_rendering();
        self.end_result = state;
        self.highlighted_stones = match list {
            Some(cells) => cells,
            None => Vec::new(),
        };
        self.exit_pressed = false;
    }

    /// When the exit got triggered we leave and clear the board and go for
    /// start selection.
    pub fn update(&mut self, game_board: &mut BitBoard) -> (next_state: Option<GameStateIndex>)
        ensures
            final(self).end_result == old(self).end_result,
            final(self).highlighted_stones@ == old(self).highlighted_stones@,
            final(self).exit_pressed == old(self).exit_pressed,
            old(self).exit_pressed ==> {
                &&& next_state == Some(GameStateIndex::StartSelection)
                &&& final(game_board).own_stones == 0
                &&& final(game_board).opponent_stones == 0
                &&& final(game_board).computer_first == old(game_board).computer_first
            },
            !old(self).exit_pressed ==> {
                &&& next_state.is_none()
                &&& *final(game_board) == *old(game_board)
            },
    {
        if self.exit_pressed {
            game_board.reset();
            Some(GameStateIndex::StartSelection)
        } else {
            None
        }
    }

    /// A mouse button got pressed: flags that we want to leave.
    pub fn mouse_click(&mut self)
        ensures
            final(self).exit_pressed,
            final(self).end_result == old(self).end_result,
            final(self).highlighted_stones@ == old(self).highlighted_stones@,
    {
        self.exit_pressed = true;
    }
}

} // verus!
