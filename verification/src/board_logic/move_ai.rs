//! The simplest player there is: it takes the first column that is free.

use crate::board_logic::bit_board::BitBoard;
use crate::board_logic::bit_board_coding::{BOARD_WIDTH, possible_move_spec};
use std::collections::HashMap;
use vstd::prelude::*;

verus! {

/// Contains a bit board and a hash map.
pub struct MoveAI {
    bit_board: BitBoard,
    hash_map: HashMap<u128, i8>,
}

impl MoveAI {
    /// The position that the player looks at.
    pub closed spec fn board(&self) -> BitBoard {
        self.bit_board
    }

    /// The bit board is handed over intentionally with a move situation.
    pub fn new(bit_board: BitBoard) -> (player: MoveAI)
        ensures
            player.board() == bit_board,
    {
        MoveAI { bit_board, hash_map: HashMap::new() }
    }

    /// Gets the best move for the player: the leftmost column that offers a
    /// move. There has to be one.
    pub fn get_best_move(&mut self) -> (column: usize)
        requires
            exists|open: int|
                0 <= open < 7 && #[trigger] possible_move_spec(old(self).board().occupancy(), open)
                    != 0,
        ensures
            column < 7,
            possible_move_spec(old(self).board().occupancy(), column as int) != 0,
            forall|left: int|
                0 <= left < column ==> possible_move_spec(old(self).board().occupancy(), left)
                    == 0,
            final(self).board() == old(self).board(),
    {
        let mut x: u32 = 0;
        while x < BOARD_WIDTH
            invariant
                x <= 7,
                self.bit_board == old(self).bit_board,
                forall|left: int|
                    0 <= left < x ==> possible_move_spec(self.bit_board.occupancy(), left) == 0,
                exists|open: int|
                    0 <= open < 7 && #[trigger] possible_move_spec(
                        self.bit_board.occupancy(),
                        open,
                    ) != 0,
            decreases 7 - x,
        {
            if self.bit_board.get_possible_move(x) != 0 {
                return x as usize;
            }
            x += 1;
        }
        // Not reached: some column offers a move.
        0
    }
}

} // verus!
