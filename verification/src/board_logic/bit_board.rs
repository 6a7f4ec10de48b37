//! This module contains the game board represented as a bit board.

use crate::board_logic::bit_board_coding::{
    all_moves_spec, BOARD_HEIGHT, BOARD_WIDTH, BOTTOM_FILL_MASK, check_for_winning, clip_shift,
    clip_shift_spec, column_height, column_mask, dir_dx, dir_dy, DIR_INCREMENT, dir_shift,
    flip_board, flip_board_spec, FULL_BOARD_MASK, get_all_possible_moves, get_bit_representation,
    get_position_iterator, get_possible_move, get_winning_board, has_four, has_stone, is_stacked,
    landing_mask, legal_moves, lemma_and_cells, lemma_clip_shift_cells, lemma_column_profile,
    lemma_constant_masks, lemma_flip_involution, lemma_full_board_cells, lemma_move_is_landing_cell,
    lemma_moves_keep_stacked, lemma_stone_bit, lemma_within_board_bit, on_board, possible_move_spec,
    stones_of, winning_board_spec, winning_spec, within_board,
};
use crate::board_logic::bits::{
    bit_at, count_bits, lemma_bit_ops, lemma_bits_equal, lemma_count_bits_bound, lemma_single_bit,
    lemma_test_bit,
};
use crate::board_logic::score::{clamp_score, clamp_spec};
use vstd::prelude::*;

verus! {

/// Encodes the game result needed for the drawing and state system.
#[derive(Clone, Copy, PartialEq, Eq, Debug, Structural)]
pub enum GameResult {
    Pending,
    Draw,
    FirstPlayerWon,
    SecondPlayerWon,
}

/// The bitboard has two representations for own and opponent stones.
#[derive(Clone, Copy, Debug)]
pub struct BitBoard {
    pub own_stones: u64,
    pub opponent_stones: u64,
    /// The board is seen from the perspective of the computer by default.
    /// This says whether the computer made the first move of the game.
    pub computer_first: bool,
}

/// This is the symmetry independent coding that can be used for the
/// transposition table.
#[derive(Hash, PartialEq, Eq, Clone, Copy, Debug, Structural)]
pub struct SymmetryIndependentPosition {
    pub own: u64,
    pub opp: u64,
}

// ---------------------------------------------------------------------------
// Positions as pairs of boards
// ---------------------------------------------------------------------------

/// The two sides share no cell, and together their stones are stacked: a
/// position that play from the empty board can reach as far as the laws of
/// gravity go.
pub open spec fn position_ok(own: u64, opp: u64) -> bool {
    own & opp == 0 && is_stacked(own | opp)
}

/// The lexicographically smaller of a position and its mirror image.
pub open spec fn canonical_spec(own: u64, opp: u64) -> SymmetryIndependentPosition {
    let flipped_own = flip_board_spec(own);
    let flipped_opp = flip_board_spec(opp);
    if own < flipped_own || (own == flipped_own && opp < flipped_opp) {
        SymmetryIndependentPosition { own: own, opp: opp }
    } else {
        SymmetryIndependentPosition { own: flipped_own, opp: flipped_opp }
    }
}

/// Every cell holds a stone.
pub open spec fn is_full(own: u64, opp: u64) -> bool {
    own | opp == FULL_BOARD_MASK
}

/// One side has four in a line, or every cell holds a stone.
pub open spec fn is_terminal(own: u64, opp: u64) -> bool {
    is_full(own, opp) || winning_spec(opp) || winning_spec(own)
}

/// `coded_move` is what some column offers as its move, and not nothing.
pub open spec fn is_legal_move(own: u64, opp: u64, coded_move: u64) -> bool {
    coded_move != 0 && exists|column: int|
        0 <= column < 7 && coded_move == #[trigger] possible_move_spec(own | opp, column)
}

/// The empty position is sound, and a sound position stays sound when the
/// two sides change places. Neither does that change whether the board is
/// full.
pub proof fn lemma_position_swapped(own: u64, opp: u64)
    by (bit_vector)
    ensures
        position_ok(0, 0),
        position_ok(own, opp) ==> position_ok(opp, own),
        is_full(own, opp) == is_full(opp, own),
        opp | own == own | opp,
{
}

/// A position and its mirror image have the same canonical form.
pub proof fn lemma_canonical_mirror(own: u64, opp: u64)
    requires
        within_board(own),
        within_board(opp),
    ensures
        canonical_spec(flip_board_spec(own), flip_board_spec(opp)) == canonical_spec(own, opp),
{
    lemma_flip_involution(own);
    lemma_flip_involution(opp);
}

/// A legal move on a sound position is a free cell. Made by either side it
/// leaves the position sound, and taken back it leaves the position as it
/// was, bit for bit.
pub proof fn lemma_apply_revoke(own: u64, opp: u64, coded_move: u64)
    requires
        position_ok(own, opp),
        is_legal_move(own, opp, coded_move),
    ensures
        coded_move & (own | opp) == 0,
        position_ok(own | coded_move, opp),
        position_ok(own, opp | coded_move),
        (own | coded_move) ^ coded_move == own,
        (opp | coded_move) ^ coded_move == opp,
{
    let column = choose|column: int|
        0 <= column < 7 && coded_move == #[trigger] possible_move_spec(own | opp, column);
    let chosen = column_mask(column);
    lemma_moves_keep_stacked(own | opp, chosen);
    let all = all_moves_spec(own | opp);
    assert(coded_move == all & chosen);
    assert(coded_move & (own | opp) == 0 && (own | coded_move) & opp == 0 && own & (opp
        | coded_move) == 0 && (own | coded_move) | opp == (own | opp) | coded_move && own | (opp
        | coded_move) == (own | opp) | coded_move && (own | coded_move) ^ coded_move == own && (opp
        | coded_move) ^ coded_move == opp) by (bit_vector)
        requires
            own & opp == 0,
            all & (own | opp) == 0,
            coded_move == all & chosen,
    ;
}

// ---------------------------------------------------------------------------
// What the board shows
// ---------------------------------------------------------------------------

/// The cells of a list, each marked as a stone of the first player or not.
pub open spec fn tag_cells(cells: Seq<(u32, u32)>, first: bool) -> Seq<(u32, u32, bool)> {
    cells.map_values(|c: (u32, u32)| (c.0, c.1, first))
}

/// The state of a game between the stones of the player who began and those
/// of the other: a win of the first is looked for first.
pub open spec fn game_result_spec(first: u64, second: u64) -> GameResult {
    if winning_spec(first) {
        GameResult::FirstPlayerWon
    } else if winning_spec(second) {
        GameResult::SecondPlayerWon
    } else if is_full(first, second) {
        GameResult::Draw
    } else {
        GameResult::Pending
    }
}

/// The cells to highlight in a game between the stones of the player who
/// began and those of the other: the lines of four of the winner.
pub open spec fn winning_cells_spec(first: u64, second: u64) -> Option<Seq<(u32, u32)>> {
    if winning_spec(first) {
        Some(stones_of(winning_board_spec(first)))
    } else if winning_spec(second) {
        Some(stones_of(winning_board_spec(second)))
    } else {
        None
    }
}

impl BitBoard {
    /// The position is sound: see [`position_ok`].
    pub open spec fn wf(&self) -> bool {
        position_ok(self.own_stones, self.opponent_stones)
    }

    /// The cells that hold a stone of either side.
    pub open spec fn occupancy(&self) -> u64 {
        self.own_stones | self.opponent_stones
    }

    /// The stones of the player who made the first move.
    pub open spec fn first_stones(&self) -> u64 {
        if self.computer_first {
            self.own_stones
        } else {
            self.opponent_stones
        }
    }

    /// The stones of the player who made the second move.
    pub open spec fn second_stones(&self) -> u64 {
        if self.computer_first {
            self.opponent_stones
        } else {
            self.own_stones
        }
    }

    /// Tests whether the position is sound.
    pub fn is_well_formed(&self) -> (sound: bool)
        ensures
            sound == self.wf(),
    {
        let occupancy = self.own_stones | self.opponent_stones;
        self.own_stones & self.opponent_stones == 0 && occupancy & !FULL_BOARD_MASK == 0
            && occupancy & !((occupancy << 8) | BOTTOM_FILL_MASK) == 0
    }

    /// The empty board, on which the computer does not begin.
    pub fn new() -> (board: BitBoard)
        ensures
            board.own_stones == 0,
            board.opponent_stones == 0,
            !board.computer_first,
            board.wf(),
    {
        proof {
            lemma_position_swapped(0, 0);
        }
        BitBoard { own_stones: 0, opponent_stones: 0, computer_first: false }
    }

    /// Resets the board at the end of the game.
    pub fn reset(&mut self)
        ensures
            final(self).own_stones == 0,
            final(self).opponent_stones == 0,
            final(self).computer_first == old(self).computer_first,
            final(self).wf(),
    {
        proof {
            lemma_position_swapped(0, 0);
        }
        self.own_stones = 0;
        self.opponent_stones = 0;
    }

    /// Generates a structure that looks the same with its symmetrically
    /// identical board. This is meant to be used for the transposition
    /// table.
    pub fn get_symmetry_independent_position(&self) -> (key: SymmetryIndependentPosition)
        ensures
            key == canonical_spec(self.own_stones, self.opponent_stones),
    {
        let flipped_own = flip_board(self.own_stones);
        let flipped_opp = flip_board(self.opponent_stones);

        // Sort lexicographically.
        if self.own_stones < flipped_own || (self.own_stones == flipped_own
            && self.opponent_stones < flipped_opp) {
            SymmetryIndependentPosition { own: self.own_stones, opp: self.opponent_stones }
        } else {
            SymmetryIndependentPosition { own: flipped_own, opp: flipped_opp }
        }
    }

    /// Gets adjusted from the outside to get the coloring right.
    pub fn set_computer_first(&mut self, is_first: bool)
        ensures
            final(self).computer_first == is_first,
            final(self).own_stones == old(self).own_stones,
            final(self).opponent_stones == old(self).opponent_stones,
    {
        self.computer_first = is_first;
    }

    /// Checks if the computer makes the first move.
    pub fn get_computer_first(&self) -> (is_first: bool)
        ensures
            is_first == self.computer_first,
    {
        self.computer_first
    }

    /// Swaps the players needed for the negamax algorithm.
    pub fn swap_players(&mut self)
        ensures
            final(self).own_stones == old(self).opponent_stones,
            final(self).opponent_stones == old(self).own_stones,
            final(self).computer_first == old(self).computer_first,
            old(self).wf() ==> final(self).wf(),
    {
        proof {
            lemma_position_swapped(self.own_stones, self.opponent_stones);
        }
        core::mem::swap(&mut self.own_stones, &mut self.opponent_stones);
    }

    /// Returns a list of stones of positions and indications, if they are
    /// first player stones: those of the first player, then those of the
    /// second. This method is slow and to be used for rendering the board.
    pub fn get_board_positioning(&self) -> (stones: Vec<(u32, u32, bool)>)
        ensures
            stones@ == tag_cells(stones_of(self.first_stones()), true) + tag_cells(
                stones_of(self.second_stones()),
                false,
            ),
    {
        let first_stones;
        let second_stones;
        if self.computer_first {
            first_stones = get_position_iterator(self.own_stones);
            second_stones = get_position_iterator(self.opponent_stones);
        } else {
            first_stones = get_position_iterator(self.opponent_stones);
            second_stones = get_position_iterator(self.own_stones);
        }
        let mut stones: Vec<(u32, u32, bool)> = Vec::new();
        let mut i: usize = 0;
        while i < first_stones.len()
            invariant
                i <= first_stones.len(),
                stones@ =~= tag_cells(first_stones@.take(i as int), true),
            decreases first_stones.len() - i,
        {
            let (x, y) = first_stones[i];
            stones.push((x, y, true));
            i += 1;
        }
        assert(first_stones@.take(first_stones.len() as int) =~= first_stones@);
        let ghost firsts = stones@;
        let mut j: usize = 0;
        while j < second_stones.len()
            invariant
                j <= second_stones.len(),
                stones@ =~= firsts + tag_cells(second_stones@.take(j as int), false),
            decreases second_stones.len() - j,
        {
            let (x, y) = second_stones[j];
            stones.push((x, y, false));
            j += 1;
        }
        assert(second_stones@.take(second_stones.len() as int) =~= second_stones@);
        stones
    }

    /// Gets in general a possible move for the board. Returns either 0 if
    /// the column is full or returns the correctly set bit.
    pub fn get_possible_move(&self, column: u32) -> (coded_move: u64)
        requires
            column < BOARD_WIDTH,
        ensures
            coded_move == possible_move_spec(self.occupancy(), column as int),
            self.wf() ==> coded_move == landing_mask(self.occupancy(), column as int),
            self.wf() && coded_move != 0 ==> is_legal_move(
                self.own_stones,
                self.opponent_stones,
                coded_move,
            ),
    {
        get_possible_move(self.own_stones | self.opponent_stones, column)
    }

    /// Gets the destination height for a move. This is the slot number,
    /// where the move will wind up. The method is slow and only intended to
    /// be used for rendering purposes. Returns none if the move is not
    /// possible.
    pub fn get_move_destination(&self, column: u32) -> (row: Option<u32>)
        requires
            column < BOARD_WIDTH,
        ensures
            match row {
                Some(y) => {
                    &&& has_stone(
                        possible_move_spec(self.occupancy(), column as int),
                        column as int,
                        y as int,
                    )
                    &&& forall|b: int|
                        0 <= b < y ==> !has_stone(
                            possible_move_spec(self.occupancy(), column as int),
                            column as int,
                            b,
                        )
                },
                None => forall|b: int|
                    !has_stone(
                        possible_move_spec(self.occupancy(), column as int),
                        column as int,
                        b,
                    ),
            },
            self.wf() ==> match row {
                Some(y) => y == column_height(self.occupancy(), column as int),
                None => column_height(self.occupancy(), column as int) == 6,
            },
    {
        let move_spot = get_possible_move(self.own_stones | self.opponent_stones, column);
        let ghost height = column_height(self.occupancy(), column as int);
        proof {
            if self.wf() {
                lemma_landing_row(self.occupancy(), column as int);
                lemma_column_profile(self.occupancy(), column as int);
            }
        }
        let mut y: u32 = 0;
        while y < BOARD_HEIGHT
            invariant
                y <= 6,
                column < 7,
                move_spot == possible_move_spec(self.occupancy(), column as int),
                height == column_height(self.occupancy(), column as int),
                self.wf() ==> 0 <= height <= 6,
                self.wf() ==> forall|b: int|
                    has_stone(move_spot, column as int, b) <==> 0 <= b < 6 && b == height,
                forall|b: int| 0 <= b < y ==> !has_stone(move_spot, column as int, b),
            decreases 6 - y,
        {
            let bit = get_bit_representation(column, y);
            proof {
                lemma_test_bit(move_spot, (column + 8 * y) as u64);
            }
            if move_spot & bit != 0 {
                assert(has_stone(move_spot, column as int, y as int));
                return Some(y);
            }
            y += 1;
        }
        assert(self.wf() && height < 6 ==> has_stone(move_spot, column as int, height));
        None
    }

    /// Simplifies making a move on a column on the outside. It has to be
    /// guaranteed that the move is possible. This function is meant for the
    /// user interface only and not the search.
    pub fn apply_move_on_column(&mut self, column: u32, is_computer: bool)
        requires
            column < BOARD_WIDTH,
            possible_move_spec(old(self).occupancy(), column as int) != 0,
        ensures
            final(self).own_stones == if is_computer {
                old(self).own_stones | possible_move_spec(old(self).occupancy(), column as int)
            } else {
                old(self).own_stones
            },
            final(self).opponent_stones == if is_computer {
                old(self).opponent_stones
            } else {
                old(self).opponent_stones | possible_move_spec(
                    old(self).occupancy(),
                    column as int,
                )
            },
            final(self).computer_first == old(self).computer_first,
            old(self).wf() ==> final(self).wf(),
    {
        let coded_move = self.get_possible_move(column);
        self.apply_move(coded_move, is_computer);
    }

    /// Applies an encoded move as handed out by [`BitBoard::get_possible_move`]
    /// to the stones of the computer or to those of the other player.
    pub fn apply_move(&mut self, coded_move: u64, is_computer: bool)
        ensures
            final(self).own_stones == if is_computer {
                old(self).own_stones | coded_move
            } else {
                old(self).own_stones
            },
            final(self).opponent_stones == if is_computer {
                old(self).opponent_stones
            } else {
                old(self).opponent_stones | coded_move
            },
            final(self).computer_first == old(self).computer_first,
            old(self).wf() && is_legal_move(
                old(self).own_stones,
                old(self).opponent_stones,
                coded_move,
            ) ==> final(self).wf(),
    {
        proof {
            if self.wf() && is_legal_move(self.own_stones, self.opponent_stones, coded_move) {
                lemma_apply_revoke(self.own_stones, self.opponent_stones, coded_move);
            }
        }
        if is_computer {
            self.own_stones |= coded_move;
        } else {
            self.opponent_stones |= coded_move;
        }
    }

    /// Revokes an encoded move as handed out by
    /// [`BitBoard::get_possible_move`]. It is used to precheck, if a move
    /// would result in an ending of the game.
    pub fn revoke_move(&mut self, coded_move: u64, is_computer: bool)
        ensures
            final(self).own_stones == if is_computer {
                old(self).own_stones ^ coded_move
            } else {
                old(self).own_stones
            },
            final(self).opponent_stones == if is_computer {
                old(self).opponent_stones
            } else {
                old(self).opponent_stones ^ coded_move
            },
            final(self).computer_first == old(self).computer_first,
    {
        if is_computer {
            self.own_stones ^= coded_move;
        } else {
            self.opponent_stones ^= coded_move;
        }
    }

    /// The apply move as intended to be used in the search, as this will
    /// always refer to the own stones.
    pub fn apply_move_active(&mut self, coded_move: u64)
        ensures
            final(self).own_stones == old(self).own_stones | coded_move,
            final(self).opponent_stones == old(self).opponent_stones,
            final(self).computer_first == old(self).computer_first,
    {
        self.own_stones |= coded_move;
    }

    /// Revokes the move as used in the search.
    pub fn revoke_move_active(&mut self, coded_move: u64)
        ensures
            final(self).own_stones == old(self).own_stones ^ coded_move,
            final(self).opponent_stones == old(self).opponent_stones,
            final(self).computer_first == old(self).computer_first,
    {
        self.own_stones ^= coded_move;
    }

    /// Checks if we have a draw situation under the assumption that we do
    /// not have a winning one.
    #[inline(always)]
    pub fn check_for_draw_if_not_winning(&self) -> (full: bool)
        ensures
            full == is_full(self.own_stones, self.opponent_stones),
            full <==> within_board(self.occupancy()) && forall|x: int, y: int|
                on_board(x, y) ==> #[trigger] has_stone(self.occupancy(), x, y),
    {
        let compound = self.opponent_stones | self.own_stones;
        proof {
            lemma_position_swapped(self.own_stones, self.opponent_stones);
            lemma_full_cells(compound);
        }
        compound == FULL_BOARD_MASK
    }

    /// Gets all possible moves. This method is meant for the search. Each
    /// entry holds the move and the column it belongs to.
    #[inline(always)]
    pub fn get_all_possible_moves(&self) -> (moves: Vec<(u64, u32)>)
        ensures
            moves@ == legal_moves(self.occupancy()),
    {
        proof {
            lemma_position_swapped(self.own_stones, self.opponent_stones);
        }
        get_all_possible_moves(self.opponent_stones | self.own_stones)
    }

    /// Easy game over method to be used for the game state system to
    /// determine the follow-up states.
    pub fn is_game_over(&self) -> (over: bool)
        ensures
            over == is_terminal(self.own_stones, self.opponent_stones),
            within_board(self.own_stones) && within_board(self.opponent_stones) ==> over == (
            is_full(self.own_stones, self.opponent_stones) || has_four(self.own_stones)
                || has_four(self.opponent_stones)),
    {
        self.check_for_draw_if_not_winning() || check_for_winning(self.opponent_stones)
            || check_for_winning(self.own_stones)
    }

    /// Analyzes the winning condition for the game board to be used in
    /// combination with the user interface. It returns the situation and, if
    /// one party has won, the coordinates of the stones that make up its
    /// lines of four. These can be more than four.
    pub fn get_winning_status_for_rendering(&self) -> (status: (
        GameResult,
        Option<Vec<(u32, u32)>>,
    ))
        ensures
            status.0 == game_result_spec(self.first_stones(), self.second_stones()),
            match status.1 {
                Some(cells) => winning_cells_spec(self.first_stones(), self.second_stones())
                    == Some(cells@),
                None => winning_cells_spec(self.first_stones(), self.second_stones()) is None,
            },
    {
        let first_board;
        let second_board;

        if self.computer_first {
            first_board = self.own_stones;
            second_board = self.opponent_stones;
        } else {
            first_board = self.opponent_stones;
            second_board = self.own_stones;
        }
        assert(is_full(first_board, second_board) == is_full(
            self.own_stones,
            self.opponent_stones,
        )) by {
            lemma_position_swapped(self.own_stones, self.opponent_stones);
        }

        if check_for_winning(first_board) {
            (
                GameResult::FirstPlayerWon,
                Some(get_position_iterator(get_winning_board(first_board))),
            )
        } else if check_for_winning(second_board) {
            (
                GameResult::SecondPlayerWon,
                Some(get_position_iterator(get_winning_board(second_board))),
            )
        } else if self.check_for_draw_if_not_winning() {
            (GameResult::Draw, None)
        } else {
            (GameResult::Pending, None)
        }
    }
}

/// A board is the full mask exactly if it has no guard bit and a stone in
/// every cell.
pub proof fn lemma_full_cells(board: u64)
    ensures
        board == FULL_BOARD_MASK <==> within_board(board) && forall|x: int, y: int|
            on_board(x, y) ==> #[trigger] has_stone(board, x, y),
{
    lemma_full_board_cells();
    if within_board(board) && forall|x: int, y: int|
        on_board(x, y) ==> #[trigger] has_stone(board, x, y) {
        assert forall|i: u64| i < 64 implies bit_at(board, i) == bit_at(FULL_BOARD_MASK, i) by {
            if i % 8 < 7 && i / 8 < 6 {
                assert(has_stone(board, (i % 8) as int, (i / 8) as int));
                assert(has_stone(FULL_BOARD_MASK, (i % 8) as int, (i / 8) as int));
                assert((i % 8) + 8 * (i / 8) == i);
            } else {
                lemma_constant_masks();
                if bit_at(board, i) {
                    lemma_within_board_bit(board, i);
                }
            }
        }
        lemma_bits_equal(board, FULL_BOARD_MASK);
    }
}

/// On a stacked board the move of a column has its stone in the row of the
/// column's height and in no other.
pub proof fn lemma_landing_row(board: u64, column: int)
    requires
        is_stacked(board),
        0 <= column < 7,
    ensures
        forall|y: int|
            has_stone(possible_move_spec(board, column), column, y) <==> 0 <= y < 6 && y
                == column_height(board, column),
{
    lemma_move_is_landing_cell(board, column);
    lemma_column_profile(board, column);
    let h = column_height(board, column);
    let m = possible_move_spec(board, column);
    assert forall|y: int| has_stone(m, column, y) <==> 0 <= y < 6 && y == h by {
        if 0 <= y < 6 {
            if h < 6 {
                lemma_single_bit((column + 8 * h) as u64);
            } else {
                lemma_bit_ops(0, 0);
            }
        }
    }
}

// ---------------------------------------------------------------------------
// Heuristic evaluation
// ---------------------------------------------------------------------------

/// The worth of an open triplet.
pub const OPEN_TRIPLET_SCORE: i64 = 40_000_000;

/// The worth of a doublet.
pub const DOUBLET_SCORE: i64 = 10_000_000;

/// The worth of a stone on the center column.
pub const CENTER_SCORE: i64 = 7_000_000;

/// The worth of a stone one column beside the center column.
pub const ONE_OFF_CENTER_SCORE: i64 = 3_000_000;

/// The worth of a stone two columns beside the center column.
pub const TWO_OFF_CENTER_SCORE: i64 = 1_500_000;

/// Masking the central column, the two columns beside the central one and
/// the pair one further out.
pub const BOARD_EVALUATION_MASK: [u64; 3] = [
    0x0000_0808_0808_0808,
    0x0000_1414_1414_1414,
    0x0000_2222_2222_2222,
];

/// The evaluation masks are made of whole columns.
pub proof fn lemma_evaluation_masks()
    ensures
        BOARD_EVALUATION_MASK[0] == column_mask(3),
        BOARD_EVALUATION_MASK[1] == column_mask(2) | column_mask(4),
        BOARD_EVALUATION_MASK[2] == column_mask(1) | column_mask(5),
{
    assert(0x0000_0808_0808_0808u64 == column_mask(3) && 0x0000_1414_1414_1414u64 == column_mask(2)
        | column_mask(4) && 0x0000_2222_2222_2222u64 == column_mask(1) | column_mask(5))
        by (bit_vector);
}

/// The cells that hold a stone of `board` and have another one step back
/// along the shift `s`: one bit for each pair of neighbours in that line.
pub open spec fn pairs_spec(board: u64, s: u64) -> u64 {
    clip_shift_spec(board, s) & board
}

/// The cells that hold the last of three stones of `board` in a line along
/// the shift `s`.
pub open spec fn triples_spec(board: u64, s: u64) -> u64 {
    clip_shift_spec(pairs_spec(board, s), s) & board
}

/// The free cells right behind three stones in a line along the shift `s`.
pub open spec fn open_after_spec(board: u64, free_spots: u64, s: u64) -> u64 {
    clip_shift_spec(triples_spec(board, s), s) & free_spots
}

/// The free cells right before three stones in a line along the shift `s`.
pub open spec fn open_before_spec(board: u64, free_spots: u64, s: u64) -> u64 {
    (triples_spec(board, s) >> ((3 * s) as u64)) & free_spots
}

/// The three cells behind `(x, y)` along direction `k` hold stones of
/// `board`.
pub open spec fn three_behind(board: u64, x: int, y: int, k: int) -> bool {
    &&& has_stone(board, x - dir_dx(k), y - dir_dy(k))
    &&& has_stone(board, x - 2 * dir_dx(k), y - 2 * dir_dy(k))
    &&& has_stone(board, x - 3 * dir_dx(k), y - 3 * dir_dy(k))
}

/// The three cells ahead of `(x, y)` along direction `k` hold stones of
/// `board`.
pub open spec fn three_ahead(board: u64, x: int, y: int, k: int) -> bool {
    &&& has_stone(board, x + dir_dx(k), y + dir_dy(k))
    &&& has_stone(board, x + 2 * dir_dx(k), y + 2 * dir_dy(k))
    &&& has_stone(board, x + 3 * dir_dx(k), y + 3 * dir_dy(k))
}

/// A pair is counted in the cell of a stone that has a stone one step
/// behind it.
pub proof fn lemma_pairs_cells(board: u64, k: int)
    requires
        within_board(board),
        0 <= k < 4,
    ensures
        within_board(pairs_spec(board, dir_shift(k))),
        forall|x: int, y: int|
            has_stone(pairs_spec(board, dir_shift(k)), x, y) <==> has_stone(board, x, y)
                && has_stone(board, x - dir_dx(k), y - dir_dy(k)),
{
    let s = dir_shift(k);
    lemma_clip_shift_cells(board, k);
    lemma_and_cells(clip_shift_spec(board, s), board);
    lemma_pattern_within(clip_shift_spec(board, s), board);
}

/// What is left of a board under a mask has no guard bit.
pub proof fn lemma_pattern_within(mask: u64, board: u64)
    by (bit_vector)
    ensures
        within_board(board) ==> within_board(mask & board),
        within_board(mask) ==> within_board(mask & board),
{
}

/// A line of three is counted in the cell of its last stone.
pub proof fn lemma_triples_cells(board: u64, k: int)
    requires
        within_board(board),
        0 <= k < 4,
    ensures
        within_board(triples_spec(board, dir_shift(k))),
        forall|x: int, y: int|
            has_stone(triples_spec(board, dir_shift(k)), x, y) <==> has_stone(board, x, y)
                && has_stone(board, x - dir_dx(k), y - dir_dy(k)) && has_stone(
                board,
                x - 2 * dir_dx(k),
                y - 2 * dir_dy(k),
            ),
{
    let s = dir_shift(k);
    let pairs = pairs_spec(board, s);
    lemma_pairs_cells(board, k);
    lemma_clip_shift_cells(pairs, k);
    lemma_and_cells(clip_shift_spec(pairs, s), board);
    lemma_pattern_within(clip_shift_spec(pairs, s), board);
    assert forall|x: int, y: int|
        has_stone(triples_spec(board, s), x, y) <==> has_stone(board, x, y) && has_stone(
            board,
            x - dir_dx(k),
            y - dir_dy(k),
        ) && has_stone(board, x - 2 * dir_dx(k), y - 2 * dir_dy(k)) by {
        assert(x - dir_dx(k) - dir_dx(k) == x - 2 * dir_dx(k));
        assert(y - dir_dy(k) - dir_dy(k) == y - 2 * dir_dy(k));
    }
}

/// An open triplet is counted in the free cell right behind three stones in
/// a line.
pub proof fn lemma_open_after_cells(board: u64, free_spots: u64, k: int)
    requires
        within_board(board),
        0 <= k < 4,
    ensures
        forall|x: int, y: int|
            has_stone(open_after_spec(board, free_spots, dir_shift(k)), x, y) <==> has_stone(
                free_spots,
                x,
                y,
            ) && three_behind(board, x, y, k),
{
    let s = dir_shift(k);
    let triples = triples_spec(board, s);
    lemma_triples_cells(board, k);
    lemma_clip_shift_cells(triples, k);
    lemma_and_cells(clip_shift_spec(triples, s), free_spots);
    assert forall|x: int, y: int|
        has_stone(open_after_spec(board, free_spots, s), x, y) <==> has_stone(free_spots, x, y)
            && three_behind(board, x, y, k) by {
        assert(x - dir_dx(k) - dir_dx(k) == x - 2 * dir_dx(k));
        assert(y - dir_dy(k) - dir_dy(k) == y - 2 * dir_dy(k));
        assert(x - dir_dx(k) - 2 * dir_dx(k) == x - 3 * dir_dx(k));
        assert(y - dir_dy(k) - 2 * dir_dy(k) == y - 3 * dir_dy(k));
    }
}

/// The bit three shifts above the bit of a cell.
proof fn lemma_three_shifts_bits(triples: u64, s: u64, i: u64)
    by (bit_vector)
    requires
        s == 1 || s == 7 || s == 8 || s == 9,
        i < 48,
    ensures
        bit_at(triples >> ((3 * s) as u64), i) <==> bit_at(triples, (i + 3 * s) as u64),
{
}

/// An open triplet is counted in the free cell right before three stones in
/// a line.
pub proof fn lemma_open_before_cells(board: u64, free_spots: u64, k: int)
    requires
        within_board(board),
        0 <= k < 4,
    ensures
        forall|x: int, y: int|
            has_stone(open_before_spec(board, free_spots, dir_shift(k)), x, y) <==> has_stone(
                free_spots,
                x,
                y,
            ) && three_ahead(board, x, y, k),
{
    let s = dir_shift(k);
    let dx = dir_dx(k);
    let dy = dir_dy(k);
    let triples = triples_spec(board, s);
    lemma_triples_cells(board, k);
    lemma_and_cells(triples >> ((3 * s) as u64), free_spots);
    assert forall|x: int, y: int|
        has_stone(open_before_spec(board, free_spots, s), x, y) <==> has_stone(free_spots, x, y)
            && three_ahead(board, x, y, k) by {
        if on_board(x, y) {
            let i = (x + 8 * y) as u64;
            let end = (i + 3 * s) as u64;
            lemma_three_shifts_bits(triples, s, i);
            assert(end == (x + 3 * dx) + 8 * (y + 3 * dy));
            assert(x + 3 * dx - dx == x + 2 * dx && y + 3 * dy - dy == y + 2 * dy);
            assert(x + 3 * dx - 2 * dx == x + dx && y + 3 * dy - 2 * dy == y + dy);
            let shifted = triples >> ((3 * s) as u64);
            assert(has_stone(shifted & free_spots, x, y) <==> has_stone(shifted, x, y)
                && has_stone(free_spots, x, y));
            assert(has_stone(shifted, x, y) <==> bit_at(triples, end));
            if bit_at(triples, end) {
                // The line of three that ends in this bit begins one step
                // ahead of the cell: the bit two shifts below the end is a
                // stone, so one step ahead the board is not left.
                lemma_bit_ops(triples, triples);
                lemma_stone_bit(triples, end);
                let a = (end % 8) as int;
                let b = (end / 8) as int;
                assert(has_stone(triples, a, b));
                assert(has_stone(board, a - 2 * dx, b - 2 * dy));
                assert((a - 2 * dx) + 8 * (b - 2 * dy) == (x + dx) + 8 * (y + dy));
                assert(b - 2 * dy == y + dy);
                assert(a == x + 3 * dx && b == y + 3 * dy);
                assert(a - dx == x + 2 * dx && b - dy == y + 2 * dy);
                assert(three_ahead(board, x, y, k));
            }
            if three_ahead(board, x, y, k) {
                assert(has_stone(triples, x + 3 * dx, y + 3 * dy));
                assert(bit_at(triples, end));
            }
        }
    }
}

/// The doublets of `board` along the directions below `k`.
pub open spec fn doublets_below(board: u64, k: int) -> nat
    decreases k,
{
    if k <= 0 {
        0
    } else {
        doublets_below(board, k - 1) + count_bits(pairs_spec(board, dir_shift(k - 1)))
    }
}

/// The open triplets of `board` along the directions below `k`: a line of
/// three counts once for each of its two ends that is free.
pub open spec fn triplets_below(board: u64, free_spots: u64, k: int) -> nat
    decreases k,
{
    if k <= 0 {
        0
    } else {
        triplets_below(board, free_spots, k - 1) + count_bits(
            open_after_spec(board, free_spots, dir_shift(k - 1)),
        ) + count_bits(open_before_spec(board, free_spots, dir_shift(k - 1)))
    }
}

/// The number of pairs of neighbouring stones of `board`, along all four
/// directions.
pub open spec fn doublet_count(board: u64) -> nat {
    doublets_below(board, 4)
}

/// The number of open ends of lines of three stones of `board`, along all
/// four directions.
pub open spec fn open_triplet_count(board: u64, free_spots: u64) -> nat {
    triplets_below(board, free_spots, 4)
}

/// The worth of where the stones of `board` stand: the closer to the center
/// column, the better.
pub open spec fn board_scoring_spec(board: u64) -> int {
    CENTER_SCORE * count_bits(board & BOARD_EVALUATION_MASK[0]) + ONE_OFF_CENTER_SCORE
        * count_bits(board & BOARD_EVALUATION_MASK[1]) + TWO_OFF_CENTER_SCORE * count_bits(
        board & BOARD_EVALUATION_MASK[2],
    )
}

/// The cells without a stone.
pub open spec fn free_spots_spec(own: u64, opp: u64) -> u64 {
    !(opp | own) & FULL_BOARD_MASK
}

/// What one side has: its open triplets, its doublets and the places of its
/// stones, each with its worth.
pub open spec fn side_score_spec(board: u64, free_spots: u64) -> int {
    OPEN_TRIPLET_SCORE * open_triplet_count(board, free_spots) + DOUBLET_SCORE * doublet_count(
        board,
    ) + board_scoring_spec(board)
}

/// The estimate of a position before it is clamped: what the own side has
/// less what the opponent has.
pub open spec fn raw_heuristic_spec(own: u64, opp: u64) -> int {
    side_score_spec(own, free_spots_spec(own, opp)) - side_score_spec(
        opp,
        free_spots_spec(own, opp),
    )
}

/// The estimate of a position, clamped to the range from `-clamp_guard` to
/// `clamp_guard`.
pub open spec fn heuristic_spec(own: u64, opp: u64, clamp_guard: int) -> int {
    clamp_spec(raw_heuristic_spec(own, opp), clamp_guard)
}

/// The estimate of a position changes its sign when the two sides change
/// places.
pub proof fn lemma_heuristic_antisymmetric(own: u64, opp: u64, clamp_guard: int)
    requires
        0 <= clamp_guard,
    ensures
        heuristic_spec(opp, own, clamp_guard) == -heuristic_spec(own, opp, clamp_guard),
{
    lemma_position_swapped(own, opp);
}

/// The two counts and the worth of the places are bounded.
pub proof fn lemma_side_score_bound(board: u64, free_spots: u64)
    ensures
        doublet_count(board) <= 256,
        open_triplet_count(board, free_spots) <= 512,
        0 <= board_scoring_spec(board) <= 736_000_000,
        0 <= side_score_spec(board, free_spots) <= 23_776_000_000,
{
    lemma_counts_below(board, free_spots, 4);
    lemma_count_bits_bound(board & BOARD_EVALUATION_MASK[0], 64);
    lemma_count_bits_bound(board & BOARD_EVALUATION_MASK[1], 64);
    lemma_count_bits_bound(board & BOARD_EVALUATION_MASK[2], 64);
}

proof fn lemma_counts_below(board: u64, free_spots: u64, k: int)
    requires
        0 <= k <= 4,
    ensures
        doublets_below(board, k) <= 64 * k,
        triplets_below(board, free_spots, k) <= 128 * k,
    decreases k,
{
    if k > 0 {
        lemma_counts_below(board, free_spots, k - 1);
        let s = dir_shift(k - 1);
        lemma_count_bits_bound(pairs_spec(board, s), 64);
        lemma_count_bits_bound(open_after_spec(board, free_spots, s), 64);
        lemma_count_bits_bound(open_before_spec(board, free_spots, s), 64);
    }
}

impl BitBoard {
    /// Returns the number of doublets and of open triplets we have, in this
    /// order.
    pub fn count_open_three_and_doubles(board: u64, free_spots: u64) -> (counts: (u32, u32))
        ensures
            counts.0 == doublet_count(board),
            counts.1 == open_triplet_count(board, free_spots),
    {
        let mut triplets: u32 = 0;
        let mut doublets: u32 = 0;
        let mut k: usize = 0;
        while k < 4
            invariant
                k <= 4,
                doublets == doublets_below(board, k as int),
                triplets == triplets_below(board, free_spots, k as int),
            decreases 4 - k,
        {
            let bit_shift = DIR_INCREMENT[k];
            assert(bit_shift as u64 == dir_shift(k as int));
            proof {
                lemma_counts_below(board, free_spots, k as int);
                lemma_counts_below(board, free_spots, k + 1);
            }
            // ooo_ pattern
            let d = clip_shift(board, bit_shift) & board;
            doublets += d.count_ones();
            let dd = clip_shift(d, bit_shift) & board;
            let triplets_after = clip_shift(dd, bit_shift) & free_spots;
            proof {
                lemma_count_bits_bound(triplets_after, 64);
            }
            triplets += triplets_after.count_ones();

            // _ooo pattern
            let triplets_before = (dd >> (3 * bit_shift)) & free_spots;
            triplets += triplets_before.count_ones();
            k += 1;
        }
        (doublets, triplets)
    }

    /// Counts the amount of stones that are on the center line, one line
    /// away from the center line and two lines away from the center line,
    /// multiplies each with its worth and adds it up.
    pub fn get_board_scoring(board: u64) -> (score: i64)
        ensures
            score == board_scoring_spec(board),
    {
        proof {
            lemma_count_bits_bound(board & BOARD_EVALUATION_MASK[0], 64);
            lemma_count_bits_bound(board & BOARD_EVALUATION_MASK[1], 64);
            lemma_count_bits_bound(board & BOARD_EVALUATION_MASK[2], 64);
        }
        let center = (board & BOARD_EVALUATION_MASK[0]).count_ones() as i64 * CENTER_SCORE;
        let one_off_center = (board & BOARD_EVALUATION_MASK[1]).count_ones() as i64
            * ONE_OFF_CENTER_SCORE;
        let two_off_center = (board & BOARD_EVALUATION_MASK[2]).count_ones() as i64
            * TWO_OFF_CENTER_SCORE;

        center + one_off_center + two_off_center
    }

    /// Does the complete heuristic evaluation of the game board, from the
    /// point of view of the own stones. The game must not be over.
    pub fn compute_heuristics(&self, clamp_guard: i64) -> (score: i64)
        requires
            !is_terminal(self.own_stones, self.opponent_stones),
            0 <= clamp_guard,
        ensures
            score == heuristic_spec(self.own_stones, self.opponent_stones, clamp_guard as int),
            -clamp_guard <= score <= clamp_guard,
    {
        let free_spots = !(self.opponent_stones | self.own_stones) & FULL_BOARD_MASK;
        let mut score: i64 = 0;
        proof {
            lemma_side_score_bound(self.own_stones, free_spots);
            lemma_side_score_bound(self.opponent_stones, free_spots);
        }

        // 1. Pairing combination
        let (doublets, open_three) = Self::count_open_three_and_doubles(
            self.own_stones,
            free_spots,
        );
        score += open_three as i64 * OPEN_TRIPLET_SCORE;
        score += doublets as i64 * DOUBLET_SCORE;
        let (doublets, open_three) = Self::count_open_three_and_doubles(
            self.opponent_stones,
            free_spots,
        );
        score -= open_three as i64 * OPEN_TRIPLET_SCORE;
        score -= doublets as i64 * DOUBLET_SCORE;

        // 2. Board control.
        score += Self::get_board_scoring(self.own_stones);
        score -= Self::get_board_scoring(self.opponent_stones);

        // We do not clamp against exactly one, so that whatever the outcome
        // is, it will always be dominated by a guaranteed win or loss.
        clamp_score(score, clamp_guard)
    }
}

} // verus!
