//! A connect-four engine: a bit-level board with constant-time win detection
//! and an alpha-beta pruned negamax search over it, and the states that a
//! game against it runs through.
//!
//! * [`board_logic::bit_board_coding`] holds the bit tricks on single
//!   boards: masks, mirroring, move generation and the detection of lines of
//!   four. Its contracts are stated twice, over the bit patterns and over
//!   the grid of cells.
//! * [`board_logic::bit_board`] holds the position of a game, the stones of
//!   both sides, with its moves, its canonical form and its heuristic
//!   evaluation.
//! * [`board_logic::alpha_beta`] holds the move search with its
//!   transposition table.
//! * [`board_logic::heuristic`] holds a second heuristic evaluation, by a
//!   table of cell values.
//! * [`board_logic::score`] holds the scale of the values that the search
//!   and the evaluations compute with.
//! * [`state_system`] holds the states of a game on the screen, as far as
//!   they decide.
//!
//! Every executable function of the crate is verified against its contract.

pub mod board_logic;
pub mod state_system;
