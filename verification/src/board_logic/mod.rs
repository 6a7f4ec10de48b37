//! Board representation, position evaluation and move search.

pub mod alpha_beta;
pub mod bit_board;
pub mod bit_board_coding;
pub mod bits;
pub mod heuristic;
pub mod move_ai;
pub mod score;
