use connect_four::board_logic::bit_board::BitBoard;
use connect_four::board_logic::bit_board_coding::FULL_BOARD_MASK;
use connect_four::board_logic::heuristic::{
    compute_heuristics, count_open_three, get_board_scoring, make_adjusted_value,
    make_value_bitmask, BOARD_POSITION_CODING_VALUE, CELL_VALUE_HALVES, OPEN_THREE_SCORE,
    QUARTER_SQUARE_SCORE, VALUE_POSITION_BITMASK,
};
use connect_four::board_logic::score::CLAMP_GUARD_HEURISTIC;

fn bit(x: u32, y: u32) -> u64 {
    1u64 << (x + 8 * y)
}

fn free(own: u64, opp: u64) -> u64 {
    !(own | opp) & FULL_BOARD_MASK
}

fn position(own: u64, opp: u64) -> BitBoard {
    let mut board = BitBoard::new();
    board.own_stones = own;
    board.opponent_stones = opp;
    board
}

#[test]
fn open_three_patterns() {
    assert_eq!(count_open_three(0, FULL_BOARD_MASK), 0);
    assert_eq!(count_open_three(bit(0, 0) | bit(1, 0), free(bit(0, 0) | bit(1, 0), 0)), 0);
    // Three in a row with both ends free.
    let own = bit(2, 0) | bit(3, 0) | bit(4, 0);
    assert_eq!(count_open_three(own, free(own, 0)), 2);
    // Three in four cells with a gap.
    let own = bit(0, 0) | bit(1, 0) | bit(3, 0);
    assert_eq!(count_open_three(own, free(own, 0)), 1);
    assert_eq!(count_open_three(own, free(own, bit(2, 0))), 0);
    let own = bit(0, 0) | bit(2, 0) | bit(3, 0);
    assert_eq!(count_open_three(own, free(own, 0)), 1);
    // Columns and diagonals.
    let own = bit(3, 0) | bit(3, 1) | bit(3, 2);
    assert_eq!(count_open_three(own, free(own, 0)), 1);
    let own = bit(3, 3) | bit(3, 4) | bit(3, 5);
    assert_eq!(count_open_three(own, free(own, 0)), 1);
    let own = bit(0, 0) | bit(1, 1) | bit(2, 2);
    assert_eq!(count_open_three(own, free(own, 0)), 1);
    let own = bit(0, 0) | bit(1, 1) | bit(3, 3);
    assert_eq!(count_open_three(own, free(own, 0)), 1);
    let own = bit(6, 0) | bit(4, 2) | bit(3, 3);
    assert_eq!(count_open_three(own, free(own, 0)), 1);
    // Nothing runs round the edge.
    let own = bit(5, 0) | bit(6, 0) | bit(1, 1);
    assert_eq!(count_open_three(own, free(own, 0)), 0);
    assert_eq!(count_open_three(0x77_7777, free(0x77_7777, 0)), 20);
}

#[test]
fn value_table_is_squared_and_scaled() {
    assert_eq!(QUARTER_SQUARE_SCORE, 250_000);
    assert_eq!(CELL_VALUE_HALVES, [0, 2, 6, 12, 1, 4, 12, 16, 3, 6, 16, 20]);
    let values = make_adjusted_value();
    assert_eq!(values, BOARD_POSITION_CODING_VALUE);
    assert_eq!(
        values,
        [
            0,
            1_000_000,
            9_000_000,
            36_000_000,
            250_000,
            4_000_000,
            36_000_000,
            64_000_000,
            2_250_000,
            9_000_000,
            64_000_000,
            100_000_000
        ]
    );
}

#[test]
fn value_masks_cover_the_board_in_quarters() {
    let masks = make_value_bitmask();
    assert_eq!(masks, VALUE_POSITION_BITMASK);
    assert_eq!(masks[0], bit(0, 0) | bit(6, 0) | bit(0, 5) | bit(6, 5));
    assert_eq!(masks[3], bit(3, 0) | bit(3, 5));
    assert_eq!(masks[5], bit(1, 1) | bit(5, 1) | bit(1, 4) | bit(5, 4));
    assert_eq!(masks[11], bit(3, 2) | bit(3, 3));
    let mut all = 0;
    for mask in masks {
        assert_eq!(mask & all, 0);
        all |= mask;
    }
    assert_eq!(all, FULL_BOARD_MASK);
}

#[test]
fn table_scoring_of_single_stones() {
    assert_eq!(get_board_scoring(0), 0);
    assert_eq!(get_board_scoring(bit(3, 2)), 100_000_000);
    assert_eq!(get_board_scoring(bit(3, 3)), 100_000_000);
    assert_eq!(get_board_scoring(bit(0, 0)), 0);
    assert_eq!(get_board_scoring(bit(6, 5)), 0);
    assert_eq!(get_board_scoring(bit(1, 1)), 4_000_000);
    assert_eq!(get_board_scoring(bit(5, 4)), 4_000_000);
    assert_eq!(get_board_scoring(bit(2, 0)), 9_000_000);
    assert_eq!(get_board_scoring(0x38), 46_000_000);
    assert_eq!(get_board_scoring(0x4_0404), 109_000_000);
    assert_eq!(get_board_scoring(FULL_BOARD_MASK), 902_000_000);
}

#[test]
fn table_heuristics_add_up() {
    assert_eq!(OPEN_THREE_SCORE, 40_000_000);
    let clamp = CLAMP_GUARD_HEURISTIC;
    assert_eq!(compute_heuristics(&BitBoard::new(), clamp), 0);
    assert_eq!(compute_heuristics(&position(bit(3, 0), 0), clamp), 36_000_000);
    assert_eq!(compute_heuristics(&position(0, bit(3, 0)), clamp), -36_000_000);
    assert_eq!(compute_heuristics(&position(0x38, 0x4_0404), clamp), -63_000_000);
    assert_eq!(compute_heuristics(&position(0xb, 0x4060), clamp), 75_750_000);
    assert_eq!(compute_heuristics(&position(0x8_0808, 0x1011), clamp), 195_000_000);
    assert_eq!(compute_heuristics(&position(0x4_0201, 0xc0e), clamp), -78_000_000);
    assert_eq!(compute_heuristics(&position(0x1c, 0x1c00), clamp), -82_000_000);
    assert_eq!(compute_heuristics(&position(0x1_0101, 0x242), clamp), 37_500_000);
}

#[test]
fn table_heuristics_are_clamped() {
    let board = position(0x77_7777, 0);
    assert_eq!(compute_heuristics(&board, CLAMP_GUARD_HEURISTIC), 970_000_000);
    assert_eq!(compute_heuristics(&board, 2_000_000_000), 1_051_000_000);
    assert_eq!(compute_heuristics(&board, 5), 5);
    let board = position(0, 0x77_7777);
    assert_eq!(compute_heuristics(&board, CLAMP_GUARD_HEURISTIC), -970_000_000);
    assert_eq!(compute_heuristics(&board, 2_000_000_000), -1_051_000_000);
}
