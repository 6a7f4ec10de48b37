use connect_four::board_logic::bit_board::{
    BitBoard, GameResult, SymmetryIndependentPosition, BOARD_EVALUATION_MASK, CENTER_SCORE,
    DOUBLET_SCORE, ONE_OFF_CENTER_SCORE, OPEN_TRIPLET_SCORE, TWO_OFF_CENTER_SCORE,
};
use connect_four::board_logic::bit_board_coding::{
    flip_board, get_column_mask, FULL_BOARD_MASK,
};
use connect_four::board_logic::score::CLAMP_GUARD_HEURISTIC;

const DRAWN_OWN: u64 = 0x6817_7508_0e75;
const DRAWN_OPP: u64 = 0x1768_0a77_710a;

fn bit(x: u32, y: u32) -> u64 {
    1u64 << (x + 8 * y)
}

fn position(own: u64, opp: u64) -> BitBoard {
    let mut board = BitBoard::new();
    board.own_stones = own;
    board.opponent_stones = opp;
    board
}

fn played(moves: &[(u32, bool)]) -> BitBoard {
    let mut board = BitBoard::new();
    for &(column, is_computer) in moves {
        board.apply_move_on_column(column, is_computer);
    }
    board
}

#[test]
fn new_board_is_empty() {
    let board = BitBoard::new();
    assert_eq!(board.own_stones, 0);
    assert_eq!(board.opponent_stones, 0);
    assert!(!board.get_computer_first());
    assert!(!board.is_game_over());
    assert_eq!(board.get_board_positioning(), vec![]);
    assert_eq!(board.get_all_possible_moves().len(), 7);
}

#[test]
fn reset_clears_the_stones_only() {
    let mut board = played(&[(3, true), (3, false), (0, true)]);
    board.set_computer_first(true);
    board.reset();
    assert_eq!(board.own_stones, 0);
    assert_eq!(board.opponent_stones, 0);
    assert!(board.get_computer_first());
}

#[test]
fn computer_first_is_kept() {
    let mut board = BitBoard::new();
    board.set_computer_first(true);
    assert!(board.get_computer_first());
    board.set_computer_first(false);
    assert!(!board.get_computer_first());
}

#[test]
fn swap_players_exchanges_the_sides() {
    let mut board = played(&[(3, true), (4, false), (3, true)]);
    let own = board.own_stones;
    let opp = board.opponent_stones;
    board.swap_players();
    assert_eq!(board.own_stones, opp);
    assert_eq!(board.opponent_stones, own);
    board.swap_players();
    assert_eq!(board.own_stones, own);
    assert_eq!(board.opponent_stones, opp);
}

#[test]
fn apply_move_sets_the_bit_of_the_side() {
    let mut board = BitBoard::new();
    board.apply_move(bit(3, 0), true);
    assert_eq!((board.own_stones, board.opponent_stones), (bit(3, 0), 0));
    board.apply_move(bit(3, 1), false);
    assert_eq!((board.own_stones, board.opponent_stones), (bit(3, 0), bit(3, 1)));
    board.apply_move_active(bit(0, 0));
    assert_eq!(board.own_stones, bit(3, 0) | bit(0, 0));
    board.revoke_move_active(bit(0, 0));
    assert_eq!(board.own_stones, bit(3, 0));
}

#[test]
fn apply_and_revoke_restore_the_position() {
    let start = played(&[(3, true), (3, false), (2, true), (6, false), (6, true)]);
    for column in 0..7 {
        for is_computer in [true, false] {
            let mut board = start;
            let coded_move = board.get_possible_move(column);
            assert_ne!(coded_move, 0);
            board.apply_move(coded_move, is_computer);
            assert_ne!(
                (board.own_stones, board.opponent_stones),
                (start.own_stones, start.opponent_stones)
            );
            assert_eq!(board.own_stones & board.opponent_stones, 0);
            board.revoke_move(coded_move, is_computer);
            assert_eq!(board.own_stones, start.own_stones);
            assert_eq!(board.opponent_stones, start.opponent_stones);
        }
    }
}

#[test]
fn apply_move_on_column_stacks_the_stones() {
    let board = played(&[(2, true), (2, false), (2, true), (5, false)]);
    assert_eq!(board.own_stones, bit(2, 0) | bit(2, 2));
    assert_eq!(board.opponent_stones, bit(2, 1) | bit(5, 0));
    assert_eq!(board.get_possible_move(2), bit(2, 3));
    assert_eq!(board.get_possible_move(5), bit(5, 1));
    assert_eq!(board.get_possible_move(0), bit(0, 0));
}

#[test]
fn move_destination_is_the_height_of_the_column() {
    let mut board = played(&[(2, true), (2, false), (2, true), (5, false)]);
    assert_eq!(board.get_move_destination(0), Some(0));
    assert_eq!(board.get_move_destination(2), Some(3));
    assert_eq!(board.get_move_destination(5), Some(1));
    board.apply_move_on_column(2, false);
    board.apply_move_on_column(2, true);
    assert_eq!(board.get_move_destination(2), Some(5));
    board.apply_move_on_column(2, false);
    assert_eq!(board.get_move_destination(2), None);
    assert_eq!(board.get_possible_move(2), 0);
}

#[test]
fn canonical_key_is_the_smaller_of_position_and_mirror() {
    let board = position(bit(0, 0), bit(1, 0));
    let key = board.get_symmetry_independent_position();
    assert_eq!(key, SymmetryIndependentPosition { own: bit(0, 0), opp: bit(1, 0) });
    let board = position(bit(6, 0), bit(5, 0));
    let key = board.get_symmetry_independent_position();
    assert_eq!(key, SymmetryIndependentPosition { own: bit(0, 0), opp: bit(1, 0) });
    // With own stones that are their own mirror image the opponent decides.
    let board = position(bit(3, 0), bit(4, 0));
    let key = board.get_symmetry_independent_position();
    assert_eq!(key, SymmetryIndependentPosition { own: bit(3, 0), opp: bit(2, 0) });
    let board = position(bit(3, 0), bit(3, 1));
    let key = board.get_symmetry_independent_position();
    assert_eq!(key, SymmetryIndependentPosition { own: bit(3, 0), opp: bit(3, 1) });
}

#[test]
fn canonical_key_of_a_position_and_its_mirror_agree() {
    let mut board = BitBoard::new();
    let mut seed: u64 = 12345;
    for turn in 0..30 {
        seed = seed.wrapping_mul(6364136223846793005).wrapping_add(1442695040888963407);
        let column = ((seed >> 33) % 7) as u32;
        if board.get_possible_move(column) == 0 {
            continue;
        }
        board.apply_move_on_column(column, turn % 2 == 0);
        let mirrored = position(flip_board(board.own_stones), flip_board(board.opponent_stones));
        assert_eq!(
            board.get_symmetry_independent_position(),
            mirrored.get_symmetry_independent_position()
        );
    }
}

#[test]
fn board_positioning_lists_first_player_first() {
    let mut board = played(&[(3, true), (3, false), (0, true), (6, false)]);
    // The computer did not begin: the other player's stones are the first.
    assert_eq!(
        board.get_board_positioning(),
        vec![(3, 1, true), (6, 0, true), (0, 0, false), (3, 0, false)]
    );
    board.set_computer_first(true);
    assert_eq!(
        board.get_board_positioning(),
        vec![(0, 0, true), (3, 0, true), (3, 1, false), (6, 0, false)]
    );
}

#[test]
fn draw_check_is_a_full_board() {
    assert!(!BitBoard::new().check_for_draw_if_not_winning());
    let full = position(DRAWN_OWN, DRAWN_OPP);
    assert_eq!(DRAWN_OWN | DRAWN_OPP, FULL_BOARD_MASK);
    assert_eq!(DRAWN_OWN & DRAWN_OPP, 0);
    assert!(full.check_for_draw_if_not_winning());
    let almost = position(DRAWN_OWN ^ bit(3, 5), DRAWN_OPP);
    assert!(!almost.check_for_draw_if_not_winning());
}

#[test]
fn full_board_without_a_line_is_a_draw() {
    let board = position(DRAWN_OWN, DRAWN_OPP);
    assert!(board.is_game_over());
    assert_eq!(board.get_all_possible_moves(), vec![]);
    for column in 0..7 {
        assert_eq!(board.get_possible_move(column), 0);
        assert_eq!(board.get_move_destination(column), None);
    }
    let (result, cells) = board.get_winning_status_for_rendering();
    assert_eq!(result, GameResult::Draw);
    assert_eq!(cells, None);
}

#[test]
fn game_over_by_a_line_of_either_side() {
    let board = played(&[(0, true), (0, false), (1, true), (1, false), (2, true), (2, false)]);
    assert!(!board.is_game_over());
    let mut own_wins = board;
    own_wins.apply_move_on_column(3, true);
    assert!(own_wins.is_game_over());
    let mut opp_wins = board;
    opp_wins.apply_move_on_column(6, true);
    opp_wins.apply_move_on_column(3, false);
    assert!(!opp_wins.is_game_over());
    opp_wins.apply_move_on_column(3, false);
    assert!(opp_wins.is_game_over());
}

#[test]
fn winning_status_names_the_winner_and_the_line() {
    let mut board = played(&[
        (0, true),
        (0, false),
        (1, true),
        (1, false),
        (2, true),
        (2, false),
    ]);
    assert_eq!(board.get_winning_status_for_rendering(), (GameResult::Pending, None));
    board.apply_move_on_column(3, true);
    // The computer did not begin, so it is the second player.
    assert_eq!(
        board.get_winning_status_for_rendering(),
        (GameResult::SecondPlayerWon, Some(vec![(0, 0), (1, 0), (2, 0), (3, 0)]))
    );
    board.set_computer_first(true);
    assert_eq!(
        board.get_winning_status_for_rendering(),
        (GameResult::FirstPlayerWon, Some(vec![(0, 0), (1, 0), (2, 0), (3, 0)]))
    );
    let column = played(&[
        (5, false),
        (4, true),
        (5, false),
        (4, true),
        (5, false),
        (4, true),
        (5, false),
    ]);
    assert_eq!(
        column.get_winning_status_for_rendering(),
        (GameResult::FirstPlayerWon, Some(vec![(5, 0), (5, 1), (5, 2), (5, 3)]))
    );
}

#[test]
fn evaluation_masks_and_weights() {
    assert_eq!(BOARD_EVALUATION_MASK[0], get_column_mask(3));
    assert_eq!(BOARD_EVALUATION_MASK[1], get_column_mask(2) | get_column_mask(4));
    assert_eq!(BOARD_EVALUATION_MASK[2], get_column_mask(1) | get_column_mask(5));
    assert!(OPEN_TRIPLET_SCORE > DOUBLET_SCORE);
    assert!(DOUBLET_SCORE > CENTER_SCORE);
    assert!(CENTER_SCORE > ONE_OFF_CENTER_SCORE);
    assert!(ONE_OFF_CENTER_SCORE > TWO_OFF_CENTER_SCORE);
    assert!(TWO_OFF_CENTER_SCORE > 0);
}

#[test]
fn doublets_and_open_triplets_are_counted() {
    let free = |own: u64, opp: u64| !(own | opp) & FULL_BOARD_MASK;
    assert_eq!(BitBoard::count_open_three_and_doubles(0, FULL_BOARD_MASK), (0, 0));
    assert_eq!(BitBoard::count_open_three_and_doubles(bit(3, 0), free(bit(3, 0), 0)), (0, 0));
    // Three in the bottom row, both ends free.
    let own = bit(2, 0) | bit(3, 0) | bit(4, 0);
    assert_eq!(BitBoard::count_open_three_and_doubles(own, free(own, 0)), (2, 2));
    // One end taken.
    assert_eq!(BitBoard::count_open_three_and_doubles(own, free(own, bit(1, 0))), (2, 1));
    // At the edge there is only one end.
    let own = bit(0, 0) | bit(1, 0) | bit(2, 0);
    assert_eq!(BitBoard::count_open_three_and_doubles(own, free(own, 0)), (2, 1));
    // A column of three: the cell above is free, none is below.
    let own = bit(3, 0) | bit(3, 1) | bit(3, 2);
    assert_eq!(BitBoard::count_open_three_and_doubles(own, free(own, 0)), (2, 1));
    // A diagonal of three.
    let own = bit(0, 0) | bit(1, 1) | bit(2, 2);
    assert_eq!(BitBoard::count_open_three_and_doubles(own, free(own, 0)), (2, 1));
    let own = bit(5, 1) | bit(4, 2) | bit(3, 3);
    assert_eq!(BitBoard::count_open_three_and_doubles(own, free(own, 0)), (2, 2));
    // A block of stones has many neighbours.
    assert_eq!(BitBoard::count_open_three_and_doubles(0x77_7777, free(0x77_7777, 0)), (40, 14));
}

#[test]
fn board_scoring_prefers_the_center() {
    assert_eq!(BitBoard::get_board_scoring(0), 0);
    assert_eq!(BitBoard::get_board_scoring(bit(3, 0)), 7_000_000);
    assert_eq!(BitBoard::get_board_scoring(bit(2, 4)), 3_000_000);
    assert_eq!(BitBoard::get_board_scoring(bit(4, 1)), 3_000_000);
    assert_eq!(BitBoard::get_board_scoring(bit(1, 0)), 1_500_000);
    assert_eq!(BitBoard::get_board_scoring(bit(5, 5)), 1_500_000);
    assert_eq!(BitBoard::get_board_scoring(bit(0, 0)), 0);
    assert_eq!(BitBoard::get_board_scoring(bit(6, 3)), 0);
    assert_eq!(BitBoard::get_board_scoring(0x77_7777), 27_000_000);
    assert_eq!(BitBoard::get_board_scoring(FULL_BOARD_MASK), 96_000_000);
}

#[test]
fn heuristics_add_up_what_each_side_has() {
    assert_eq!(BitBoard::new().compute_heuristics(CLAMP_GUARD_HEURISTIC), 0);
    assert_eq!(position(bit(3, 0), 0).compute_heuristics(CLAMP_GUARD_HEURISTIC), 7_000_000);
    assert_eq!(position(0, bit(3, 0)).compute_heuristics(CLAMP_GUARD_HEURISTIC), -7_000_000);
    assert_eq!(position(0x38, 0x4_0404).compute_heuristics(CLAMP_GUARD_HEURISTIC), 2_500_000);
    assert_eq!(position(0xb, 0x4060).compute_heuristics(CLAMP_GUARD_HEURISTIC), -13_000_000);
    assert_eq!(position(0x8_0808, 0x1011).compute_heuristics(CLAMP_GUARD_HEURISTIC), 65_000_000);
    assert_eq!(position(0x4_0201, 0xc0e).compute_heuristics(CLAMP_GUARD_HEURISTIC), -77_000_000);
    assert_eq!(position(0x1c, 0x1c00).compute_heuristics(CLAMP_GUARD_HEURISTIC), 0);
    assert_eq!(position(0x1_0101, 0x242).compute_heuristics(CLAMP_GUARD_HEURISTIC), 47_000_000);
}

#[test]
fn heuristics_are_clamped() {
    let board = position(0x77_7777, 0);
    assert_eq!(board.compute_heuristics(CLAMP_GUARD_HEURISTIC), 970_000_000);
    assert_eq!(board.compute_heuristics(1_000), 1_000);
    assert_eq!(board.compute_heuristics(0), 0);
    assert_eq!(board.compute_heuristics(2_000_000_000), 987_000_000);
    let board = position(0, 0x77_7777);
    assert_eq!(board.compute_heuristics(CLAMP_GUARD_HEURISTIC), -970_000_000);
    assert_eq!(board.compute_heuristics(2_000_000_000), -987_000_000);
}

#[test]
fn heuristics_change_sign_with_the_sides() {
    let mut board = BitBoard::new();
    let mut seed: u64 = 99;
    for turn in 0..25 {
        seed = seed.wrapping_mul(6364136223846793005).wrapping_add(1442695040888963407);
        let column = ((seed >> 33) % 7) as u32;
        if board.get_possible_move(column) == 0 {
            continue;
        }
        board.apply_move_on_column(column, turn % 2 == 0);
        if board.is_game_over() {
            break;
        }
        let mut swapped = board;
        swapped.swap_players();
        assert_eq!(
            swapped.compute_heuristics(CLAMP_GUARD_HEURISTIC),
            -board.compute_heuristics(CLAMP_GUARD_HEURISTIC)
        );
    }
}

#[test]
fn well_formed_positions() {
    assert!(BitBoard::new().is_well_formed());
    assert!(played(&[(3, true), (3, false), (0, true)]).is_well_formed());
    assert!(position(DRAWN_OWN, DRAWN_OPP).is_well_formed());
    // A stone in the air.
    assert!(!position(bit(3, 1), 0).is_well_formed());
    assert!(!position(bit(3, 0), bit(3, 2)).is_well_formed());
    // Two stones in one cell.
    assert!(!position(bit(3, 0), bit(3, 0)).is_well_formed());
    // A guard bit.
    assert!(!position(1 << 7, 0).is_well_formed());
    assert!(!position(0, 1 << 48).is_well_formed());
}
