use connect_four::board_logic::bit_board_coding::{
    check_for_winning, clip_shift, clip_shift_inverse, debug_board_lines, flip_board,
    get_all_possible_moves,
    get_bit_representation, get_bottom_filler_mask, get_column_mask, get_full_board_mask,
    get_move_information, get_position_iterator, get_possible_move, get_winning_board,
    BOARD_HEIGHT, BOARD_WIDTH, BOTTOM_FILL_MASK, DIR_INCREMENT, FIRST_COLUMN_MASK,
    FULL_BOARD_MASK,
};

fn bit(x: u32, y: u32) -> u64 {
    1u64 << (x + 8 * y)
}

fn board_of(cells: &[(u32, u32)]) -> u64 {
    let mut board = 0;
    for &(x, y) in cells {
        board |= bit(x, y);
    }
    board
}

#[test]
fn geometry_constants() {
    assert_eq!(BOARD_WIDTH, 7);
    assert_eq!(BOARD_HEIGHT, 6);
    assert_eq!(DIR_INCREMENT, [7, 8, 9, 1]);
    assert_eq!(FULL_BOARD_MASK, 0x0000_7f7f_7f7f_7f7f);
    assert_eq!(BOTTOM_FILL_MASK, 0x7f);
    assert_eq!(FIRST_COLUMN_MASK, 0x0000_0101_0101_0101);
}

#[test]
fn bit_representation_of_cells() {
    assert_eq!(get_bit_representation(0, 0), 1);
    assert_eq!(get_bit_representation(6, 0), 64);
    assert_eq!(get_bit_representation(0, 1), 256);
    assert_eq!(get_bit_representation(3, 2), 1 << 19);
    assert_eq!(get_bit_representation(6, 5), 1 << 46);
    assert_eq!(get_bit_representation(7, 7), 1 << 63);
}

#[test]
fn masks_are_made_of_their_cells() {
    let mut all = 0;
    for column in 0..7 {
        let mask = get_column_mask(column);
        assert_eq!(mask, 0x0000_0101_0101_0101u64 << column);
        assert_eq!(mask.count_ones(), 6);
        assert_eq!(mask & all, 0);
        all |= mask;
    }
    assert_eq!(all, FULL_BOARD_MASK);
    assert_eq!(get_full_board_mask(), FULL_BOARD_MASK);
    assert_eq!(get_full_board_mask().count_ones(), 42);
    assert_eq!(get_bottom_filler_mask(), BOTTOM_FILL_MASK);
    assert_eq!(
        get_bottom_filler_mask(),
        board_of(&[(0, 0), (1, 0), (2, 0), (3, 0), (4, 0), (5, 0), (6, 0)])
    );
}

#[test]
fn flip_mirrors_columns() {
    assert_eq!(flip_board(0), 0);
    assert_eq!(flip_board(bit(0, 0)), bit(6, 0));
    assert_eq!(flip_board(bit(1, 3)), bit(5, 3));
    assert_eq!(flip_board(bit(2, 5)), bit(4, 5));
    assert_eq!(flip_board(bit(3, 4)), bit(3, 4));
    assert_eq!(flip_board(bit(6, 2)), bit(0, 2));
    assert_eq!(flip_board(FULL_BOARD_MASK), FULL_BOARD_MASK);
    assert_eq!(flip_board(get_column_mask(1)), get_column_mask(5));
    assert_eq!(
        flip_board(board_of(&[(0, 0), (1, 0), (1, 1), (4, 0)])),
        board_of(&[(6, 0), (5, 0), (5, 1), (2, 0)])
    );
}

#[test]
fn flip_is_an_involution() {
    let mut board: u64 = 0x0000_1234_5678_9abc;
    for _ in 0..200 {
        board = board.wrapping_mul(6364136223846793005).wrapping_add(1442695040888963407);
        let on_board = board & FULL_BOARD_MASK;
        assert_eq!(flip_board(flip_board(on_board)), on_board);
        // Guard bits do not survive.
        assert_eq!(flip_board(flip_board(board)), on_board);
    }
    assert_eq!(flip_board(1 << 7), 0);
    assert_eq!(flip_board(flip_board((1 << 40) | (1 << 7))), 1 << 40);
}

#[test]
fn clip_shift_drops_what_leaves_the_board() {
    assert_eq!(clip_shift(bit(0, 0), 1), bit(1, 0));
    assert_eq!(clip_shift(bit(6, 0), 1), 0);
    assert_eq!(clip_shift(bit(2, 1), 8), bit(2, 2));
    assert_eq!(clip_shift(bit(2, 5), 8), 0);
    assert_eq!(clip_shift(bit(2, 1), 9), bit(3, 2));
    assert_eq!(clip_shift(bit(6, 1), 9), 0);
    assert_eq!(clip_shift(bit(2, 1), 7), bit(1, 2));
    assert_eq!(clip_shift(bit(0, 1), 7), 0);
    assert_eq!(clip_shift(BOTTOM_FILL_MASK, 8), 0x7f00);
    assert_eq!(clip_shift_inverse(bit(1, 0), 1), bit(0, 0));
    assert_eq!(clip_shift_inverse(bit(0, 1), 1), 0);
    assert_eq!(clip_shift_inverse(bit(2, 2), 8), bit(2, 1));
    assert_eq!(clip_shift_inverse(bit(2, 0), 8), 0);
    assert_eq!(clip_shift_inverse(bit(3, 2), 9), bit(2, 1));
    assert_eq!(clip_shift_inverse(bit(1, 2), 7), bit(2, 1));
    assert_eq!(clip_shift_inverse(bit(6, 2), 7), 0);
}

#[test]
fn possible_move_lands_on_top() {
    for column in 0..7 {
        assert_eq!(get_possible_move(0, column), bit(column, 0));
    }
    let board = board_of(&[(3, 0), (3, 1), (4, 0)]);
    assert_eq!(get_possible_move(board, 3), bit(3, 2));
    assert_eq!(get_possible_move(board, 4), bit(4, 1));
    assert_eq!(get_possible_move(board, 0), bit(0, 0));
    let full_column = get_column_mask(2);
    assert_eq!(get_possible_move(full_column, 2), 0);
    assert_eq!(get_possible_move(full_column, 1), bit(1, 0));
    assert_eq!(get_possible_move(full_column ^ bit(2, 5), 2), bit(2, 5));
    for column in 0..7 {
        assert_eq!(get_possible_move(FULL_BOARD_MASK, column), 0);
    }
}

#[test]
fn all_possible_moves_one_per_open_column() {
    let moves = get_all_possible_moves(0);
    assert_eq!(
        moves,
        vec![(1, 0), (2, 1), (4, 2), (8, 3), (16, 4), (32, 5), (64, 6)]
    );
    let board = get_column_mask(0) | get_column_mask(6) | board_of(&[(3, 0), (3, 1)]);
    let moves = get_all_possible_moves(board);
    assert_eq!(
        moves,
        vec![(bit(1, 0), 1), (bit(2, 0), 2), (bit(3, 2), 3), (bit(4, 0), 4), (bit(5, 0), 5)]
    );
    assert_eq!(get_all_possible_moves(FULL_BOARD_MASK), vec![]);
    // The union of what is listed is what the columns offer one by one.
    let mut union = 0;
    for &(coded_move, column) in &moves {
        assert_eq!(coded_move, get_possible_move(board, column));
        assert_eq!(coded_move.count_ones(), 1);
        union |= coded_move;
    }
    let mut one_by_one = 0;
    for column in 0..7 {
        one_by_one |= get_possible_move(board, column);
    }
    assert_eq!(union, one_by_one);
}

#[test]
fn winning_in_a_row_at_both_edges() {
    for y in 0..6 {
        assert!(check_for_winning(board_of(&[(0, y), (1, y), (2, y), (3, y)])));
        assert!(check_for_winning(board_of(&[(3, y), (4, y), (5, y), (6, y)])));
        assert!(!check_for_winning(board_of(&[(0, y), (1, y), (2, y)])));
        assert!(!check_for_winning(board_of(&[(0, y), (1, y), (2, y), (4, y)])));
        assert!(!check_for_winning(board_of(&[(0, y), (1, y), (3, y), (4, y), (5, y)])));
    }
}

#[test]
fn winning_in_a_column_at_both_edges() {
    for x in 0..7 {
        assert!(check_for_winning(board_of(&[(x, 0), (x, 1), (x, 2), (x, 3)])));
        assert!(check_for_winning(board_of(&[(x, 2), (x, 3), (x, 4), (x, 5)])));
        assert!(!check_for_winning(board_of(&[(x, 3), (x, 4), (x, 5)])));
        assert!(!check_for_winning(board_of(&[(x, 0), (x, 1), (x, 3), (x, 4), (x, 5)])));
    }
}

#[test]
fn winning_on_rising_diagonals() {
    assert!(check_for_winning(board_of(&[(0, 0), (1, 1), (2, 2), (3, 3)])));
    assert!(check_for_winning(board_of(&[(3, 2), (4, 3), (5, 4), (6, 5)])));
    assert!(check_for_winning(board_of(&[(0, 2), (1, 3), (2, 4), (3, 5)])));
    assert!(check_for_winning(board_of(&[(3, 0), (4, 1), (5, 2), (6, 3)])));
    assert!(!check_for_winning(board_of(&[(4, 0), (5, 1), (6, 2)])));
    assert!(!check_for_winning(board_of(&[(0, 3), (1, 4), (2, 5)])));
}

#[test]
fn winning_on_falling_diagonals() {
    assert!(check_for_winning(board_of(&[(6, 0), (5, 1), (4, 2), (3, 3)])));
    assert!(check_for_winning(board_of(&[(3, 2), (2, 3), (1, 4), (0, 5)])));
    assert!(check_for_winning(board_of(&[(6, 2), (5, 3), (4, 4), (3, 5)])));
    assert!(check_for_winning(board_of(&[(3, 0), (2, 1), (1, 2), (0, 3)])));
    assert!(!check_for_winning(board_of(&[(2, 0), (1, 1), (0, 2)])));
    assert!(!check_for_winning(board_of(&[(6, 3), (5, 4), (4, 5)])));
}

#[test]
fn no_win_round_the_edges() {
    // Four bits in a row of indices that run over the right edge.
    assert!(!check_for_winning(board_of(&[(4, 0), (5, 0), (6, 0), (0, 1)])));
    assert!(!check_for_winning(board_of(&[(5, 2), (6, 2), (0, 3), (1, 3)])));
    // Diagonals that would leave the board on one side and come back on the other.
    assert!(!check_for_winning(board_of(&[(5, 0), (6, 1), (0, 3), (1, 4)])));
    assert!(!check_for_winning(board_of(&[(1, 0), (0, 1), (6, 1), (5, 2)])));
    assert!(!check_for_winning(0));
    assert!(check_for_winning(FULL_BOARD_MASK));
    // A drawn full board, side by side.
    assert!(!check_for_winning(0x6817_7508_0e75));
    assert!(!check_for_winning(0x1768_0a77_710a));
}

#[test]
fn guard_bits_count_as_stones_where_they_are_set() {
    // Three stones in the second row and the guard bit before them.
    let board = (1 << 7) | board_of(&[(0, 1), (1, 1), (2, 1)]);
    assert!(check_for_winning(board));
    assert!(!check_for_winning(board & FULL_BOARD_MASK));
}

#[test]
fn win_detection_agrees_with_a_scan_of_the_cells() {
    let directions: [(i32, i32); 4] = [(-1, 1), (0, 1), (1, 1), (1, 0)];
    let mut seed: u64 = 0x9e37_79b9_7f4a_7c15;
    for _ in 0..400 {
        seed = seed.wrapping_mul(6364136223846793005).wrapping_add(1442695040888963407);
        let mut board = (seed >> 8) & FULL_BOARD_MASK;
        seed = seed.wrapping_mul(6364136223846793005).wrapping_add(1442695040888963407);
        board &= seed >> 8;
        let mut expected = false;
        for x in 0..7i32 {
            for y in 0..6i32 {
                for (dx, dy) in directions {
                    let mut all = true;
                    for step in 0..4 {
                        let cx = x + step * dx;
                        let cy = y + step * dy;
                        if cx < 0 || cx >= 7 || cy < 0 || cy >= 6 {
                            all = false;
                        } else if board & bit(cx as u32, cy as u32) == 0 {
                            all = false;
                        }
                    }
                    expected = expected || all;
                }
            }
        }
        assert_eq!(check_for_winning(board), expected);
        assert_eq!(get_winning_board(board) != 0, expected);
    }
}

#[test]
fn winning_board_holds_the_lines() {
    assert_eq!(get_winning_board(0), 0);
    assert_eq!(get_winning_board(board_of(&[(0, 0), (1, 0), (2, 0)])), 0);
    let row = board_of(&[(1, 2), (2, 2), (3, 2), (4, 2)]);
    assert_eq!(get_winning_board(row | bit(6, 2) | bit(0, 0)), row);
    let five = board_of(&[(1, 0), (2, 0), (3, 0), (4, 0), (5, 0)]);
    assert_eq!(get_winning_board(five), five);
    let column = board_of(&[(6, 1), (6, 2), (6, 3), (6, 4)]);
    assert_eq!(get_winning_board(column | bit(5, 0)), column);
    let rising = board_of(&[(2, 1), (3, 2), (4, 3), (5, 4)]);
    assert_eq!(get_winning_board(rising | bit(0, 0)), rising);
    let falling = board_of(&[(4, 1), (3, 2), (2, 3), (1, 4)]);
    assert_eq!(get_winning_board(falling | bit(6, 5)), falling);
    // Two lines through one stone.
    let cross = board_of(&[(3, 0), (3, 1), (3, 2), (3, 3), (0, 3), (1, 3), (2, 3)]);
    assert_eq!(get_winning_board(cross | bit(6, 0)), cross);
}

#[test]
fn position_iterator_goes_column_by_column() {
    assert_eq!(get_position_iterator(0), vec![]);
    let board = board_of(&[(6, 0), (0, 5), (0, 1), (3, 3), (3, 0)]);
    assert_eq!(
        get_position_iterator(board),
        vec![(0, 1), (0, 5), (3, 0), (3, 3), (6, 0)]
    );
    assert_eq!(get_position_iterator(FULL_BOARD_MASK).len(), 42);
    assert_eq!(get_position_iterator(FULL_BOARD_MASK)[0], (0, 0));
    assert_eq!(get_position_iterator(FULL_BOARD_MASK)[6], (1, 0));
    assert_eq!(get_position_iterator(FULL_BOARD_MASK)[41], (6, 5));
    // Guard bits are no cells.
    assert_eq!(get_position_iterator(!FULL_BOARD_MASK), vec![]);
}

#[test]
fn move_information_finds_the_cell() {
    assert_eq!(get_move_information(0), None);
    assert_eq!(get_move_information(1 << 7), None);
    for x in 0..7 {
        for y in 0..6 {
            assert_eq!(get_move_information(bit(x, y)), Some((x, y)));
        }
    }
    assert_eq!(get_move_information(bit(2, 4) | bit(1, 5) | bit(2, 3)), Some((1, 5)));
    let last = get_possible_move(get_column_mask(4) ^ bit(4, 5), 4);
    assert_eq!(get_move_information(last), Some((4, 5)));
}

#[test]
fn board_picture_shows_the_top_row_first() {
    let picture = |board: u64| -> Vec<String> {
        debug_board_lines(board).iter().map(|line| line.iter().collect()).collect()
    };
    let lines = picture(board_of(&[(0, 0), (3, 0), (3, 1), (6, 5)]));
    assert_eq!(
        lines,
        vec!["------X", "-------", "-------", "-------", "---X---", "X--X---"]
    );
    assert_eq!(picture(0), vec!["-------"; 6]);
    assert_eq!(picture(u64::MAX), vec!["XXXXXXX"; 6]);
}
