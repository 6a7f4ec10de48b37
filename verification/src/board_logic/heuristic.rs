//! This is the place for a heuristic evaluation of the game situation that
//! goes by a table of cell values. It accounts for open positions of three
//! stones, with or without a gap, and for a board scoring that favours
//! cells close to the middle of the board.

use crate::board_logic::bit_board::{
    BitBoard, free_spots_spec, is_terminal, lemma_pairs_cells, lemma_pattern_within,
    lemma_triples_cells, open_after_spec, pairs_spec, three_ahead, triples_spec,
};
use crate::board_logic::bit_board_coding::{
    cell_mask, clip_shift, clip_shift_inverse, clip_shift_inverse_spec, clip_shift_spec, dir_dx,
    dir_dy, DIR_INCREMENT, dir_shift, FULL_BOARD_MASK, get_bit_representation, has_stone,
    lemma_and_cells, lemma_clip_shift_cells, lemma_clip_shift_inverse_cells, on_board, within_board,
};
use crate::board_logic::bits::{count_bits, lemma_count_bits_bound};
use crate::board_logic::score::{clamp_score, clamp_spec};
use vstd::prelude::*;

verus! {

/// The worth of an open triplet.
pub const OPEN_THREE_SCORE: i64 = 40_000_000;

/// What a cell value of 1 in the table is worth as a score. The table holds
/// its values in halves, and squares them, so this is the worth of a
/// quarter of a square.
pub const QUARTER_SQUARE_SCORE: i64 = 250_000;

/// The cell values in halves, for a quarter of the board: four columns from
/// the edge to the middle, three rows from the edge to the middle.
pub const CELL_VALUE_HALVES: [i64; 12] = [0, 2, 6, 12, 1, 4, 12, 16, 3, 6, 16, 20];

/// This contains the values for the different board positions.
pub const BOARD_POSITION_CODING_VALUE: [i64; 12] = [
    0,
    1_000_000,
    9_000_000,
    36_000_000,
    250_000,
    4_000_000,
    36_000_000,
    64_000_000,
    2_250_000,
    9_000_000,
    64_000_000,
    100_000_000,
];

/// This is the bit masking to index the value table.
pub const VALUE_POSITION_BITMASK: [u64; 12] = [
    0x0000_4100_0000_0041,
    0x0000_2200_0000_0022,
    0x0000_1400_0000_0014,
    0x0000_0800_0000_0008,
    0x0000_0041_0000_4100,
    0x0000_0022_0000_2200,
    0x0000_0014_0000_1400,
    0x0000_0008_0000_0800,
    0x0000_0000_4141_0000,
    0x0000_0000_2222_0000,
    0x0000_0000_1414_0000,
    0x0000_0000_0808_0000,
];

// ---------------------------------------------------------------------------
// Open triplets
// ---------------------------------------------------------------------------

/// The stones of `board` that close, across one free cell, a line begun by
/// two stones along the shift `s`: the pattern `oo_o`.
pub open spec fn gap_after_spec(board: u64, free_spots: u64, s: u64) -> u64 {
    clip_shift_spec(clip_shift_spec(pairs_spec(board, s), s) & free_spots, s) & board
}

/// The stones of `board` that open, across one free cell, a line that two
/// stones end along the shift `s`: the pattern `o_oo`.
pub open spec fn gap_before_spec(board: u64, free_spots: u64, s: u64) -> u64 {
    clip_shift_inverse_spec(
        clip_shift_inverse_spec(clip_shift_inverse_spec(pairs_spec(board, s), s), s)
            & free_spots,
        s,
    ) & board
}

/// The free cells right before three stones in a line: the pattern `_ooo`.
pub open spec fn free_then_three_spec(board: u64, free_spots: u64, s: u64) -> u64 {
    clip_shift_inverse_spec(
        clip_shift_inverse_spec(clip_shift_inverse_spec(triples_spec(board, s), s), s),
        s,
    ) & free_spots
}

/// The pattern `oo_o` is counted in the cell of its last stone.
pub proof fn lemma_gap_after_cells(board: u64, free_spots: u64, k: int)
    requires
        within_board(board),
        0 <= k < 4,
    ensures
        forall|x: int, y: int|
            has_stone(gap_after_spec(board, free_spots, dir_shift(k)), x, y) <==> {
                &&& has_stone(board, x, y)
                &&& has_stone(free_spots, x - dir_dx(k), y - dir_dy(k))
                &&& has_stone(board, x - 2 * dir_dx(k), y - 2 * dir_dy(k))
                &&& has_stone(board, x - 3 * dir_dx(k), y - 3 * dir_dy(k))
            },
{
    let s = dir_shift(k);
    let dx = dir_dx(k);
    let dy = dir_dy(k);
    let pairs = pairs_spec(board, s);
    lemma_pairs_cells(board, k);
    lemma_clip_shift_cells(pairs, k);
    let gap = clip_shift_spec(pairs, s) & free_spots;
    lemma_and_cells(clip_shift_spec(pairs, s), free_spots);
    lemma_pattern_within(clip_shift_spec(pairs, s), free_spots);
    lemma_clip_shift_cells(gap, k);
    lemma_and_cells(clip_shift_spec(gap, s), board);
    assert forall|x: int, y: int|
        has_stone(gap_after_spec(board, free_spots, s), x, y) <==> {
            &&& has_stone(board, x, y)
            &&& has_stone(free_spots, x - dx, y - dy)
            &&& has_stone(board, x - 2 * dx, y - 2 * dy)
            &&& has_stone(board, x - 3 * dx, y - 3 * dy)
        } by {
        assert(x - dx - dx == x - 2 * dx && y - dy - dy == y - 2 * dy);
        assert(x - 2 * dx - dx == x - 3 * dx && y - 2 * dy - dy == y - 3 * dy);
        assert(has_stone(gap, x - dx, y - dy) <==> has_stone(
            clip_shift_spec(pairs, s),
            x - dx,
            y - dy,
        ) && has_stone(free_spots, x - dx, y - dy));
    }
}

/// The pattern `o_oo` is counted in the cell of its first stone.
pub proof fn lemma_gap_before_cells(board: u64, free_spots: u64, k: int)
    requires
        within_board(board),
        0 <= k < 4,
    ensures
        forall|x: int, y: int|
            has_stone(gap_before_spec(board, free_spots, dir_shift(k)), x, y) <==> {
                &&& has_stone(board, x, y)
                &&& has_stone(free_spots, x + dir_dx(k), y + dir_dy(k))
                &&& has_stone(board, x + 2 * dir_dx(k), y + 2 * dir_dy(k))
                &&& has_stone(board, x + 3 * dir_dx(k), y + 3 * dir_dy(k))
            },
{
    let s = dir_shift(k);
    let dx = dir_dx(k);
    let dy = dir_dy(k);
    let pairs = pairs_spec(board, s);
    lemma_pairs_cells(board, k);
    lemma_clip_shift_inverse_cells(pairs, k);
    let once = clip_shift_inverse_spec(pairs, s);
    lemma_clip_shift_inverse_cells(once, k);
    let twice = clip_shift_inverse_spec(once, s);
    let gap = twice & free_spots;
    lemma_and_cells(twice, free_spots);
    lemma_pattern_within(twice, free_spots);
    lemma_clip_shift_inverse_cells(gap, k);
    lemma_and_cells(clip_shift_inverse_spec(gap, s), board);
    assert forall|x: int, y: int|
        has_stone(gap_before_spec(board, free_spots, s), x, y) <==> {
            &&& has_stone(board, x, y)
            &&& has_stone(free_spots, x + dx, y + dy)
            &&& has_stone(board, x + 2 * dx, y + 2 * dy)
            &&& has_stone(board, x + 3 * dx, y + 3 * dy)
        } by {
        assert(x + dx + dx == x + 2 * dx && y + dy + dy == y + 2 * dy);
        assert(x + 2 * dx + dx == x + 3 * dx && y + 2 * dy + dy == y + 3 * dy);
        assert(x + 3 * dx - dx == x + 2 * dx && y + 3 * dy - dy == y + 2 * dy);
        assert(has_stone(gap, x + dx, y + dy) <==> has_stone(twice, x + dx, y + dy)
            && has_stone(free_spots, x + dx, y + dy));
        assert(has_stone(twice, x + dx, y + dy) <==> on_board(x + dx, y + dy) && has_stone(
            once,
            x + 2 * dx,
            y + 2 * dy,
        ));
        assert(has_stone(once, x + 2 * dx, y + 2 * dy) <==> on_board(x + 2 * dx, y + 2 * dy)
            && has_stone(pairs, x + 3 * dx, y + 3 * dy));
    }
}

/// The pattern `_ooo` is counted in its free cell.
pub proof fn lemma_free_then_three_cells(board: u64, free_spots: u64, k: int)
    requires
        within_board(board),
        0 <= k < 4,
    ensures
        forall|x: int, y: int|
            has_stone(free_then_three_spec(board, free_spots, dir_shift(k)), x, y) <==> has_stone(
                free_spots,
                x,
                y,
            ) && three_ahead(board, x, y, k),
{
    let s = dir_shift(k);
    let dx = dir_dx(k);
    let dy = dir_dy(k);
    let triples = triples_spec(board, s);
    lemma_triples_cells(board, k);
    lemma_clip_shift_inverse_cells(triples, k);
    let once = clip_shift_inverse_spec(triples, s);
    lemma_clip_shift_inverse_cells(once, k);
    let twice = clip_shift_inverse_spec(once, s);
    lemma_clip_shift_inverse_cells(twice, k);
    let thrice = clip_shift_inverse_spec(twice, s);
    lemma_and_cells(thrice, free_spots);
    assert forall|x: int, y: int|
        has_stone(free_then_three_spec(board, free_spots, s), x, y) <==> has_stone(
            free_spots,
            x,
            y,
        ) && three_ahead(board, x, y, k) by {
        assert(x + dx + dx == x + 2 * dx && y + dy + dy == y + 2 * dy);
        assert(x + 2 * dx + dx == x + 3 * dx && y + 2 * dy + dy == y + 3 * dy);
        assert(x + 3 * dx - dx == x + 2 * dx && y + 3 * dy - dy == y + 2 * dy);
        assert(x + 3 * dx - 2 * dx == x + dx && y + 3 * dy - 2 * dy == y + dy);
        assert(has_stone(thrice, x, y) <==> on_board(x, y) && has_stone(twice, x + dx, y + dy));
        assert(has_stone(twice, x + dx, y + dy) <==> on_board(x + dx, y + dy) && has_stone(
            once,
            x + 2 * dx,
            y + 2 * dy,
        ));
        assert(has_stone(once, x + 2 * dx, y + 2 * dy) <==> on_board(x + 2 * dx, y + 2 * dy)
            && has_stone(triples, x + 3 * dx, y + 3 * dy));
    }
}

/// The open triplets of `board` along the shift `s`, of all four patterns.
pub open spec fn open_three_along(board: u64, free_spots: u64, s: u64) -> nat {
    count_bits(open_after_spec(board, free_spots, s)) + count_bits(
        gap_after_spec(board, free_spots, s),
    ) + count_bits(gap_before_spec(board, free_spots, s)) + count_bits(
        free_then_three_spec(board, free_spots, s),
    )
}

/// The open triplets of `board` along the directions below `k`.
pub open spec fn open_three_below(board: u64, free_spots: u64, k: int) -> nat
    decreases k,
{
    if k <= 0 {
        0
    } else {
        open_three_below(board, free_spots, k - 1) + open_three_along(
            board,
            free_spots,
            dir_shift(k - 1),
        )
    }
}

/// The number of open triplets of `board`: three stones and a free cell in
/// four cells of a line, along all four directions.
pub open spec fn open_three_count(board: u64, free_spots: u64) -> nat {
    open_three_below(board, free_spots, 4)
}

proof fn lemma_open_three_bound(board: u64, free_spots: u64, k: int)
    requires
        0 <= k <= 4,
    ensures
        open_three_below(board, free_spots, k) <= 256 * k,
    decreases k,
{
    if k > 0 {
        lemma_open_three_bound(board, free_spots, k - 1);
        let s = dir_shift(k - 1);
        lemma_count_bits_bound(open_after_spec(board, free_spots, s), 64);
        lemma_count_bits_bound(gap_after_spec(board, free_spots, s), 64);
        lemma_count_bits_bound(gap_before_spec(board, free_spots, s), 64);
        lemma_count_bits_bound(free_then_three_spec(board, free_spots, s), 64);
    }
}

/// Returns the number of open triplets we have.
pub fn count_open_three(board: u64, free_spots: u64) -> (triplets: u32)
    ensures
        triplets == open_three_count(board, free_spots),
        triplets <= 1024,
{
    let mut triplets: u32 = 0;
    let mut k: usize = 0;
    while k < 4
        invariant
            k <= 4,
            triplets == open_three_below(board, free_spots, k as int),
        decreases 4 - k,
    {
        let bit_shift = DIR_INCREMENT[k];
        assert(bit_shift as u64 == dir_shift(k as int));
        proof {
            lemma_open_three_bound(board, free_spots, k as int);
            lemma_open_three_bound(board, free_spots, k + 1);
        }
        // ooo_ pattern
        let double_pos = clip_shift(board, bit_shift) & board;
        let dd = clip_shift(double_pos, bit_shift) & board;
        let triplets_after = clip_shift(dd, bit_shift) & free_spots;
        proof {
            lemma_count_bits_bound(triplets_after, 64);
        }
        triplets += triplets_after.count_ones();

        // oo_o pattern
        let free_match = clip_shift(double_pos, bit_shift) & free_spots;
        let spot_right = clip_shift(free_match, bit_shift) & board;
        proof {
            lemma_count_bits_bound(spot_right, 64);
        }
        triplets += spot_right.count_ones();

        // o_oo pattern
        let free_left_match = clip_shift_inverse(
            clip_shift_inverse(double_pos, bit_shift),
            bit_shift,
        ) & free_spots;
        let spot_left = clip_shift_inverse(free_left_match, bit_shift) & board;
        proof {
            lemma_count_bits_bound(spot_left, 64);
        }
        triplets += spot_left.count_ones();

        // _ooo pattern
        let triplets_before = clip_shift_inverse(
            clip_shift_inverse(clip_shift_inverse(dd, bit_shift), bit_shift),
            bit_shift,
        ) & free_spots;
        triplets += triplets_before.count_ones();
        k += 1;
    }
    proof {
        lemma_open_three_bound(board, free_spots, 4);
    }
    triplets
}

// ---------------------------------------------------------------------------
// The table of cell values
// ---------------------------------------------------------------------------

/// The cells that share the table's value `n`: the cell `(n % 4, n / 4)` of
/// the lower left quarter of the board and its mirror images in the other
/// three quarters.
pub open spec fn value_mask_spec(n: int) -> u64 {
    cell_mask(n % 4, n / 4) | cell_mask(6 - n % 4, n / 4) | cell_mask(n % 4, 5 - n / 4) | cell_mask(
        6 - n % 4,
        5 - n / 4,
    )
}

/// The table of values holds the squares of the cell values.
pub proof fn lemma_adjusted_values()
    ensures
        forall|n: int|
            0 <= n < 12 ==> #[trigger] BOARD_POSITION_CODING_VALUE[n] == CELL_VALUE_HALVES[n]
                * CELL_VALUE_HALVES[n] * QUARTER_SQUARE_SCORE,
{
    assert forall|n: int| 0 <= n < 12 implies #[trigger] BOARD_POSITION_CODING_VALUE[n]
        == CELL_VALUE_HALVES[n] * CELL_VALUE_HALVES[n] * QUARTER_SQUARE_SCORE by {
        let half = CELL_VALUE_HALVES[n];
        assert(half * half * 250_000 == BOARD_POSITION_CODING_VALUE[n]) by (nonlinear_arith)
            requires
                (half == 0 && BOARD_POSITION_CODING_VALUE[n] == 0) || (half == 1
                    && BOARD_POSITION_CODING_VALUE[n] == 250_000) || (half == 2
                    && BOARD_POSITION_CODING_VALUE[n] == 1_000_000) || (half == 3
                    && BOARD_POSITION_CODING_VALUE[n] == 2_250_000) || (half == 4
                    && BOARD_POSITION_CODING_VALUE[n] == 4_000_000) || (half == 6
                    && BOARD_POSITION_CODING_VALUE[n] == 9_000_000) || (half == 12
                    && BOARD_POSITION_CODING_VALUE[n] == 36_000_000) || (half == 16
                    && BOARD_POSITION_CODING_VALUE[n] == 64_000_000) || (half == 20
                    && BOARD_POSITION_CODING_VALUE[n] == 100_000_000),
        ;
    }
}

/// This function turns standard values from the literature into
/// representations that scale with our internal structure: each is squared
/// and scaled down to a thousandth.
pub fn make_adjusted_value() -> (values: [i64; 12])
    ensures
        values@ == BOARD_POSITION_CODING_VALUE@,
        forall|n: int|
            0 <= n < 12 ==> values[n] == CELL_VALUE_HALVES[n] * CELL_VALUE_HALVES[n]
                * QUARTER_SQUARE_SCORE,
{
    let mut local: [i64; 12] = CELL_VALUE_HALVES;
    let mut i: usize = 0;
    proof {
        lemma_adjusted_values();
    }
    while i < 12
        invariant
            i <= 12,
            forall|n: int| 0 <= n < i ==> local[n] == BOARD_POSITION_CODING_VALUE[n],
            forall|n: int| i <= n < 12 ==> local[n] == CELL_VALUE_HALVES[n],
            forall|n: int|
                0 <= n < 12 ==> #[trigger] BOARD_POSITION_CODING_VALUE[n] == CELL_VALUE_HALVES[n]
                    * CELL_VALUE_HALVES[n] * QUARTER_SQUARE_SCORE,
        decreases 12 - i,
    {
        let value = local[i];
        assert(0 <= value <= 20);
        assert(value * value <= 400) by (nonlinear_arith)
            requires
                0 <= value <= 20,
        ;
        assert(value * value * QUARTER_SQUARE_SCORE == BOARD_POSITION_CODING_VALUE[i as int]);
        local[i] = value * value * QUARTER_SQUARE_SCORE;
        i += 1;
    }
    assert(local@ =~= BOARD_POSITION_CODING_VALUE@);
    local
}

/// This generates the bit masks to be able to read out the value table.
pub fn make_value_bitmask() -> (mask: [u64; 12])
    ensures
        mask@ == VALUE_POSITION_BITMASK@,
        forall|n: int| 0 <= n < 12 ==> mask[n] == value_mask_spec(n),
{
    let mut mask: [u64; 12] = [0;12];
    let mut y_scan: u32 = 0;
    while y_scan < 3
        invariant
            y_scan <= 3,
            forall|n: int| 0 <= n < 12 && 2 - n / 4 < y_scan ==> mask[n] == value_mask_spec(n),
        decreases 3 - y_scan,
    {
        let mut x_scan: u32 = 0;
        while x_scan < 4
            invariant
                y_scan < 3,
                x_scan <= 4,
                forall|n: int|
                    0 <= n < 12 && (2 - n / 4 < y_scan || (2 - n / 4 == y_scan && 3 - n % 4
                        < x_scan)) ==> mask[n] == value_mask_spec(n),
            decreases 4 - x_scan,
        {
            let index: usize = ((3 - x_scan) + 4 * (2 - y_scan)) as usize;
            mask[index] = get_bit_representation(3 - x_scan, 2 - y_scan) | get_bit_representation(
                3 + x_scan,
                2 - y_scan,
            ) | get_bit_representation(3 - x_scan, 3 + y_scan) | get_bit_representation(
                3 + x_scan,
                3 + y_scan,
            );
            x_scan += 1;
        }
        y_scan += 1;
    }
    proof {
        lemma_value_masks();
        assert forall|n: int| 0 <= n < 12 implies mask@[n] == VALUE_POSITION_BITMASK@[n] by {
            assert(mask[n] == value_mask_spec(n));
        }
        assert(mask@ =~= VALUE_POSITION_BITMASK@);
    }
    mask
}

/// Each mask of the table flags a cell of the lower left quarter of the
/// board and its mirror images.
pub proof fn lemma_value_masks()
    ensures
        forall|n: int| 0 <= n < 12 ==> VALUE_POSITION_BITMASK[n] == value_mask_spec(n),
{
    assert(VALUE_POSITION_BITMASK[0] == value_mask_spec(0) && VALUE_POSITION_BITMASK[1]
        == value_mask_spec(1) && VALUE_POSITION_BITMASK[2] == value_mask_spec(2)
        && VALUE_POSITION_BITMASK[3] == value_mask_spec(3) && VALUE_POSITION_BITMASK[4]
        == value_mask_spec(4) && VALUE_POSITION_BITMASK[5] == value_mask_spec(5)
        && VALUE_POSITION_BITMASK[6] == value_mask_spec(6) && VALUE_POSITION_BITMASK[7]
        == value_mask_spec(7) && VALUE_POSITION_BITMASK[8] == value_mask_spec(8)
        && VALUE_POSITION_BITMASK[9] == value_mask_spec(9) && VALUE_POSITION_BITMASK[10]
        == value_mask_spec(10) && VALUE_POSITION_BITMASK[11] == value_mask_spec(11)) by {
        lemma_value_mask_literals();
    }
}

proof fn lemma_value_mask_literals()
    by (bit_vector)
    ensures
        0x0000_4100_0000_0041u64 == (1u64 << 0u64) | (1u64 << 6u64) | (1u64 << 40u64) | (1u64
            << 46u64),
        0x0000_2200_0000_0022u64 == (1u64 << 1u64) | (1u64 << 5u64) | (1u64 << 41u64) | (1u64
            << 45u64),
        0x0000_1400_0000_0014u64 == (1u64 << 2u64) | (1u64 << 4u64) | (1u64 << 42u64) | (1u64
            << 44u64),
        0x0000_0800_0000_0008u64 == (1u64 << 3u64) | (1u64 << 3u64) | (1u64 << 43u64) | (1u64
            << 43u64),
        0x0000_0041_0000_4100u64 == (1u64 << 8u64) | (1u64 << 14u64) | (1u64 << 32u64) | (1u64
            << 38u64),
        0x0000_0022_0000_2200u64 == (1u64 << 9u64) | (1u64 << 13u64) | (1u64 << 33u64) | (1u64
            << 37u64),
        0x0000_0014_0000_1400u64 == (1u64 << 10u64) | (1u64 << 12u64) | (1u64 << 34u64) | (1u64
            << 36u64),
        0x0000_0008_0000_0800u64 == (1u64 << 11u64) | (1u64 << 11u64) | (1u64 << 35u64) | (1u64
            << 35u64),
        0x0000_0000_4141_0000u64 == (1u64 << 16u64) | (1u64 << 22u64) | (1u64 << 24u64) | (1u64
            << 30u64),
        0x0000_0000_2222_0000u64 == (1u64 << 17u64) | (1u64 << 21u64) | (1u64 << 25u64) | (1u64
            << 29u64),
        0x0000_0000_1414_0000u64 == (1u64 << 18u64) | (1u64 << 20u64) | (1u64 << 26u64) | (1u64
            << 28u64),
        0x0000_0000_0808_0000u64 == (1u64 << 19u64) | (1u64 << 19u64) | (1u64 << 27u64) | (1u64
            << 27u64),
{
}

/// The worth of the stones of `board` on the cells of the table's first `n`
/// values.
pub open spec fn table_scoring_below(board: u64, n: int) -> int
    decreases n,
{
    if n <= 0 {
        0
    } else {
        table_scoring_below(board, n - 1) + BOARD_POSITION_CODING_VALUE[n - 1] * count_bits(
            board & VALUE_POSITION_BITMASK[n - 1],
        )
    }
}

/// The worth of where the stones of `board` stand, by the table.
pub open spec fn table_scoring_spec(board: u64) -> int {
    table_scoring_below(board, 12)
}

proof fn lemma_table_scoring_bound(board: u64, n: int)
    requires
        0 <= n <= 12,
    ensures
        0 <= table_scoring_below(board, n) <= 6_400_000_000 * n,
    decreases n,
{
    if n > 0 {
        lemma_table_scoring_bound(board, n - 1);
        lemma_count_bits_bound(board & VALUE_POSITION_BITMASK[n - 1], 64);
        let count = count_bits(board & VALUE_POSITION_BITMASK[n - 1]);
        let value = BOARD_POSITION_CODING_VALUE[n - 1];
        assert(0 <= value <= 100_000_000);
        assert(0 <= value * count <= 6_400_000_000) by (nonlinear_arith)
            requires
                0 <= value <= 100_000_000,
                0 <= count <= 64,
        ;
    }
}

/// Evaluates the stones by their position on the board. Gives center stones
/// a higher value, because they can generate more possibilities in the
/// future.
pub fn get_board_scoring(board: u64) -> (score: i64)
    ensures
        score == table_scoring_spec(board),
        0 <= score <= 76_800_000_000,
{
    let mut score: i64 = 0;
    let mut i: usize = 0;
    while i < 12
        invariant
            i <= 12,
            score == table_scoring_below(board, i as int),
        decreases 12 - i,
    {
        proof {
            lemma_table_scoring_bound(board, i as int);
            lemma_table_scoring_bound(board, i + 1);
            lemma_count_bits_bound(board & VALUE_POSITION_BITMASK[i as int], 64);
        }
        let pos_ind = (board & VALUE_POSITION_BITMASK[i]).count_ones();
        let value = BOARD_POSITION_CODING_VALUE[i];
        assert(0 <= value * pos_ind <= 6_400_000_000) by (nonlinear_arith)
            requires
                0 <= value <= 100_000_000,
                0 <= pos_ind <= 64,
        ;
        score += value * pos_ind as i64;
        i += 1;
    }
    proof {
        lemma_table_scoring_bound(board, 12);
    }
    score
}

/// The estimate of a position by the table, before it is clamped.
pub open spec fn raw_table_heuristic_spec(own: u64, opp: u64) -> int {
    OPEN_THREE_SCORE * open_three_count(own, free_spots_spec(own, opp)) - OPEN_THREE_SCORE
        * open_three_count(opp, free_spots_spec(own, opp)) + table_scoring_spec(own)
        - table_scoring_spec(opp)
}

/// The estimate of a position by the table, clamped to the range from
/// `-clamp_guard` to `clamp_guard`.
pub open spec fn table_heuristic_spec(own: u64, opp: u64, clamp_guard: int) -> int {
    clamp_spec(raw_table_heuristic_spec(own, opp), clamp_guard)
}

/// Does the complete heuristic evaluation of the game board by the table,
/// from the point of view of the own stones. The game must not be over.
pub fn compute_heuristics(board_analyzed: &BitBoard, clamp_guard: i64) -> (score: i64)
    requires
        !is_terminal(board_analyzed.own_stones, board_analyzed.opponent_stones),
        0 <= clamp_guard,
    ensures
        score == table_heuristic_spec(
            board_analyzed.own_stones,
            board_analyzed.opponent_stones,
            clamp_guard as int,
        ),
        -clamp_guard <= score <= clamp_guard,
{
    let free_spots = !(board_analyzed.opponent_stones | board_analyzed.own_stones)
        & FULL_BOARD_MASK;
    let mut score: i64 = 0;

    // 1. Pairing combination
    let own_triplets = count_open_three(board_analyzed.own_stones, free_spots);
    score += own_triplets as i64 * OPEN_THREE_SCORE;
    let opp_triplets = count_open_three(board_analyzed.opponent_stones, free_spots);
    score -= opp_triplets as i64 * OPEN_THREE_SCORE;

    // 2. Board control.
    score += get_board_scoring(board_analyzed.own_stones);
    score -= get_board_scoring(board_analyzed.opponent_stones);

    // We do not clamp against exactly one, so that whatever the outcome is,
    // it will always be dominated by a guaranteed win or loss.
    clamp_score(score, clamp_guard)
}

/// The estimate by the table changes its sign when the two sides change
/// places.
pub proof fn lemma_table_heuristic_antisymmetric(own: u64, opp: u64, clamp_guard: int)
    requires
        0 <= clamp_guard,
    ensures
        table_heuristic_spec(opp, own, clamp_guard) == -table_heuristic_spec(
            own,
            opp,
            clamp_guard,
        ),
{
    crate::board_logic::bit_board::lemma_position_swapped(own, opp);
}

} // verus!
