//! Constants and bit tricks for a board of seven columns and six rows.
//!
//! A board is a `u64` in which cell `(x, y)` is bit `x + 8 * y`:
//!
//! ```text
//! (48) (49) (50) (51) (52) (53) (54) (55)
//!  40   41   42   43   44   45   46  (47)
//!  32   33   34   35   36   37   38  (39)
//!  24   25   26   27   28   29   30  (31)
//!  16   17   18   19   20   21   22  (23)
//!   8    9   10   11   12   13   14  (15)
//!   0    1    2    3    4    5    6  ( 7)
//! ```
//!
//! The bits in parentheses are guards. They stay clear, so that a shift along
//! a line never carries a stone over an edge of the board.
//!
//! The contracts speak of two models of a board. The first is the bit
//! pattern itself (`bit_at` and the `*_spec` functions). The second is the
//! grid of cells ([`has_stone`]). The lemmas of this module carry statements
//! from one to the other.

use crate::board_logic::bits::{
    bit_at, lemma_bit_nonzero, lemma_bit_ops, lemma_bits_equal, lemma_nonzero_bit, lemma_single_bit,
    lemma_test_bit,
};
use vstd::prelude::*;

verus! {

/// The width of the board.
pub const BOARD_WIDTH: u32 = 7;

/// The height of the board.
pub const BOARD_HEIGHT: u32 = 6;

/// Flags the leftmost column. Column `c` is this mask shifted left by `c`.
pub const FIRST_COLUMN_MASK: u64 = 0x0000_0101_0101_0101;

/// Flags the full board except for the guard bits.
pub const FULL_BOARD_MASK: u64 = 0x0000_7f7f_7f7f_7f7f;

/// Flags the bottom line, helpful to determine possible legal moves.
pub const BOTTOM_FILL_MASK: u64 = 0x7f;

/// Bit shift increment of the four line directions:
/// ```text
/// 0  1   2
/// \  |  /
///    X -  3
/// ```
pub const DIR_INCREMENT: [u8; 4] = [7, 8, 9, 1];

// ---------------------------------------------------------------------------
// The two models
// ---------------------------------------------------------------------------

/// `(x, y)` is a cell of the board.
pub open spec fn on_board(x: int, y: int) -> bool {
    0 <= x < 7 && 0 <= y < 6
}

/// Cell `(x, y)` is on the board and holds a stone of `board`.
pub open spec fn has_stone(board: u64, x: int, y: int) -> bool {
    on_board(x, y) && bit_at(board, (x + 8 * y) as u64)
}

/// No guard bit of `board` is set.
pub open spec fn within_board(board: u64) -> bool {
    board & !FULL_BOARD_MASK == 0
}

/// The mask of the single cell `(x, y)`.
pub open spec fn cell_mask(x: int, y: int) -> u64 {
    1u64 << ((x + 8 * y) as u64)
}

/// The mask of column `col`.
pub open spec fn column_mask(col: int) -> u64 {
    FIRST_COLUMN_MASK << (col as u64)
}

/// Horizontal step of direction `k`, in the order of [`DIR_INCREMENT`].
pub open spec fn dir_dx(k: int) -> int {
    if k == 0 {
        -1
    } else if k == 1 {
        0
    } else {
        1
    }
}

/// Vertical step of direction `k`, in the order of [`DIR_INCREMENT`].
pub open spec fn dir_dy(k: int) -> int {
    if k == 3 {
        0
    } else {
        1
    }
}

/// Direction `k` moves a cell's bit index by `dir_dx(k) + 8 * dir_dy(k)`,
/// which is `DIR_INCREMENT[k]`.
pub open spec fn dir_shift(k: int) -> u64 {
    if k == 0 {
        7
    } else if k == 1 {
        8
    } else if k == 2 {
        9
    } else {
        1
    }
}

// ---------------------------------------------------------------------------
// Bits and cells
// ---------------------------------------------------------------------------

/// The bits of the constant masks: the full board has the bits of all
/// cells, the bottom filler those of the lowest row.
pub proof fn lemma_constant_masks()
    by (bit_vector)
    ensures
        forall|j: u64|
            j < 64 ==> (#[trigger] bit_at(FULL_BOARD_MASK, j) <==> j % 8 < 7 && j / 8 < 6),
        forall|j: u64| j < 64 ==> (#[trigger] bit_at(BOTTOM_FILL_MASK, j) <==> j < 7),
        within_board(FULL_BOARD_MASK),
        within_board(BOTTOM_FILL_MASK),
{
}

/// The bits of a column's mask are those of the column's cells.
pub proof fn lemma_column_mask_bits(col: u64)
    by (bit_vector)
    requires
        col < 7,
    ensures
        forall|j: u64|
            j < 64 ==> (#[trigger] bit_at(FIRST_COLUMN_MASK << col, j) <==> j % 8 == col && j / 8
                < 6),
        within_board(FIRST_COLUMN_MASK << col),
{
}

/// The bits of a board without guard bits are indices of cells.
pub proof fn lemma_within_board_bit(board: u64, i: u64)
    requires
        within_board(board),
        i < 64,
        bit_at(board, i),
    ensures
        i % 8 < 7,
        i / 8 < 6,
{
    lemma_bit_ops(board, !FULL_BOARD_MASK);
    lemma_bit_ops(FULL_BOARD_MASK, 0);
    lemma_constant_masks();
    assert(!bit_at(board & !FULL_BOARD_MASK, i));
    assert(!bit_at(!FULL_BOARD_MASK, i));
}

/// A stone of a board is a set bit at the cell's index, and the other way
/// round.
pub proof fn lemma_stone_bit(board: u64, i: u64)
    requires
        within_board(board),
        i < 64,
    ensures
        bit_at(board, i) <==> has_stone(board, (i % 8) as int, (i / 8) as int),
{
    if bit_at(board, i) {
        lemma_within_board_bit(board, i);
    }
    assert((i % 8) + 8 * (i / 8) == i);
}

// ---------------------------------------------------------------------------
// Masks
// ---------------------------------------------------------------------------

/// Gets a mask, where the bit at the indicated position is set.
#[inline(always)]
pub fn get_bit_representation(x: u32, y: u32) -> (mask: u64)
    requires
        x + 8 * y < 64,
    ensures
        mask == cell_mask(x as int, y as int),
        forall|i: u64| i < 64 ==> (#[trigger] bit_at(mask, i) <==> i == x + 8 * y),
{
    let shift: u32 = x + 8 * y;
    proof {
        lemma_single_bit(shift as u64);
    }
    1u64 << shift
}

/// Generates a mask for one specific column.
pub fn get_column_mask(col: u32) -> (mask: u64)
    requires
        col < BOARD_WIDTH,
    ensures
        mask == column_mask(col as int),
        forall|x: int, y: int| has_stone(mask, x, y) <==> on_board(x, y) && x == col,
{
    let mut result: u64 = 0;
    let mut y: u32 = 0;
    proof {
        lemma_bit_ops(0, 0);
    }
    while y < BOARD_HEIGHT
        invariant
            col < 7,
            y <= 6,
            forall|j: u64| j < 64 ==> (#[trigger] bit_at(result, j) <==> j % 8 == col && j / 8 < y),
        decreases 6 - y,
    {
        let bit = get_bit_representation(col, y);
        proof {
            lemma_bit_ops(result, bit);
        }
        result |= bit;
        y += 1;
    }
    proof {
        lemma_column_mask_bits(col as u64);
        lemma_bits_equal(result, column_mask(col as int));
        lemma_column_mask_cells(col as int);
    }
    result
}

/// The cells of a column's mask are the cells of that column.
pub proof fn lemma_column_mask_cells(col: int)
    requires
        0 <= col < 7,
    ensures
        within_board(column_mask(col)),
        forall|x: int, y: int| has_stone(column_mask(col), x, y) <==> on_board(x, y) && x == col,
{
    lemma_column_mask_bits(col as u64);
    assert forall|x: int, y: int| has_stone(column_mask(col), x, y) <==> on_board(x, y) && x
        == col by {
        if on_board(x, y) {
            let j = (x + 8 * y) as u64;
            assert(j % 8 == x && j / 8 == y);
        }
    }
}

/// Helpful to mask out the guard bits.
pub fn get_full_board_mask() -> (mask: u64)
    ensures
        mask == FULL_BOARD_MASK,
        forall|x: int, y: int| has_stone(mask, x, y) <==> on_board(x, y),
{
    let mut result: u64 = 0;
    let mut x: u32 = 0;
    proof {
        lemma_bit_ops(0, 0);
    }
    while x < BOARD_WIDTH
        invariant
            x <= 7,
            forall|j: u64| j < 64 ==> (#[trigger] bit_at(result, j) <==> j % 8 < x && j / 8 < 6),
        decreases 7 - x,
    {
        let mut y: u32 = 0;
        while y < BOARD_HEIGHT
            invariant
                x < 7,
                y <= 6,
                forall|j: u64|
                    j < 64 ==> (#[trigger] bit_at(result, j) <==> (j % 8 < x && j / 8 < 6) || (j
                        % 8 == x && j / 8 < y)),
            decreases 6 - y,
        {
            let bit = get_bit_representation(x, y);
            proof {
                lemma_bit_ops(result, bit);
            }
            result |= bit;
            y += 1;
        }
        x += 1;
    }
    proof {
        lemma_constant_masks();
        lemma_bits_equal(result, FULL_BOARD_MASK);
        lemma_full_board_cells();
    }
    result
}

/// Every cell of the board is set in the full mask, and no guard bit.
pub proof fn lemma_full_board_cells()
    ensures
        within_board(FULL_BOARD_MASK),
        forall|x: int, y: int| has_stone(FULL_BOARD_MASK, x, y) <==> on_board(x, y),
{
    lemma_constant_masks();
    assert forall|x: int, y: int| has_stone(FULL_BOARD_MASK, x, y) <==> on_board(x, y) by {
        if on_board(x, y) {
            let j = (x + 8 * y) as u64;
            assert(j % 8 == x && j / 8 == y);
        }
    }
}

/// Generates a mask for the lowest line.
pub fn get_bottom_filler_mask() -> (mask: u64)
    ensures
        mask == BOTTOM_FILL_MASK,
        forall|x: int, y: int| has_stone(mask, x, y) <==> on_board(x, y) && y == 0,
{
    let mut result: u64 = 0;
    let mut x: u32 = 0;
    proof {
        lemma_bit_ops(0, 0);
    }
    while x < BOARD_WIDTH
        invariant
            x <= 7,
            forall|j: u64| j < 64 ==> (#[trigger] bit_at(result, j) <==> j < x),
        decreases 7 - x,
    {
        let bit = get_bit_representation(x, 0);
        proof {
            lemma_bit_ops(result, bit);
        }
        result |= bit;
        x += 1;
    }
    proof {
        lemma_constant_masks();
        lemma_bits_equal(result, BOTTOM_FILL_MASK);
        lemma_bottom_cells();
    }
    result
}

/// The cells of the bottom mask are the cells of the lowest row.
pub proof fn lemma_bottom_cells()
    ensures
        forall|x: int, y: int| has_stone(BOTTOM_FILL_MASK, x, y) <==> on_board(x, y) && y == 0,
{
    lemma_constant_masks();
    assert forall|x: int, y: int| has_stone(BOTTOM_FILL_MASK, x, y) <==> on_board(x, y) && y
        == 0 by {
        if on_board(x, y) {
            let j = (x + 8 * y) as u64;
            assert(j < 7 <==> y == 0);
        }
    }
}

// ---------------------------------------------------------------------------
// Mirroring
// ---------------------------------------------------------------------------

/// The board mirrored along the vertical axis through the middle column.
/// Guard bits are dropped.
pub open spec fn flip_board_spec(input: u64) -> u64 {
    ((input & column_mask(6)) >> 6) | ((input & column_mask(5)) >> 4) | ((input & column_mask(4))
        >> 2) | (input & column_mask(3)) | ((input & column_mask(2)) << 2) | ((input & column_mask(
        1,
    )) << 4) | ((input & column_mask(0)) << 6)
}

/// Method to mirror a board along the y-axis.
pub fn flip_board(input: u64) -> (flipped: u64)
    ensures
        flipped == flip_board_spec(input),
        within_board(flipped),
        forall|x: int, y: int| has_stone(flipped, x, y) <==> has_stone(input, 6 - x, y),
{
    let mut result: u64;
    result = (input & get_column_mask(6)) >> 6;
    result |= (input & get_column_mask(5)) >> 4;
    result |= (input & get_column_mask(4)) >> 2;
    result |= input & get_column_mask(3);
    result |= (input & get_column_mask(2)) << 2;
    result |= (input & get_column_mask(1)) << 4;
    result |= (input & get_column_mask(0)) << 6;
    proof {
        lemma_flip_cells(input);
    }
    result
}

/// Mirroring by bits: the bit of cell `(x, y)` comes from cell `(6 - x, y)`,
/// no guard bit is set, and mirroring twice gives the cells back.
proof fn lemma_flip_bits(input: u64, x: u64, y: u64)
    by (bit_vector)
    requires
        x < 7,
        y < 6,
    ensures
        bit_at(flip_board_spec(input), (x + 8 * y) as u64) <==> bit_at(
            input,
            ((6 - x) + 8 * y) as u64,
        ),
        within_board(flip_board_spec(input)),
        flip_board_spec(flip_board_spec(input)) == input & FULL_BOARD_MASK,
        within_board(input) ==> input & FULL_BOARD_MASK == input,
{
}

/// Mirroring moves the stone of cell `(6 - x, y)` to cell `(x, y)`.
pub proof fn lemma_flip_cells(input: u64)
    ensures
        within_board(flip_board_spec(input)),
        forall|x: int, y: int|
            has_stone(flip_board_spec(input), x, y) <==> has_stone(input, 6 - x, y),
{
    lemma_flip_bits(input, 0, 0);
    assert forall|x: int, y: int|
        has_stone(flip_board_spec(input), x, y) <==> has_stone(input, 6 - x, y) by {
        if on_board(x, y) {
            lemma_flip_bits(input, x as u64, y as u64);
        }
    }
}

/// Mirroring twice gives the board back: exactly, where the board has no
/// guard bit set, and without its guard bits otherwise.
pub proof fn lemma_flip_involution(board: u64)
    ensures
        flip_board_spec(flip_board_spec(board)) == board & FULL_BOARD_MASK,
        within_board(board) ==> flip_board_spec(flip_board_spec(board)) == board,
{
    lemma_flip_bits(board, 0, 0);
}

// ---------------------------------------------------------------------------
// Cells of a board
// ---------------------------------------------------------------------------

/// The cells of the board, column by column from the left, each column from
/// the bottom.
pub open spec fn board_cells() -> Seq<(u32, u32)> {
    Seq::new(42, |k: int| ((k / 6) as u32, (k % 6) as u32))
}

/// The test that a cell holds a stone of `board`.
pub open spec fn stone_test(board: u64) -> spec_fn((u32, u32)) -> bool {
    |c: (u32, u32)| has_stone(board, c.0 as int, c.1 as int)
}

/// The cells that hold a stone of `board`, in the order of [`board_cells`].
pub open spec fn stones_of(board: u64) -> Seq<(u32, u32)> {
    board_cells().filter(stone_test(board))
}

/// `(x, y)` comes before `(a, b)` in the order of [`board_cells`], or is it.
pub open spec fn cell_le(x: int, y: int, a: int, b: int) -> bool {
    x < a || (x == a && y <= b)
}

/// Tests one cell of the board.
fn cell_is_set(board: u64, x: u32, y: u32) -> (set: bool)
    requires
        x < BOARD_WIDTH,
        y < BOARD_HEIGHT,
    ensures
        set == has_stone(board, x as int, y as int),
{
    let shift: u32 = x + 8 * y;
    proof {
        lemma_test_bit(board, shift as u64);
    }
    board & (1u64 << shift) != 0
}

/// Slow method only to be used for board drawing, gets all elements from the
/// board as coordinates.
pub fn get_position_iterator(board: u64) -> (cells: Vec<(u32, u32)>)
    ensures
        cells@ == stones_of(board),
{
    let mut cells: Vec<(u32, u32)> = Vec::new();
    let mut x: u32 = 0;
    assert(board_cells().take(0).filter(stone_test(board)) =~= Seq::<(u32, u32)>::empty()) by {
        reveal(Seq::filter);
    }
    while x < BOARD_WIDTH
        invariant
            x <= 7,
            cells@ == board_cells().take(6 * x).filter(stone_test(board)),
        decreases 7 - x,
    {
        let mut y: u32 = 0;
        while y < BOARD_HEIGHT
            invariant
                x < 7,
                y <= 6,
                cells@ == board_cells().take(6 * x + y).filter(stone_test(board)),
            decreases 6 - y,
        {
            proof {
                let n = 6 * x + y;
                let longer = board_cells().take(n + 1);
                assert(longer.drop_last() =~= board_cells().take(n as int));
                assert(longer.last() == (x, y));
                reveal(Seq::filter);
            }
            if cell_is_set(board, x, y) {
                cells.push((x, y));
            }
            y += 1;
        }
        x += 1;
    }
    assert(board_cells().take(42) =~= board_cells());
    cells
}

/// What [`stones_of`] lists: each cell with a stone once, in ascending order.
pub proof fn lemma_stones_of(board: u64)
    ensures
        forall|i: int|
            0 <= i < stones_of(board).len() ==> has_stone(
                board,
                (#[trigger] stones_of(board)[i]).0 as int,
                stones_of(board)[i].1 as int,
            ),
        forall|x: int, y: int|
            has_stone(board, x, y) ==> stones_of(board).contains((x as u32, y as u32)),
        forall|i: int, j: int|
            0 <= i < j < stones_of(board).len() ==> {
                let a = #[trigger] stones_of(board)[i];
                let b = #[trigger] stones_of(board)[j];
                cell_le(a.0 as int, a.1 as int, b.0 as int, b.1 as int) && a != b
            },
{
    lemma_stones_prefix(board, 42);
    assert(board_cells().take(42) =~= board_cells());
    assert forall|x: int, y: int| has_stone(board, x, y) implies stones_of(board).contains(
        (x as u32, y as u32),
    ) by {
        let k = 6 * x + y;
        assert(board_cells()[k] == (x as u32, y as u32));
    }
}

/// The statement of [`lemma_stones_of`] for the first `n` cells.
proof fn lemma_stones_prefix(board: u64, n: int)
    requires
        0 <= n <= 42,
    ensures
        ({
            let s = board_cells().take(n).filter(stone_test(board));
            &&& forall|i: int|
                0 <= i < s.len() ==> has_stone(board, (#[trigger] s[i]).0 as int, s[i].1 as int)
                    && 6 * s[i].0 + s[i].1 < n && s[i].1 < 6
            &&& forall|k: int|
                0 <= k < n && has_stone(board, k / 6, k % 6) ==> s.contains(
                    #[trigger] board_cells()[k],
                )
            &&& forall|i: int, j: int|
                0 <= i < j < s.len() ==> 6 * (#[trigger] s[i]).0 + s[i].1 < 6 * (#[trigger] s[j]).0
                    + s[j].1
        }),
    decreases n,
{
    reveal(Seq::filter);
    let s = board_cells().take(n).filter(stone_test(board));
    if n > 0 {
        lemma_stones_prefix(board, n - 1);
        let shorter = board_cells().take(n - 1).filter(stone_test(board));
        assert(board_cells().take(n).drop_last() =~= board_cells().take(n - 1));
        let c = board_cells()[n - 1];
        assert(board_cells().take(n).last() == c);
        if stone_test(board)(c) {
            assert(s == shorter.push(c));
            assert(s[s.len() - 1] == c);
            assert forall|k: int|
                0 <= k < n && has_stone(board, k / 6, k % 6) implies s.contains(
                #[trigger] board_cells()[k],
            ) by {
                if k < n - 1 {
                    let i = choose|i: int|
                        0 <= i < shorter.len() && shorter[i] == board_cells()[k];
                    assert(s[i] == board_cells()[k]);
                } else {
                    assert(s[s.len() - 1] == board_cells()[k]);
                }
            }
        } else {
            assert(s == shorter);
        }
    }
}

/// The character that stands for a cell in the picture of a board.
pub open spec fn cell_character(board: u64, x: int, y: int) -> char {
    if has_stone(board, x, y) {
        'X'
    } else {
        '-'
    }
}

/// Helper function for logging a board: its picture, one line for each row
/// from the top row down, and in each line one character for each column,
/// `X` for a stone and `-` for none.
pub fn debug_board_lines(board: u64) -> (lines: Vec<Vec<char>>)
    ensures
        lines.len() == 6,
        forall|row: int|
            0 <= row < 6 ==> (#[trigger] lines[row]).len() == 7 && forall|x: int|
                0 <= x < 7 ==> lines[row][x] == cell_character(board, x, 5 - row),
{
    let mut lines: Vec<Vec<char>> = Vec::new();
    let mut height: u32 = BOARD_HEIGHT;
    while height > 0
        invariant
            height <= 6,
            lines.len() == 6 - height,
            forall|row: int|
                0 <= row < lines.len() ==> (#[trigger] lines[row]).len() == 7 && forall|x: int|
                    0 <= x < 7 ==> lines[row][x] == cell_character(board, x, 5 - row),
        decreases height,
    {
        height -= 1;
        let mut line: Vec<char> = Vec::new();
        let mut width: u32 = 0;
        while width < BOARD_WIDTH
            invariant
                width <= 7,
                height < 6,
                line.len() == width,
                forall|x: int|
                    0 <= x < width ==> line[x] == cell_character(board, x, height as int),
            decreases 7 - width,
        {
            if cell_is_set(board, width, height) {
                line.push('X');
            } else {
                line.push('-');
            }
            width += 1;
        }
        lines.push(line);
    }
    lines
}

/// Use only for interface stuff. Returns for an indicated move the x, y
/// coordinate where it will wind up: the first cell of the mask in the order
/// of [`board_cells`], or nothing where the mask holds no cell of the board.
pub fn get_move_information(coded_move: u64) -> (cell: Option<(u32, u32)>)
    ensures
        match cell {
            Some((x, y)) => has_stone(coded_move, x as int, y as int) && forall|a: int, b: int|
                has_stone(coded_move, a, b) ==> cell_le(x as int, y as int, a, b),
            None => forall|a: int, b: int| !has_stone(coded_move, a, b),
        },
{
    let mut x: u32 = 0;
    while x < BOARD_WIDTH
        invariant
            x <= 7,
            forall|a: int, b: int| has_stone(coded_move, a, b) ==> a >= x,
        decreases 7 - x,
    {
        let mut y: u32 = 0;
        while y < BOARD_HEIGHT
            invariant
                x < 7,
                y <= 6,
                forall|a: int, b: int|
                    has_stone(coded_move, a, b) ==> cell_le(x as int, y as int, a, b),
            decreases 6 - y,
        {
            if cell_is_set(coded_move, x, y) {
                return Some((x, y));
            }
            y += 1;
        }
        x += 1;
    }
    None
}

// ---------------------------------------------------------------------------
// Shifts
// ---------------------------------------------------------------------------

/// `input` shifted up by `amount` bits, without what lands on a guard bit.
pub open spec fn clip_shift_spec(input: u64, amount: u64) -> u64 {
    (input << amount) & FULL_BOARD_MASK
}

/// `input` shifted down by `amount` bits, without what lands on a guard bit.
pub open spec fn clip_shift_inverse_spec(input: u64, amount: u64) -> u64 {
    (input >> amount) & FULL_BOARD_MASK
}

/// Applies the indicated shift for movement by the shift value and clips
/// the value against the guard bits.
#[inline(always)]
pub fn clip_shift(input: u64, amount: u8) -> (shifted: u64)
    requires
        amount < 64,
    ensures
        shifted == clip_shift_spec(input, amount as u64),
        within_board(shifted),
{
    proof {
        lemma_shift_bits(input, amount as u64, 0, 0);
    }
    (input << amount) & FULL_BOARD_MASK
}

/// Does the inverse clip shift.
#[inline(always)]
pub fn clip_shift_inverse(input: u64, amount: u8) -> (shifted: u64)
    requires
        amount < 64,
    ensures
        shifted == clip_shift_inverse_spec(input, amount as u64),
        within_board(shifted),
{
    proof {
        lemma_shift_bits(input, amount as u64, 0, 0);
    }
    (input >> amount) & FULL_BOARD_MASK
}

/// A clipped shift by bits: it sets no guard bit, and the bit of a cell
/// comes from the bit `amount` places below, where there is one.
proof fn lemma_shift_bits(input: u64, amount: u64, from: u64, to: u64)
    by (bit_vector)
    ensures
        within_board(clip_shift_spec(input, amount)),
        within_board(clip_shift_inverse_spec(input, amount)),
        to < 48 && to % 8 < 7 && amount < 10 && from + amount == to ==> (bit_at(
            clip_shift_spec(input, amount),
            to,
        ) <==> bit_at(input, from)),
        to < amount && amount < 10 ==> !bit_at(clip_shift_spec(input, amount), to),
        to + amount < 64 ==> (bit_at(input >> amount, to) <==> bit_at(
            input,
            (to + amount) as u64,
        )),
        to + amount >= 64 ==> !bit_at(input >> amount, to),
{
}

/// A clipped shift along direction `k` moves every stone one step along it
/// and drops those that would leave the board.
pub proof fn lemma_clip_shift_cells(board: u64, k: int)
    requires
        within_board(board),
        0 <= k < 4,
    ensures
        within_board(clip_shift_spec(board, dir_shift(k))),
        forall|x: int, y: int|
            has_stone(clip_shift_spec(board, dir_shift(k)), x, y) <==> on_board(x, y) && has_stone(
                board,
                x - dir_dx(k),
                y - dir_dy(k),
            ),
{
    let s = dir_shift(k);
    lemma_shift_bits(board, s, 0, 0);
    assert forall|x: int, y: int|
        has_stone(clip_shift_spec(board, s), x, y) <==> on_board(x, y) && has_stone(
            board,
            x - dir_dx(k),
            y - dir_dy(k),
        ) by {
        if on_board(x, y) {
            let i = (x + 8 * y) as u64;
            if i >= s {
                let j = (i - s) as u64;
                lemma_shift_bits(board, s, j, i);
                if bit_at(board, j) {
                    lemma_within_board_bit(board, j);
                }
                assert(j == (x - dir_dx(k)) + 8 * (y - dir_dy(k)));
            } else {
                lemma_shift_bits(board, s, 0, i);
            }
        }
    }
}

/// The stones of the intersection of two boards are the stones of both.
pub proof fn lemma_and_cells(a: u64, b: u64)
    ensures
        forall|x: int, y: int|
            #[trigger] has_stone(a & b, x, y) <==> has_stone(a, x, y) && has_stone(b, x, y),
{
    lemma_bit_ops(a, b);
}

/// A clipped shift against direction `k` moves every stone one step back
/// along it and drops those that would leave the board.
pub proof fn lemma_clip_shift_inverse_cells(board: u64, k: int)
    requires
        within_board(board),
        0 <= k < 4,
    ensures
        within_board(clip_shift_inverse_spec(board, dir_shift(k))),
        forall|x: int, y: int|
            has_stone(clip_shift_inverse_spec(board, dir_shift(k)), x, y) <==> on_board(x, y)
                && has_stone(board, x + dir_dx(k), y + dir_dy(k)),
{
    let s = dir_shift(k);
    lemma_shift_bits(board, s, 0, 0);
    lemma_constant_masks();
    lemma_bit_ops(board >> s, FULL_BOARD_MASK);
    assert forall|x: int, y: int|
        has_stone(clip_shift_inverse_spec(board, s), x, y) <==> on_board(x, y) && has_stone(
            board,
            x + dir_dx(k),
            y + dir_dy(k),
        ) by {
        if on_board(x, y) {
            let i = (x + 8 * y) as u64;
            let j = (i + s) as u64;
            lemma_shift_bits(board, s, 0, i);
            assert(i % 8 == x && i / 8 == y);
            assert(j == (x + dir_dx(k)) + 8 * (y + dir_dy(k)));
            if bit_at(board, j) {
                lemma_within_board_bit(board, j);
                lemma_cell_of_index(j, x + dir_dx(k), y + dir_dy(k));
            }
        }
    }
}

// ---------------------------------------------------------------------------
// Moves
// ---------------------------------------------------------------------------

/// The board has no guard bit set, and every stone above the bottom row lies
/// on another stone.
pub open spec fn is_stacked(board: u64) -> bool {
    within_board(board) && board & !((board << 8) | BOTTOM_FILL_MASK) == 0
}

/// The first row from `y` upwards in which column `x` has no stone, or 6.
pub open spec fn first_free_row(board: u64, x: int, y: int) -> int
    decreases 6 - y,
{
    if y >= 6 {
        6
    } else if !has_stone(board, x, y) {
        y
    } else {
        first_free_row(board, x, y + 1)
    }
}

/// The number of stones in column `x` of a stacked board: the row in which
/// the next stone lands, or 6 where the column is full.
pub open spec fn column_height(board: u64, x: int) -> int {
    first_free_row(board, x, 0)
}

/// For every column at once the cell in which the next stone would land.
pub open spec fn all_moves_spec(board: u64) -> u64 {
    (clip_shift_spec(board, 8) | BOTTOM_FILL_MASK) ^ board
}

/// What [`get_possible_move`] computes.
pub open spec fn possible_move_spec(board: u64, column: int) -> u64 {
    all_moves_spec(board) & column_mask(column)
}

/// The mask of the cell in which a stone dropped into `column` lands, or 0
/// where the column is full.
pub open spec fn landing_mask(board: u64, column: int) -> u64 {
    if column_height(board, column) < 6 {
        cell_mask(column, column_height(board, column))
    } else {
        0
    }
}

/// In a stacked board no stone hangs in the air.
pub proof fn lemma_stacked_cells(board: u64)
    requires
        is_stacked(board),
    ensures
        forall|x: int, y: int|
            #[trigger] has_stone(board, x, y) && y > 0 ==> has_stone(board, x, y - 1),
{
    assert forall|x: int, y: int| #[trigger] has_stone(board, x, y) && y > 0 implies has_stone(
        board,
        x,
        y - 1,
    ) by {
        lemma_stacked_bits(board, x as u64, (y - 1) as u64, 0);
    }
}

/// A stacked board by bits: a stone above the bottom row has one below it,
/// and the move into column `c` has its bit where a free cell lies on the
/// bottom or on a stone, in that column and nowhere else.
proof fn lemma_stacked_bits(board: u64, c: u64, below: u64, i: u64)
    by (bit_vector)
    requires
        is_stacked(board),
        c < 7,
    ensures
        below < 5 && bit_at(board, (c + 8 * (below + 1)) as u64) ==> bit_at(
            board,
            (c + 8 * below) as u64,
        ),
        bit_at(possible_move_spec(board, c as int), c) <==> !bit_at(board, c),
        below < 5 ==> (bit_at(possible_move_spec(board, c as int), (c + 8 * (below + 1)) as u64)
            <==> !bit_at(board, (c + 8 * (below + 1)) as u64) && bit_at(
            board,
            (c + 8 * below) as u64,
        )),
        i < 64 && !(i % 8 == c && i / 8 < 6) ==> !bit_at(possible_move_spec(board, c as int), i),
{
}

/// In a stacked board the stones of a column fill exactly the rows below the
/// column's height.
pub proof fn lemma_column_profile(board: u64, x: int)
    requires
        is_stacked(board),
        0 <= x < 7,
    ensures
        0 <= column_height(board, x) <= 6,
        forall|y: int| has_stone(board, x, y) <==> 0 <= y < column_height(board, x),
{
    lemma_stacked_cells(board);
    lemma_first_free_row(board, x, 0);
    let h = column_height(board, x);
    assert forall|y: int| h <= y < 6 implies !has_stone(board, x, y) by {
        lemma_no_stone_above(board, x, h, y);
    }
}

/// What [`first_free_row`] finds.
proof fn lemma_first_free_row(board: u64, x: int, y: int)
    requires
        0 <= y <= 6,
    ensures
        y <= first_free_row(board, x, y) <= 6,
        forall|r: int| y <= r < first_free_row(board, x, y) ==> has_stone(board, x, r),
        first_free_row(board, x, y) < 6 ==> !has_stone(board, x, first_free_row(board, x, y)),
    decreases 6 - y,
{
    if y < 6 && has_stone(board, x, y) {
        lemma_first_free_row(board, x, y + 1);
    }
}

/// Above an empty cell of a stacked board its column is empty.
proof fn lemma_no_stone_above(board: u64, x: int, h: int, y: int)
    requires
        forall|a: int, b: int|
            #[trigger] has_stone(board, a, b) && b > 0 ==> has_stone(board, a, b - 1),
        0 <= h <= y,
        h < 6 ==> !has_stone(board, x, h),
    ensures
        !has_stone(board, x, y),
    decreases y - h,
{
    if y > h && y < 6 {
        lemma_no_stone_above(board, x, h, y - 1);
    }
}

/// On a stacked board the move into a column is the single cell on top of
/// the column's stones, and nothing where the column is full.
pub proof fn lemma_move_is_landing_cell(board: u64, column: int)
    requires
        is_stacked(board),
        0 <= column < 7,
    ensures
        possible_move_spec(board, column) == landing_mask(board, column),
        possible_move_spec(board, column) != 0 <==> column_height(board, column) < 6,
{
    lemma_column_profile(board, column);
    let h = column_height(board, column);
    let c = column as u64;
    let m = possible_move_spec(board, column);
    let target = landing_mask(board, column);
    if h < 6 {
        lemma_single_bit((column + 8 * h) as u64);
    }
    lemma_bit_ops(0, 0);
    assert forall|i: u64| i < 64 implies bit_at(m, i) == bit_at(target, i) by {
        if i % 8 == c && i / 8 < 6 {
            let y = i / 8;
            assert(i == c + 8 * y);
            if y == 0 {
                lemma_stacked_bits(board, c, 0, i);
            } else {
                let below = (y - 1) as u64;
                lemma_stacked_bits(board, c, below, i);
                assert(has_stone(board, column, below as int) <==> bit_at(
                    board,
                    (c + 8 * below) as u64,
                ));
            }
            assert(has_stone(board, column, y as int) <==> bit_at(board, i));
        } else {
            lemma_stacked_bits(board, c, 0, i);
        }
    }
    lemma_bits_equal(m, target);
    if h < 6 {
        lemma_bit_nonzero(target, (column + 8 * h) as u64);
    }
}

/// The moves offered on a stacked board are free cells, and a board with any
/// of them added is stacked again. The board offers no move exactly when it
/// is full, and otherwise some column offers one.
pub proof fn lemma_moves_keep_stacked(board: u64, chosen: u64)
    by (bit_vector)
    requires
        is_stacked(board),
    ensures
        all_moves_spec(board) & board == 0,
        within_board(all_moves_spec(board)),
        is_stacked(board | (all_moves_spec(board) & chosen)),
        all_moves_spec(board) == 0 <==> board == FULL_BOARD_MASK,
        board != FULL_BOARD_MASK ==> possible_move_spec(board, 0) != 0 || possible_move_spec(
            board,
            1,
        ) != 0 || possible_move_spec(board, 2) != 0 || possible_move_spec(board, 3) != 0
            || possible_move_spec(board, 4) != 0 || possible_move_spec(board, 5) != 0
            || possible_move_spec(board, 6) != 0,
{
}

/// Gets a representation, where the bit for the specific column is set where
/// a move would wind up. If it is not possible to make a move in that
/// column, 0 is returned.
pub fn get_possible_move(board: u64, column: u32) -> (coded_move: u64)
    requires
        column < BOARD_WIDTH,
    ensures
        coded_move == possible_move_spec(board, column as int),
        is_stacked(board) ==> coded_move == landing_mask(board, column as int),
{
    proof {
        if is_stacked(board) {
            lemma_move_is_landing_cell(board, column as int);
        }
    }
    // Safely upshifted board extended with a bottom row.
    ((clip_shift(board, DIR_INCREMENT[1]) | BOTTOM_FILL_MASK)
    // The board as it is.
     ^ board)
    // Filter out the desired column.
     & get_column_mask(column)
}

/// The moves of the columns below `n`, as pairs of mask and column, without
/// the columns that offer none.
pub open spec fn moves_below(board: u64, n: int) -> Seq<(u64, u32)>
    decreases n,
{
    if n <= 0 {
        Seq::empty()
    } else if possible_move_spec(board, n - 1) != 0 {
        moves_below(board, n - 1).push((possible_move_spec(board, n - 1), (n - 1) as u32))
    } else {
        moves_below(board, n - 1)
    }
}

/// All possible moves of a board in ascending order of their columns.
pub open spec fn legal_moves(board: u64) -> Seq<(u64, u32)> {
    moves_below(board, 7)
}

/// Gets all possible moves for the search. Each entry holds the move and
/// the column it belongs to.
#[inline(always)]
pub fn get_all_possible_moves(board: u64) -> (moves: Vec<(u64, u32)>)
    ensures
        moves@ == legal_moves(board),
{
    let comb = (clip_shift(board, DIR_INCREMENT[1]) | BOTTOM_FILL_MASK) ^ board;
    let mut moves: Vec<(u64, u32)> = Vec::new();
    let mut x: u32 = 0;
    while x < BOARD_WIDTH
        invariant
            x <= 7,
            comb == all_moves_spec(board),
            moves@ == moves_below(board, x as int),
        decreases 7 - x,
    {
        let coded_move = comb & get_column_mask(x);
        if coded_move != 0 {
            moves.push((coded_move, x));
        }
        x += 1;
    }
    moves
}

/// The list of legal moves holds one entry for each column that offers a
/// move and none for the others, in ascending order of the columns, and each
/// entry holds the move of its column.
pub proof fn lemma_legal_moves(board: u64)
    ensures
        legal_moves(board).len() <= 7,
        forall|i: int|
            0 <= i < legal_moves(board).len() ==> {
                let entry = #[trigger] legal_moves(board)[i];
                &&& entry.1 < 7
                &&& entry.0 != 0
                &&& entry.0 == possible_move_spec(board, entry.1 as int)
            },
        forall|i: int, j: int|
            0 <= i < j < legal_moves(board).len() ==> (#[trigger] legal_moves(board)[i]).1 < (
            #[trigger] legal_moves(board)[j]).1,
        forall|column: int|
            0 <= column < 7 && possible_move_spec(board, column) != 0 ==> legal_moves(
                board,
            ).contains((#[trigger] possible_move_spec(board, column), column as u32)),
{
    lemma_moves_below(board, 7);
}

/// The masks of a list of moves, all in one.
pub open spec fn moves_union(moves: Seq<(u64, u32)>) -> u64
    decreases moves.len(),
{
    if moves.len() == 0 {
        0
    } else {
        moves_union(moves.drop_last()) | moves.last().0
    }
}

/// What the columns below `n` offer, all in one.
pub open spec fn offers_below(board: u64, n: int) -> u64
    decreases n,
{
    if n <= 0 {
        0
    } else {
        offers_below(board, n - 1) | possible_move_spec(board, n - 1)
    }
}

/// The masks of the list of legal moves, taken together, are what the seven
/// columns offer one by one, taken together.
pub proof fn lemma_legal_moves_union(board: u64)
    ensures
        moves_union(legal_moves(board)) == offers_below(board, 7),
{
    lemma_moves_union_below(board, 7);
}

proof fn lemma_moves_union_below(board: u64, n: int)
    requires
        0 <= n <= 7,
    ensures
        moves_union(moves_below(board, n)) == offers_below(board, n),
    decreases n,
{
    if n > 0 {
        lemma_moves_union_below(board, n - 1);
        let shorter = moves_below(board, n - 1);
        let offer = possible_move_spec(board, n - 1);
        if offer != 0 {
            assert(shorter.push((offer, (n - 1) as u32)).drop_last() =~= shorter);
        } else {
            lemma_bit_ops(offers_below(board, n - 1), 0);
        }
    }
}

/// On a stacked board the list of legal moves has an entry for a column
/// exactly if the column is not full, and the entry's mask is the cell on
/// top of the column's stones.
pub proof fn lemma_legal_moves_stacked(board: u64)
    requires
        is_stacked(board),
    ensures
        forall|i: int|
            0 <= i < legal_moves(board).len() ==> {
                let entry = #[trigger] legal_moves(board)[i];
                &&& column_height(board, entry.1 as int) < 6
                &&& entry.0 == cell_mask(entry.1 as int, column_height(board, entry.1 as int))
            },
        forall|column: int|
            0 <= column < 7 && #[trigger] column_height(board, column) < 6 ==> legal_moves(
                board,
            ).contains((cell_mask(column, column_height(board, column)), column as u32)),
{
    lemma_legal_moves(board);
    assert forall|i: int| 0 <= i < legal_moves(board).len() implies {
        let entry = #[trigger] legal_moves(board)[i];
        &&& column_height(board, entry.1 as int) < 6
        &&& entry.0 == cell_mask(entry.1 as int, column_height(board, entry.1 as int))
    } by {
        lemma_move_is_landing_cell(board, legal_moves(board)[i].1 as int);
    }
    assert forall|column: int|
        0 <= column < 7 && #[trigger] column_height(board, column) < 6 implies legal_moves(
        board,
    ).contains((cell_mask(column, column_height(board, column)), column as u32)) by {
        lemma_move_is_landing_cell(board, column);
        assert(legal_moves(board).contains((possible_move_spec(board, column), column as u32)));
    }
}

/// The statement of [`lemma_legal_moves`] for the columns below `n`.
proof fn lemma_moves_below(board: u64, n: int)
    requires
        0 <= n <= 7,
    ensures
        moves_below(board, n).len() <= n,
        forall|i: int|
            0 <= i < moves_below(board, n).len() ==> {
                let entry = #[trigger] moves_below(board, n)[i];
                &&& entry.1 < n
                &&& entry.0 != 0
                &&& entry.0 == possible_move_spec(board, entry.1 as int)
            },
        forall|i: int, j: int|
            0 <= i < j < moves_below(board, n).len() ==> (#[trigger] moves_below(board, n)[i]).1
                < (#[trigger] moves_below(board, n)[j]).1,
        forall|column: int|
            0 <= column < n && possible_move_spec(board, column) != 0 ==> moves_below(
                board,
                n,
            ).contains((#[trigger] possible_move_spec(board, column), column as u32)),
    decreases n,
{
    if n > 0 {
        lemma_moves_below(board, n - 1);
        let shorter = moves_below(board, n - 1);
        let all = moves_below(board, n);
        assert forall|column: int|
            0 <= column < n && possible_move_spec(board, column) != 0 implies all.contains(
            (#[trigger] possible_move_spec(board, column), column as u32),
        ) by {
            let entry = (possible_move_spec(board, column), column as u32);
            if column < n - 1 {
                let i = choose|i: int| 0 <= i < shorter.len() && shorter[i] == entry;
                assert(all[i] == entry);
            } else {
                assert(all[all.len() - 1] == entry);
            }
        }
    }
}

// ---------------------------------------------------------------------------
// Lines of four
// ---------------------------------------------------------------------------

/// The cells in which a line of four stones of `board` along the shift `s`
/// ends: each such line collapses into the one bit furthest along the shift.
pub open spec fn line_ends(board: u64, s: u64) -> u64 {
    let d = clip_shift_spec(board, s) & board;
    clip_shift_spec(clip_shift_spec(d, s), s) & d
}

/// What [`check_for_winning`] computes: along one of the four directions
/// some line of four collapses into a set bit.
pub open spec fn winning_spec(board: u64) -> bool {
    line_ends(board, 7) != 0 || line_ends(board, 8) != 0 || line_ends(board, 9) != 0 || line_ends(
        board,
        1,
    ) != 0
}

/// Four stones of `board` lie in a line that starts in cell `(x, y)` and
/// runs in direction `k`.
pub open spec fn line_of_four(board: u64, x: int, y: int, k: int) -> bool {
    &&& has_stone(board, x, y)
    &&& has_stone(board, x + dir_dx(k), y + dir_dy(k))
    &&& has_stone(board, x + 2 * dir_dx(k), y + 2 * dir_dy(k))
    &&& has_stone(board, x + 3 * dir_dx(k), y + 3 * dir_dy(k))
}

/// A line of four stones of `board` starts in cell `(x, y)`: to the right,
/// upwards, or along one of the two diagonals.
pub open spec fn starts_line(board: u64, x: int, y: int) -> bool {
    line_of_four(board, x, y, 0) || line_of_four(board, x, y, 1) || line_of_four(board, x, y, 2)
        || line_of_four(board, x, y, 3)
}

/// The board holds four stones in a row, a column or a diagonal.
pub open spec fn has_four(board: u64) -> bool {
    exists|x: int, y: int| #[trigger] starts_line(board, x, y)
}

/// Cell `(x, y)` is one of the four cells of a line of four stones of
/// `board` in direction `k`.
pub open spec fn in_line(board: u64, x: int, y: int, k: int) -> bool {
    ||| line_of_four(board, x, y, k)
    ||| line_of_four(board, x - dir_dx(k), y - dir_dy(k), k)
    ||| line_of_four(board, x - 2 * dir_dx(k), y - 2 * dir_dy(k), k)
    ||| line_of_four(board, x - 3 * dir_dx(k), y - 3 * dir_dy(k), k)
}

/// Cell `(x, y)` belongs to some line of four stones of `board`.
pub open spec fn on_winning_line(board: u64, x: int, y: int) -> bool {
    in_line(board, x, y, 0) || in_line(board, x, y, 1) || in_line(board, x, y, 2) || in_line(
        board,
        x,
        y,
        3,
    )
}

/// A line's end and the three cells before it.
pub open spec fn spread_back(ends: u64, s: u64) -> u64 {
    ends | (ends >> s) | (ends >> ((2 * s) as u64)) | (ends >> ((3 * s) as u64))
}

/// What [`get_winning_board`] computes.
pub open spec fn winning_board_spec(board: u64) -> u64 {
    spread_back(line_ends(board, 7), 7) | spread_back(line_ends(board, 8), 8) | spread_back(
        line_ends(board, 9),
        9,
    ) | spread_back(line_ends(board, 1), 1)
}

/// The ends of lines by bits: a bit is set where it and the three bits in
/// steps of `s` below it are stones, and none so low that three steps below
/// it there is no bit.
proof fn lemma_line_ends_bits(b: u64, s: u64, i0: u64, low: u64)
    by (bit_vector)
    requires
        s == 1 || s == 7 || s == 8 || s == 9,
    ensures
        within_board(b) && i0 + 3 * s < 64 ==> (bit_at(line_ends(b, s), (i0 + 3 * s) as u64) <==> (
        bit_at(b, i0) && bit_at(b, (i0 + s) as u64) && bit_at(b, (i0 + 2 * s) as u64) && bit_at(
            b,
            (i0 + 3 * s) as u64,
        ))),
        low < 3 * s ==> !bit_at(line_ends(b, s), low),
        within_board(line_ends(b, s)),
{
}

/// A bit index whose column is not the guard column belongs to the cell
/// whose coordinates add up to it.
proof fn lemma_cell_of_index(i: u64, x: int, y: int)
    requires
        i == x + 8 * y,
        -1 <= x <= 7,
        i % 8 < 7,
        i / 8 < 6,
    ensures
        on_board(x, y),
{
}

/// A line of four collapses into the bit of its last cell.
pub proof fn lemma_line_ends_cells(board: u64, k: int, x: int, y: int)
    requires
        within_board(board),
        0 <= k < 4,
    ensures
        has_stone(line_ends(board, dir_shift(k)), x, y) <==> line_of_four(
            board,
            x - 3 * dir_dx(k),
            y - 3 * dir_dy(k),
            k,
        ),
{
    let s = dir_shift(k);
    let dx = dir_dx(k);
    let dy = dir_dy(k);
    let ends = line_ends(board, s);
    if on_board(x, y) {
        let i = (x + 8 * y) as u64;
        if i >= 3 * s {
            let i0 = (i - 3 * s) as u64;
            let i1 = (i0 + s) as u64;
            let i2 = (i0 + 2 * s) as u64;
            lemma_line_ends_bits(board, s, i0, 0);
            assert(i0 == (x - 3 * dx) + 8 * (y - 3 * dy));
            assert(i1 == (x - 2 * dx) + 8 * (y - 2 * dy));
            assert(i2 == (x - dx) + 8 * (y - dy));
            if bit_at(board, i0) && bit_at(board, i1) && bit_at(board, i2) && bit_at(board, i) {
                lemma_within_board_bit(board, i2);
                lemma_cell_of_index(i2, x - dx, y - dy);
                lemma_within_board_bit(board, i1);
                lemma_cell_of_index(i1, x - 2 * dx, y - 2 * dy);
                lemma_within_board_bit(board, i0);
                lemma_cell_of_index(i0, x - 3 * dx, y - 3 * dy);
            }
            assert(x - 3 * dx + dx == x - 2 * dx);
            assert(x - 3 * dx + 2 * dx == x - dx);
            assert(y - 3 * dy + dy == y - 2 * dy);
            assert(y - 3 * dy + 2 * dy == y - dy);
        } else {
            lemma_line_ends_bits(board, s, 0, i);
        }
    }
}

/// Win detection is correct: on a board without guard bits the bit trick
/// finds a line exactly where four stones lie in a row, a column or a
/// diagonal.
pub proof fn lemma_win_detection(board: u64)
    requires
        within_board(board),
    ensures
        winning_spec(board) <==> has_four(board),
{
    if winning_spec(board) {
        let k: int = if line_ends(board, 7) != 0 {
            0
        } else if line_ends(board, 8) != 0 {
            1
        } else if line_ends(board, 9) != 0 {
            2
        } else {
            3
        };
        let ends = line_ends(board, dir_shift(k));
        let i = lemma_nonzero_bit(ends);
        lemma_line_ends_bits(board, dir_shift(k), 0, 0);
        lemma_stone_bit(ends, i);
        let x = (i % 8) as int;
        let y = (i / 8) as int;
        lemma_line_ends_cells(board, k, x, y);
        assert(starts_line(board, x - 3 * dir_dx(k), y - 3 * dir_dy(k)));
    }
    if has_four(board) {
        let (x, y) = choose|x: int, y: int| #[trigger] starts_line(board, x, y);
        let k: int = if line_of_four(board, x, y, 0) {
            0
        } else if line_of_four(board, x, y, 1) {
            1
        } else if line_of_four(board, x, y, 2) {
            2
        } else {
            3
        };
        let ex = x + 3 * dir_dx(k);
        let ey = y + 3 * dir_dy(k);
        lemma_line_ends_cells(board, k, ex, ey);
        assert(ex - 3 * dir_dx(k) == x && ey - 3 * dir_dy(k) == y);
        lemma_bit_nonzero(line_ends(board, dir_shift(k)), (ex + 8 * ey) as u64);
    }
}

/// Checks if the board contains a winning constellation: four stones in a
/// row, a column or a diagonal.
///
/// Here the bit board representation really shines. The idea is:
/// ```text
/// board:    001111000
/// d:        000111000
/// dd:       000001110
/// dd & d:   000001000
/// ```
#[inline(always)]
pub fn check_for_winning(board: u64) -> (won: bool)
    ensures
        won == winning_spec(board),
        within_board(board) ==> won == has_four(board),
{
    proof {
        if within_board(board) {
            lemma_win_detection(board);
        }
    }
    let mut k: usize = 0;
    while k < 4
        invariant
            k <= 4,
            within_board(board) ==> (winning_spec(board) <==> has_four(board)),
            forall|j: int| 0 <= j < k ==> line_ends(board, #[trigger] dir_shift(j)) == 0,
        decreases 4 - k,
    {
        let bit_shift = DIR_INCREMENT[k];
        assert(bit_shift as u64 == dir_shift(k as int));
        let d = clip_shift(board, bit_shift) & board;
        let dd = clip_shift(clip_shift(d, bit_shift), bit_shift);
        if (dd & d) != 0 {
            return true;
        }
        k += 1;
    }
    assert(line_ends(board, dir_shift(0)) == 0 && line_ends(board, dir_shift(1)) == 0 && line_ends(
        board,
        dir_shift(2),
    ) == 0 && line_ends(board, dir_shift(3)) == 0);
    false
}

/// After `n` back-shifts by `s`: what is left of a line's end.
spec fn shifted_back(ends: u64, s: u64, n: int) -> u64 {
    if n <= 0 {
        ends
    } else if n == 1 {
        ends >> s
    } else if n == 2 {
        ends >> ((2 * s) as u64)
    } else {
        ends >> ((3 * s) as u64)
    }
}

/// After `n` back-shifts by `s`: the cells gathered so far.
spec fn spread_back_partly(ends: u64, s: u64, n: int) -> u64 {
    if n <= 0 {
        ends
    } else if n == 1 {
        ends | (ends >> s)
    } else if n == 2 {
        ends | (ends >> s) | (ends >> ((2 * s) as u64))
    } else {
        spread_back(ends, s)
    }
}

/// The lines of the directions below `k`, each with its four cells.
spec fn winning_board_below(board: u64, k: int) -> u64 {
    if k <= 0 {
        0
    } else if k == 1 {
        spread_back(line_ends(board, 7), 7)
    } else if k == 2 {
        spread_back(line_ends(board, 7), 7) | spread_back(line_ends(board, 8), 8)
    } else if k == 3 {
        spread_back(line_ends(board, 7), 7) | spread_back(line_ends(board, 8), 8) | spread_back(
            line_ends(board, 9),
            9,
        )
    } else {
        winning_board_spec(board)
    }
}

/// Generates a board representation, where bits are set that belong to a
/// winning combination. Makes use of the fact, that [`check_for_winning`]
/// effectively collapsed a winning combination into one bit that is the
/// furthest out in shift direction. So we invert the shift three times and
/// or it together.
pub fn get_winning_board(board: u64) -> (winners: u64)
    ensures
        winners == winning_board_spec(board),
        within_board(board) ==> forall|x: int, y: int|
            has_stone(winners, x, y) <==> on_winning_line(board, x, y),
{
    let mut result: u64 = 0;
    let mut k: usize = 0;
    while k < 4
        invariant
            k <= 4,
            result == winning_board_below(board, k as int),
        decreases 4 - k,
    {
        let bit_shift = DIR_INCREMENT[k];
        assert(bit_shift as u64 == dir_shift(k as int));
        let d = clip_shift(board, bit_shift) & board;
        let dd = clip_shift(clip_shift(d, bit_shift), bit_shift);
        let mut flag = dd & d;
        let ghost ends = flag;
        let ghost before = result;
        let ghost s = bit_shift as u64;

        // Now the last bit of every winning constellation is set.
        result |= flag;
        // We can safely shift back, because we came from there.
        let mut n: u32 = 0;
        while n < 3
            invariant
                n <= 3,
                s == bit_shift,
                s == 1 || s == 7 || s == 8 || s == 9,
                flag == shifted_back(ends, s, n as int),
                result == before | spread_back_partly(ends, s, n as int),
            decreases 3 - n,
        {
            flag >>= bit_shift;
            result |= flag;
            assert(flag == shifted_back(ends, s, n + 1) && result == before | spread_back_partly(
                ends,
                s,
                n + 1,
            )) by (bit_vector)
                requires
                    n < 3,
                    s == 1 || s == 7 || s == 8 || s == 9,
                    flag == shifted_back(ends, s, n as int) >> s,
                    result == (before | spread_back_partly(ends, s, n as int)) | flag,
            ;
            n += 1;
        }
        assert(result == winning_board_below(board, k + 1)) by {
            lemma_bit_ops(spread_back(ends, s), 0);
        }
        k += 1;
    }
    proof {
        if within_board(board) {
            lemma_winning_board_cells(board);
        }
    }
    result
}

/// The bits of a line's end and of the three cells before it. What is
/// spread back from the ends of the lines of a board stays on the board, and
/// is something exactly if there is a line.
proof fn lemma_spread_back_bit(board: u64, ends: u64, s: u64, i: u64)
    by (bit_vector)
    requires
        s == 1 || s == 7 || s == 8 || s == 9,
        i < 48,
        within_board(ends),
    ensures
        bit_at(spread_back(ends, s), i) <==> (bit_at(ends, i) || bit_at(ends, (i + s) as u64)
            || bit_at(ends, (i + 2 * s) as u64) || bit_at(ends, (i + 3 * s) as u64)),
        within_board(board) ==> within_board(winning_board_spec(board)) && (winning_board_spec(
            board,
        ) != 0 <==> winning_spec(board)),
{
}

/// Where a line in direction `k` ends `(sx, sy)` further along than cell
/// `(x, y)`, one, two or three steps away by the bit index, the end is the
/// cell `(x + sx, y + sy)`: the line does not wrap round an edge.
proof fn lemma_end_after(board: u64, k: int, x: int, y: int, sx: int, sy: int, end: u64)
    requires
        within_board(board),
        0 <= k < 4,
        on_board(x, y),
        (sx == dir_dx(k) && sy == dir_dy(k)) || (sx == 2 * dir_dx(k) && sy == 2 * dir_dy(k)) || (sx
            == 3 * dir_dx(k) && sy == 3 * dir_dy(k)),
        end == (x + sx) + 8 * (y + sy),
        bit_at(line_ends(board, dir_shift(k)), end),
    ensures
        has_stone(line_ends(board, dir_shift(k)), x + sx, y + sy),
{
    let ends = line_ends(board, dir_shift(k));
    let dx = dir_dx(k);
    let dy = dir_dy(k);
    lemma_bit_ops(ends, ends);
    lemma_line_ends_bits(board, dir_shift(k), 0, 0);
    lemma_stone_bit(ends, end);
    let a = (end % 8) as int;
    let b = (end / 8) as int;
    lemma_line_ends_cells(board, k, a, b);
    assert(line_of_four(board, a - 3 * dx, b - 3 * dy, k));
    assert(a - 3 * dx + dx == a - 2 * dx && b - 3 * dy + dy == b - 2 * dy);
    assert(a - 3 * dx + 2 * dx == a - dx && b - 3 * dy + 2 * dy == b - dy);
    assert(on_board(a - sx, b - sy));
    assert((a - sx) + 8 * (b - sy) == x + 8 * y);
    assert(b - sy == y);
}

/// The cells that lie on a line of four in direction `k`.
proof fn lemma_spread_back_cells(board: u64, k: int, x: int, y: int)
    requires
        within_board(board),
        0 <= k < 4,
        on_board(x, y),
    ensures
        has_stone(spread_back(line_ends(board, dir_shift(k)), dir_shift(k)), x, y) <==> in_line(
            board,
            x,
            y,
            k,
        ),
{
    let s = dir_shift(k);
    let dx = dir_dx(k);
    let dy = dir_dy(k);
    let ends = line_ends(board, s);
    let i = (x + 8 * y) as u64;
    lemma_line_ends_bits(board, s, 0, 0);
    lemma_spread_back_bit(board, ends, s, i);
    let i1 = (i + s) as u64;
    let i2 = (i + 2 * s) as u64;
    let i3 = (i + 3 * s) as u64;
    assert(i1 == (x + dx) + 8 * (y + dy));
    assert(i2 == (x + 2 * dx) + 8 * (y + 2 * dy));
    assert(i3 == (x + 3 * dx) + 8 * (y + 3 * dy));
    // Each of the four bits is the end of a line through the cell.
    lemma_line_ends_cells(board, k, x, y);
    lemma_line_ends_cells(board, k, x + dx, y + dy);
    lemma_line_ends_cells(board, k, x + 2 * dx, y + 2 * dy);
    lemma_line_ends_cells(board, k, x + 3 * dx, y + 3 * dy);
    assert(x + dx - 3 * dx == x - 2 * dx && y + dy - 3 * dy == y - 2 * dy);
    assert(x + 2 * dx - 3 * dx == x - dx && y + 2 * dy - 3 * dy == y - dy);
    assert(x + 3 * dx - 3 * dx == x && y + 3 * dy - 3 * dy == y);
    if bit_at(ends, i1) {
        lemma_end_after(board, k, x, y, dx, dy, i1);
    }
    if bit_at(ends, i2) {
        lemma_end_after(board, k, x, y, 2 * dx, 2 * dy, i2);
    }
    if bit_at(ends, i3) {
        lemma_end_after(board, k, x, y, 3 * dx, 3 * dy, i3);
    }
}

/// The winning board holds exactly the cells that lie on a line of four.
pub proof fn lemma_winning_board_cells(board: u64)
    requires
        within_board(board),
    ensures
        within_board(winning_board_spec(board)),
        winning_board_spec(board) != 0 <==> winning_spec(board),
        forall|x: int, y: int|
            has_stone(winning_board_spec(board), x, y) <==> on_winning_line(board, x, y),
{
    let e0 = line_ends(board, 7);
    let e1 = line_ends(board, 8);
    let e2 = line_ends(board, 9);
    let e3 = line_ends(board, 1);
    lemma_line_ends_bits(board, 7, 0, 0);
    lemma_spread_back_bit(board, e0, 7, 0);
    assert forall|x: int, y: int|
        has_stone(winning_board_spec(board), x, y) <==> on_winning_line(board, x, y) by {
        if on_board(x, y) {
            let i = (x + 8 * y) as u64;
            let w0 = spread_back(e0, 7);
            let w1 = spread_back(e1, 8);
            let w2 = spread_back(e2, 9);
            let w3 = spread_back(e3, 1);
            lemma_bit_ops(w0, w1);
            lemma_bit_ops(w0 | w1, w2);
            lemma_bit_ops(w0 | w1 | w2, w3);
            lemma_spread_back_cells(board, 0, x, y);
            lemma_spread_back_cells(board, 1, x, y);
            lemma_spread_back_cells(board, 2, x, y);
            lemma_spread_back_cells(board, 3, x, y);
        } else {
            assert(!in_line(board, x, y, 0));
            assert(!in_line(board, x, y, 1));
            assert(!in_line(board, x, y, 2));
            assert(!in_line(board, x, y, 3));
        }
    }
}

} // verus!
