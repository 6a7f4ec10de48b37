//! Bits of a `u64`, one by one.
//!
//! The verifier knows the bitwise operators only as operators on whole
//! values. The lemmas of this module say what they do to each bit, so that
//! what holds of every bit can be carried over to the values and back.

use vstd::prelude::*;

verus! {

/// Bit `i` of `board` is set.
pub open spec fn bit_at(board: u64, i: u64) -> bool {
    (board >> i) & 1 == 1
}

/// How the bits of two values make up the bits of what the bitwise
/// operators give.
pub proof fn lemma_bit_ops(a: u64, b: u64)
    by (bit_vector)
    ensures
        forall|j: u64| #[trigger] bit_at(a | b, j) == (bit_at(a, j) || bit_at(b, j)),
        forall|j: u64| #[trigger] bit_at(a & b, j) == (bit_at(a, j) && bit_at(b, j)),
        forall|j: u64| #[trigger] bit_at(a ^ b, j) == (bit_at(a, j) != bit_at(b, j)),
        forall|j: u64| j < 64 ==> #[trigger] bit_at(!a, j) == !bit_at(a, j),
        forall|j: u64| !#[trigger] bit_at(0u64, j),
        forall|j: u64| j >= 64 ==> !#[trigger] bit_at(a, j),
        a | b == b | a,
        a ^ b == 0 ==> a == b,
        0u64 | a == a,
{
}

/// Of a mask with one bit, that bit is set and no other.
pub proof fn lemma_single_bit(i: u64)
    by (bit_vector)
    requires
        i < 64,
    ensures
        forall|j: u64| j < 64 ==> (#[trigger] bit_at(1u64 << i, j) <==> j == i),
{
}

/// A set bit makes a value nonzero.
pub proof fn lemma_bit_nonzero(v: u64, i: u64)
    requires
        bit_at(v, i),
    ensures
        v != 0,
{
    lemma_bit_ops(v, v);
}

/// Some bit of `v` from `k` on is set, provided anything is left from `k` on.
proof fn lemma_find_bit(v: u64, k: u64) -> (i: u64)
    requires
        k < 64,
        v >> k != 0 || (k == 0 && v != 0),
    ensures
        k <= i < 64,
        bit_at(v, i),
    decreases 64 - k,
{
    assert((k == 0 ==> v >> k == v) && (v >> k != 0 && !bit_at(v, k) ==> k < 63 && v >> ((k
        + 1) as u64) != 0)) by (bit_vector)
        requires
            k < 64,
    ;
    if bit_at(v, k) {
        k
    } else {
        lemma_find_bit(v, (k + 1) as u64)
    }
}

/// A nonzero value has a set bit.
pub proof fn lemma_nonzero_bit(v: u64) -> (i: u64)
    requires
        v != 0,
    ensures
        i < 64,
        bit_at(v, i),
{
    lemma_find_bit(v, 0)
}

/// Two values with the same bits are equal.
pub proof fn lemma_bits_equal(a: u64, b: u64)
    requires
        forall|i: u64| i < 64 ==> bit_at(a, i) == bit_at(b, i),
    ensures
        a == b,
{
    lemma_bit_ops(a, b);
    if a != b {
        let i = lemma_nonzero_bit(a ^ b);
        assert(bit_at(a, i) != bit_at(b, i));
    }
}

/// A mask tests a bit: the bit is set exactly if something is left of the
/// value under the mask of that bit.
pub proof fn lemma_test_bit(board: u64, i: u64)
    requires
        i < 64,
    ensures
        (board & (1u64 << i) != 0) <==> bit_at(board, i),
{
    let under = board & (1u64 << i);
    lemma_bit_ops(board, 1u64 << i);
    lemma_single_bit(i);
    if under != 0 {
        let j = lemma_nonzero_bit(under);
        assert(bit_at(1u64 << i, j));
    }
    if bit_at(board, i) {
        assert(bit_at(1u64 << i, i));
        assert(bit_at(under, i));
        lemma_bit_nonzero(under, i);
    }
}

// ---------------------------------------------------------------------------
// Counting
// ---------------------------------------------------------------------------

/// The number of set bits among the lowest `n` bits of `v`.
pub open spec fn count_bits_below(v: u64, n: nat) -> nat
    decreases n,
{
    if n == 0 {
        0
    } else {
        count_bits_below(v, (n - 1) as nat) + if bit_at(v, (n - 1) as u64) {
            1nat
        } else {
            0nat
        }
    }
}

/// The number of set bits of `v`.
pub open spec fn count_bits(v: u64) -> nat {
    count_bits_below(v, 64)
}

/// `u64::count_ones` of the standard library, which returns the number of
/// ones in the binary representation of its argument. The contract says
/// that: the result is [`count_bits`] of the argument.
pub assume_specification[ u64::count_ones ](v: u64) -> (ones: u32)
    ensures
        ones == count_bits(v),
;

/// There are no more set bits than bits.
pub proof fn lemma_count_bits_bound(v: u64, n: nat)
    ensures
        count_bits_below(v, n) <= n,
    decreases n,
{
    if n > 0 {
        lemma_count_bits_bound(v, (n - 1) as nat);
    }
}

} // verus!
