use vstd::prelude::*;
use vstd::std_specs::bits::{axiom_u64_trailing_zeros, u64_trailing_zeros};

verus! {

/// The 64-bit value whose only set bit is bit `i`.
pub open spec fn bit(i: int) -> u64 {
    1u64 << (i as u64)
}

/// Whether bit `i` of `x` is set.
pub open spec fn bit_set(x: u64, i: int) -> bool {
    x & bit(i) != 0
}

/// Whether `x` has exactly one bit set.
pub open spec fn single(x: u64) -> bool {
    exists|i: int| 0 <= i < 64 && x == bit(i)
}

/// The position of the lowest set bit of `x` (64 when `x` is zero).
pub open spec fn low_index(x: u64) -> int {
    u64_trailing_zeros(x) as int
}

proof fn bv_bits_distinct(i: u64, j: u64)
    by (bit_vector)
    requires
        i < 64,
        j < 64,
    ensures
        (1u64 << i) != 0,
        ((1u64 << i) & (1u64 << j) != 0) == (i == j),
        ((1u64 << i) == (1u64 << j)) == (i == j),
{
}

/// Distinct indices give distinct bits, and no bit is zero.
pub proof fn lemma_bit_distinct(i: int, j: int)
    requires
        0 <= i < 64,
        0 <= j < 64,
    ensures
        bit(i) != 0,
        bit_set(bit(i), j) == (i == j),
        (bit(i) == bit(j)) == (i == j),
{
    bv_bits_distinct(i as u64, j as u64);
}

proof fn bv_set_algebra(x: u64, y: u64, i: u64)
    by (bit_vector)
    requires
        i < 64,
    ensures
        ((x | y) & (1u64 << i) != 0) == ((x & (1u64 << i) != 0) || (y & (1u64 << i) != 0)),
        ((x & y) & (1u64 << i) != 0) == ((x & (1u64 << i) != 0) && (y & (1u64 << i) != 0)),
        ((x ^ y) & (1u64 << i) != 0) == ((x & (1u64 << i) != 0) != (y & (1u64 << i) != 0)),
        ((!x) & (1u64 << i) != 0) == (x & (1u64 << i) == 0),
        0u64 & (1u64 << i) == 0,
{
}

/// Membership in a union, an intersection, a symmetric difference and a
/// complement, bit by bit.
pub proof fn lemma_has_ops(x: u64, y: u64, i: int)
    requires
        0 <= i < 64,
    ensures
        bit_set(x | y, i) == (bit_set(x, i) || bit_set(y, i)),
        bit_set(x & y, i) == (bit_set(x, i) && bit_set(y, i)),
        bit_set(x ^ y, i) == (bit_set(x, i) != bit_set(y, i)),
        bit_set(!x, i) == !bit_set(x, i),
        !bit_set(0, i),
{
    bv_set_algebra(x, y, i as u64);
}

proof fn bv_lowest_bit(x: u64, t: u64, i: u64)
    by (bit_vector)
    requires
        t < 64,
        i < 64,
        (x >> t) & 1u64 == 1u64,
    ensures
        x & (1u64 << t) != 0,
        x == (1u64 << i) ==> t == i,
{
}

proof fn bv_below_lowest(x: u64, j: u64)
    by (bit_vector)
    requires
        j < 64,
        (x >> j) & 1u64 == 0u64,
    ensures
        x & (1u64 << j) == 0,
{
}

/// What `trailing_zeros` says of a value: below 64 exactly when the value
/// is not zero, the bit at that index is set and no lower bit is.
pub proof fn lemma_low_index(x: u64)
    ensures
        0 <= low_index(x) <= 64,
        (x == 0) == (low_index(x) == 64),
        x != 0 ==> bit_set(x, low_index(x)),
        forall|j: int| 0 <= j < low_index(x) ==> !#[trigger] bit_set(x, j),
{
    axiom_u64_trailing_zeros(x);
    let t = u64_trailing_zeros(x) as u64;
    if x != 0 {
        bv_lowest_bit(x, t, 0);
    }
    assert forall|j: int| 0 <= j < low_index(x) implies !#[trigger] bit_set(x, j) by {
        let ju = j as u64;
        assert((x >> ju) & 1u64 == 0u64);
        bv_below_lowest(x, ju);
    }
}

/// The lowest set bit of a single bit is that bit.
pub proof fn lemma_low_index_of_bit(i: int)
    requires
        0 <= i < 64,
    ensures
        low_index(bit(i)) == i,
{
    let x = bit(i);
    lemma_bit_distinct(i, i);
    axiom_u64_trailing_zeros(x);
    let t = u64_trailing_zeros(x) as u64;
    bv_lowest_bit(x, t, i as u64);
}

/// A value with exactly one bit set is the bit at its own lowest index.
pub proof fn lemma_single(x: u64)
    requires
        single(x),
    ensures
        0 <= low_index(x) < 64,
        x == bit(low_index(x)),
        x != 0,
{
    let i = choose|i: int| 0 <= i < 64 && x == bit(i);
    lemma_low_index_of_bit(i);
    lemma_bit_distinct(i, i);
}

proof fn bv_xor_zero(x: u64, y: u64)
    by (bit_vector)
    ensures
        x ^ y == 0 ==> x == y,
{
}

/// Two values with the same bits are the same value.
pub proof fn lemma_same_bits(x: u64, y: u64)
    requires
        forall|i: int| 0 <= i < 64 ==> bit_set(x, i) == bit_set(y, i),
    ensures
        x == y,
{
    let z = x ^ y;
    bv_xor_zero(x, y);
    if z != 0 {
        lemma_low_index(z);
        lemma_has_ops(x, y, low_index(z));
    }
}

} // verus!
