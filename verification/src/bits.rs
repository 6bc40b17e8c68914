//! The bits of a `u64`, the number of them that are set, and how bits are
//! squeezed out of a word.

use vstd::prelude::*;
use crate::sums::{
    column_sum, ind, lemma_sum_bounds, lemma_sum_constant, lemma_sum_eq, lemma_sum_shift,
    lemma_sum_split, sum,
};

verus! {

/// Whether bit `i` of `v` is set; no bit is set outside `0 <= i < 64`.
pub open spec fn bit(v: u64, i: int) -> bool {
    0 <= i < 64 && (v >> (i as u64)) & 1 == 1
}

/// The number of bits set in `v`.
pub open spec fn ones(v: u64) -> int {
    sum(0, 64, |i: int| ind(bit(v, i)))
}

/// `u64::count_ones` of std: the number of ones in the binary representation
/// of the value, here the number of positions below 64 at which `bit` holds.
pub assume_specification[ u64::count_ones ](v: u64) -> (r: u32)
    ensures
        r == ones(v),
;

/// A bit of `a & b` is set where it is set in both.
pub broadcast proof fn lemma_bit_and(a: u64, b: u64, i: int)
    ensures
        #[trigger] bit(a & b, i) == (bit(a, i) && bit(b, i)),
{
    if 0 <= i < 64 {
        let j = i as u64;
        assert(((a & b) >> j) & 1 == 1 <==> ((a >> j) & 1 == 1 && (b >> j) & 1 == 1))
            by (bit_vector);
    }
}

/// A bit of `a | b` is set where it is set in one of them.
pub broadcast proof fn lemma_bit_or(a: u64, b: u64, i: int)
    ensures
        #[trigger] bit(a | b, i) == (bit(a, i) || bit(b, i)),
{
    if 0 <= i < 64 {
        let j = i as u64;
        assert(((a | b) >> j) & 1 == 1 <==> ((a >> j) & 1 == 1 || (b >> j) & 1 == 1))
            by (bit_vector);
    }
}

/// A bit of `a ^ b` is set where it is set in exactly one of them.
pub broadcast proof fn lemma_bit_xor(a: u64, b: u64, i: int)
    ensures
        #[trigger] bit(a ^ b, i) == (bit(a, i) != bit(b, i)),
{
    if 0 <= i < 64 {
        let j = i as u64;
        assert(((a ^ b) >> j) & 1 == 1 <==> (((a >> j) & 1 == 1) != ((b >> j) & 1 == 1)))
            by (bit_vector);
    }
}

/// A bit of `!a` is set where it is clear in `a`.
pub broadcast proof fn lemma_bit_not(a: u64, i: int)
    ensures
        #[trigger] bit(!a, i) == (0 <= i < 64 && !bit(a, i)),
{
    if 0 <= i < 64 {
        let j = i as u64;
        assert(((!a) >> j) & 1 == 1 <==> !((a >> j) & 1 == 1)) by (bit_vector)
            requires
                j < 64,
        ;
    }
}

/// Bit `i` of `v >> k` is bit `i + k` of `v`.
pub broadcast proof fn lemma_bit_shr(v: u64, k: u64, i: int)
    requires
        k < 64,
    ensures
        #[trigger] bit(v >> k, i) == (0 <= i && i + k < 64 && bit(v, i + k)),
{
    if 0 <= i < 64 {
        let j = i as u64;
        if i + k < 64 {
            let s = (i + k) as u64;
            assert(((v >> k) >> j) & 1 == (v >> s) & 1) by (bit_vector)
                requires
                    k < 64,
                    j < 64,
                    s == j + k,
                    s < 64,
            ;
        } else {
            assert(((v >> k) >> j) & 1 == 0) by (bit_vector)
                requires
                    k < 64,
                    j < 64,
                    j + k >= 64,
            ;
        }
    }
}

/// Bit `i` of `v << k` is bit `i - k` of `v`.
pub broadcast proof fn lemma_bit_shl(v: u64, k: u64, i: int)
    requires
        k < 64,
    ensures
        #[trigger] bit(v << k, i) == (k <= i < 64 && bit(v, i - k)),
{
    if 0 <= i < 64 {
        let j = i as u64;
        if i >= k {
            let s = (i - k) as u64;
            assert(((v << k) >> j) & 1 == (v >> s) & 1) by (bit_vector)
                requires
                    k < 64,
                    j < 64,
                    j >= k,
                    s == j - k,
            ;
        } else {
            assert(((v << k) >> j) & 1 == 0) by (bit_vector)
                requires
                    k < 64,
                    j < k,
            ;
        }
    }
}

/// No bit of 0 is set.
pub broadcast proof fn lemma_bit_zero(i: int)
    ensures
        !#[trigger] bit(0, i),
{
    if 0 <= i < 64 {
        let j = i as u64;
        assert((0u64 >> j) & 1 == 0) by (bit_vector);
    }
}

/// Bit 0 is the one bit of 1.
pub broadcast proof fn lemma_bit_one(i: int)
    ensures
        #[trigger] bit(1, i) == (i == 0),
{
    if 0 <= i < 64 {
        let j = i as u64;
        assert(((1u64 >> j) & 1 == 1) <==> j == 0) by (bit_vector)
            requires
                j < 64,
        ;
    }
}

/// Every bit of the greatest value is set.
pub broadcast proof fn lemma_bit_all(i: int)
    ensures
        #[trigger] bit(0xffff_ffff_ffff_ffff, i) == (0 <= i < 64),
{
    if 0 <= i < 64 {
        let j = i as u64;
        assert((0xffff_ffff_ffff_ffffu64 >> j) & 1 == 1) by (bit_vector)
            requires
                j < 64,
        ;
    }
}

/// The mask of the `k` lowest bits.
pub proof fn lemma_low_mask(k: u64)
    requires
        k < 64,
    ensures
        1 <= (1u64 << k),
        forall|i: int| #[trigger] bit(((1u64 << k) - 1) as u64, i) == (0 <= i < k),
{
    assert(1 <= (1u64 << k)) by (bit_vector)
        requires
            k < 64,
    ;
    assert forall|i: int| #[trigger] bit(((1u64 << k) - 1) as u64, i) == (0 <= i < k) by {
        if 0 <= i < 64 {
            let j = i as u64;
            assert(((((1u64 << k) - 1) as u64) >> j) & 1 == 1 <==> j < k) by (bit_vector)
                requires
                    k < 64,
                    j < 64,
            ;
        }
    }
}

/// A value is zero exactly when none of its bits is set.
pub proof fn lemma_zero_iff_no_bit(v: u64)
    ensures
        v == 0 <==> forall|i: int| !bit(v, i),
{
    broadcast use lemma_bit_zero;
    if v != 0 {
        vstd::std_specs::bits::axiom_u64_trailing_zeros(v);
        let t = vstd::std_specs::bits::u64_trailing_zeros(v);
        assert(bit(v, t as int));
    }
}

/// What `trailing_zeros` says of the bits: the lowest set bit is at that
/// position, and a value without set bits gives 64.
pub proof fn lemma_trailing_zeros(v: u64)
    ensures
        0 <= v.trailing_zeros() <= 64,
        v == 0 <==> v.trailing_zeros() == 64,
        v != 0 ==> bit(v, v.trailing_zeros() as int),
        forall|i: int| 0 <= i < v.trailing_zeros() ==> !#[trigger] bit(v, i),
{
    vstd::std_specs::bits::axiom_u64_trailing_zeros(v);
    let t = vstd::std_specs::bits::u64_trailing_zeros(v);
    assert forall|i: int| 0 <= i < t implies !#[trigger] bit(v, i) by {
        let j = i as u64;
        assert((v >> j) & 1 == 0);
    }
}

/// What `leading_zeros` says of the bits: the highest set bit is at
/// `63 - leading_zeros`, and a value without set bits gives 64.
pub proof fn lemma_leading_zeros(v: u64)
    ensures
        0 <= vstd::std_specs::bits::u64_leading_zeros(v) <= 64,
        v == 0 <==> vstd::std_specs::bits::u64_leading_zeros(v) == 64,
        v != 0 ==> bit(v, 63 - vstd::std_specs::bits::u64_leading_zeros(v)),
        forall|i: int| 64 - vstd::std_specs::bits::u64_leading_zeros(v) <= i ==> !#[trigger] bit(v, i),
{
    vstd::std_specs::bits::axiom_u64_leading_zeros(v);
    let z = vstd::std_specs::bits::u64_leading_zeros(v);
    if v != 0 {
        let j = (63 - z) as u64;
        assert(((v >> j) & 1 != 0) ==> ((v >> j) & 1 == 1)) by (bit_vector);
    }
    assert forall|i: int| 64 - z <= i implies !#[trigger] bit(v, i) by {
        if i < 64 {
            let j = i as u64;
            assert((v >> j) & 1 == 0);
        }
    }
}

/// Testing a value against a one-bit mask reads that bit.
pub proof fn lemma_test_bit(v: u64, y: u64)
    requires
        y < 64,
    ensures
        (v & (1u64 << y) != 0) == bit(v, y as int),
{
    assert((v & (1u64 << y) != 0) == ((v >> y) & 1 == 1)) by (bit_vector)
        requires
            y < 64,
    ;
}

/// The number of set bits, as the sum down column `x` of a function that is
/// 1 exactly at the set bits.
pub proof fn lemma_ones_as_column(v: u64, f: spec_fn(int, int) -> int, x: int)
    requires
        forall|y: int| 0 <= y < 64 ==> ind(bit(v, y)) == #[trigger] f(x, y),
    ensures
        ones(v) == column_sum(64, f, x),
        0 <= ones(v) <= 64,
{
    let b = |i: int| ind(bit(v, i));
    assert forall|i: int| 0 <= i < 64 implies #[trigger] b(i) == (|y: int| f(x, y))(i) by {
        assert(ind(bit(v, i)) == f(x, i));
    }
    lemma_sum_eq(0, 64, b, |y: int| f(x, y));
    lemma_sum_bounds(0, 64, b, 1);
}

/// The number of set bits of `m` at the positions below `y`.
pub open spec fn rank(m: u64, y: int) -> int {
    sum(0, y, |i: int| ind(bit(m, i)))
}

/// `out` holds the bits of `c` at the positions that `m` does not mark, each
/// moved down by the number of marked positions below it.
pub open spec fn squeezed(c: u64, m: u64, out: u64) -> bool {
    forall|k: int|
        #[trigger] bit(out, k) == (exists|y: int|
            #[trigger] bit(c, y) && !bit(m, y) && y - rank(m, y) == k)
}

/// `out` holds the bits of `c` at the positions that `selector` marks,
/// gathered into a contiguous run from bit 0 upwards.
pub open spec fn gathered(c: u64, selector: u64, out: u64) -> bool {
    forall|k: int|
        #[trigger] bit(out, k) == (exists|y: int|
            #[trigger] bit(c, y) && bit(selector, y) && rank(selector, y) == k)
}

/// The rank counts between 0 and the number of positions looked at, at most
/// 64 of which can be set.
pub proof fn lemma_rank_bounds(m: u64, y: int)
    requires
        0 <= y,
    ensures
        0 <= rank(m, y) <= y,
        rank(m, y) <= 64,
        y >= 64 ==> rank(m, y) == ones(m),
{
    let b = |i: int| ind(bit(m, i));
    lemma_sum_bounds(0, y, b, 1);
    if y >= 64 {
        lemma_sum_split(0, 64, y, b);
        lemma_sum_constant(64, y, b, 0);
        lemma_sum_bounds(0, 64, b, 1);
    }
}

/// The ranks of a value and of its complement add up to the position.
pub proof fn lemma_rank_complement(m: u64, y: int)
    requires
        0 <= y <= 64,
    ensures
        rank(m, y) + rank(!m, y) == y,
    decreases y,
{
    broadcast use lemma_bit_not;

    if y > 0 {
        lemma_rank_complement(m, y - 1);
    }
}

/// The rank in a value shifted right by `s` is the rank in the value itself,
/// counted from position `s`.
pub proof fn lemma_rank_shifted(m: u64, s: u64, y: int)
    requires
        s < 64,
        0 <= y,
    ensures
        rank(m >> s, y) == rank(m, y + s) - rank(m, s as int),
{
    broadcast use lemma_bit_shr;

    let b = |i: int| ind(bit(m, i));
    let bs = |i: int| ind(bit(m >> s, i));
    assert forall|i: int| 0 <= i < y implies #[trigger] bs(i) == b(i + s) by {}
    lemma_sum_shift(0, y, s as int, b, bs);
    lemma_sum_split(0, s as int, y + s, b);
}

/// Gathering the bits that the complement of `m` selects squeezes out the
/// bits that `m` marks.
pub proof fn lemma_gathered_is_squeezed(c: u64, m: u64, out: u64)
    requires
        gathered(c, !m, out),
    ensures
        squeezed(c, m, out),
{
    broadcast use lemma_bit_not;

    assert forall|k: int|
        #[trigger] bit(out, k) == (exists|y: int|
            #[trigger] bit(c, y) && !bit(m, y) && y - rank(m, y) == k) by {
        if bit(out, k) {
            let y = choose|y: int| #[trigger] bit(c, y) && bit(!m, y) && rank(!m, y) == k;
            lemma_rank_complement(m, y);
            assert(bit(c, y) && !bit(m, y) && y - rank(m, y) == k);
        }
        if exists|y: int| #[trigger] bit(c, y) && !bit(m, y) && y - rank(m, y) == k {
            let y = choose|y: int| #[trigger] bit(c, y) && !bit(m, y) && y - rank(m, y) == k;
            lemma_rank_complement(m, y);
            assert(bit(c, y) && bit(!m, y) && rank(!m, y) == k);
        }
    }
}

/// A value squeezes to `out` where a function `source` names, for each
/// position of `out`, the position of `c` that it comes from, and walks the
/// unmarked positions in their order.
pub proof fn lemma_squeezed_by_source(c: u64, m: u64, out: u64, source: spec_fn(int) -> int)
    requires
        forall|j: int| #[trigger] bit(out, j) == (0 <= j && bit(c, source(j))),
        forall|j: int|
            0 <= j ==> !bit(m, #[trigger] source(j)) && source(j) - rank(m, source(j)) == j,
        forall|y: int|
            0 <= y < 64 && !#[trigger] bit(m, y) ==> 0 <= y - rank(m, y) && source(y - rank(m, y))
                == y,
    ensures
        squeezed(c, m, out),
{
    assert forall|k: int|
        #[trigger] bit(out, k) == (exists|y: int|
            #[trigger] bit(c, y) && !bit(m, y) && y - rank(m, y) == k) by {
        if bit(out, k) {
            let y = source(k);
            assert(bit(c, y) && !bit(m, y) && y - rank(m, y) == k);
        }
        if exists|y: int| #[trigger] bit(c, y) && !bit(m, y) && y - rank(m, y) == k {
            let y = choose|y: int| #[trigger] bit(c, y) && !bit(m, y) && y - rank(m, y) == k;
            assert(source(y - rank(m, y)) == y);
        }
    }
}

/// Squeezing above position `s`, where `m` marks nothing below `s`: the
/// bits below `s` stay, and the rest is the squeezed upper part put back at
/// `s`.
pub proof fn lemma_squeezed_above(c: u64, m: u64, s: u64, upper: u64, out: u64)
    requires
        s < 64,
        forall|i: int| 0 <= i < s ==> !bit(m, i),
        squeezed(c >> s, m >> s, upper),
        forall|i: int| #[trigger] bit(out, i) == (if i < s {
            bit(c, i)
        } else {
            bit(upper, i - s)
        }),
    ensures
        squeezed(c, m, out),
{
    broadcast use lemma_bit_shr;

    let low = |i: int| ind(bit(m, i));
    lemma_sum_constant(0, s as int, low, 0);
    assert forall|k: int|
        #[trigger] bit(out, k) == (exists|y: int|
            #[trigger] bit(c, y) && !bit(m, y) && y - rank(m, y) == k) by {
        if bit(out, k) {
            if k < s {
                lemma_sum_constant(0, k, low, 0);
                assert(bit(c, k) && !bit(m, k) && k - rank(m, k) == k);
            } else {
                let z = choose|z: int|
                    #[trigger] bit(c >> s, z) && !bit(m >> s, z) && z - rank(m >> s, z) == k - s;
                lemma_rank_shifted(m, s, z);
                assert(bit(c, z + s) && !bit(m, z + s) && (z + s) - rank(m, z + s) == k);
            }
        }
        if exists|y: int| #[trigger] bit(c, y) && !bit(m, y) && y - rank(m, y) == k {
            let y = choose|y: int| #[trigger] bit(c, y) && !bit(m, y) && y - rank(m, y) == k;
            if y < s {
                lemma_sum_constant(0, y, low, 0);
            } else {
                lemma_rank_shifted(m, s, y - s);
                lemma_rank_bounds(m >> s, y - s);
                assert(bit(c >> s, y - s) && !bit(m >> s, y - s) && (y - s) - rank(m >> s, y - s)
                    == k - s);
            }
        }
    }
}

/// The bits of the small masks that the shift rules use.
pub proof fn lemma_small_masks(i: int)
    ensures
        bit(2, i) == (i == 1),
        bit(4, i) == (i == 2),
        bit(6, i) == (i == 1 || i == 2),
        bit(7, i) == (0 <= i < 3),
        bit(15, i) == (0 <= i < 4),
{
    if 0 <= i < 64 {
        let j = i as u64;
        assert(((2u64 >> j) & 1 == 1 <==> j == 1) && ((4u64 >> j) & 1 == 1 <==> j == 2) && ((6u64
            >> j) & 1 == 1 <==> (j == 1 || j == 2)) && ((7u64 >> j) & 1 == 1 <==> j < 3) && ((15u64
            >> j) & 1 == 1 <==> j < 4)) by (bit_vector)
            requires
                j < 64,
        ;
    }
}

/// The bits of a value below 16.
pub proof fn lemma_nibble_bits(p: u64)
    requires
        p < 16,
    ensures
        bit(p, 0) == (p % 2 == 1),
        bit(p, 1) == ((p / 2) % 2 == 1),
        bit(p, 2) == ((p / 4) % 2 == 1),
        bit(p, 3) == (p / 8 == 1),
        forall|i: int| 4 <= i ==> !#[trigger] bit(p, i),
{
    assert(((p >> 0u64) & 1 == 1 <==> p % 2 == 1) && ((p >> 1u64) & 1 == 1 <==> (p / 2) % 2 == 1)
        && ((p >> 2u64) & 1 == 1 <==> (p / 4) % 2 == 1) && ((p >> 3u64) & 1 == 1 <==> p / 8 == 1))
        by (bit_vector)
        requires
            p < 16,
    ;
    assert forall|i: int| 4 <= i implies !#[trigger] bit(p, i) by {
        if i < 64 {
            let j = i as u64;
            assert((p >> j) & 1 == 0) by (bit_vector)
                requires
                    p < 16,
                    4 <= j < 64,
            ;
        }
    }
}

/// Gathers the bits of `value` at the positions that `selector` marks into a
/// contiguous run from bit 0 upwards, in their order; the other bits of the
/// result are clear.
pub fn parallel_extract(value: u64, selector: u64) -> (out: u64)
    ensures
        gathered(value, selector, out),
{
    broadcast use group_bit;

    let mut out: u64 = 0;
    let mut k: u32 = 0;
    let mut i: u32 = 0;
    while i < 64
        invariant
            i <= 64,
            k == rank(selector, i as int),
            k <= i,
            forall|j: int|
                #[trigger] bit(out, j) == (exists|y: int|
                    y < i && #[trigger] bit(value, y) && bit(selector, y) && rank(selector, y)
                        == j),
        decreases 64 - i,
    {
        broadcast use group_bit;

        let ghost before = out;
        let selected = (selector >> i) & 1 == 1;
        let present = (value >> i) & 1 == 1;
        if selected {
            if present {
                out = out | (1u64 << k);
            }
            k = k + 1;
        }
        proof {
            assert forall|j: int|
                #[trigger] bit(out, j) == (exists|y: int|
                    y < i + 1 && #[trigger] bit(value, y) && bit(selector, y) && rank(
                        selector,
                        y,
                    ) == j) by {
                let now = selected && present && j == rank(selector, i as int);
                assert(bit(out, j) == (bit(before, j) || now));
                if bit(before, j) {
                    let y = choose|y: int|
                        y < i && #[trigger] bit(value, y) && bit(selector, y) && rank(
                            selector,
                            y,
                        ) == j;
                    assert(y < i + 1 && bit(value, y) && bit(selector, y) && rank(selector, y)
                        == j);
                }
                if now {
                    assert(bit(value, i as int) && bit(selector, i as int));
                }
                if exists|y: int|
                    y < i + 1 && #[trigger] bit(value, y) && bit(selector, y) && rank(
                        selector,
                        y,
                    ) == j {
                    let y = choose|y: int|
                        y < i + 1 && #[trigger] bit(value, y) && bit(selector, y) && rank(
                            selector,
                            y,
                        ) == j;
                    if y < i {
                        assert(bit(before, j));
                    }
                }
            }
        }
        i = i + 1;
    }
    assert forall|j: int|
        #[trigger] bit(out, j) == (exists|y: int|
            #[trigger] bit(value, y) && bit(selector, y) && rank(selector, y) == j) by {
        if exists|y: int| #[trigger] bit(value, y) && bit(selector, y) && rank(selector, y) == j {
            let y = choose|y: int|
                #[trigger] bit(value, y) && bit(selector, y) && rank(selector, y) == j;
            assert(y < 64 && bit(value, y) && bit(selector, y) && rank(selector, y) == j);
        }
    }
    out
}

/// How the bits of a result follow from the bits of the operands.
pub broadcast group group_bit {
    lemma_bit_and,
    lemma_bit_or,
    lemma_bit_xor,
    lemma_bit_not,
    lemma_bit_shr,
    lemma_bit_shl,
    lemma_bit_zero,
    lemma_bit_one,
    lemma_bit_all,
}

} // verus!
