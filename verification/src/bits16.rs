//! The bits of a `u16`, as the rows of a playfield ten columns wide use them.

use vstd::prelude::*;
use crate::sums::{ind, lemma_sum_bounds, lemma_sum_constant, lemma_sum_eq, lemma_sum_split, row_sum, sum};

verus! {

/// A row with all ten columns occupied.
pub const FILLED: u16 = 0x3ff;

/// Whether bit `i` of `v` is set; no bit is set outside `0 <= i < 16`.
pub open spec fn bit16(v: u16, i: int) -> bool {
    0 <= i < 16 && (v >> (i as u16)) & 1 == 1
}

/// The number of bits set in `v`.
pub open spec fn ones16(v: u16) -> int {
    sum(0, 16, |i: int| ind(bit16(v, i)))
}

/// `u16::count_ones` of std: the number of ones in the binary representation
/// of the value, here the number of positions below 16 at which `bit16`
/// holds.
pub assume_specification[ u16::count_ones ](v: u16) -> (r: u32)
    ensures
        r == ones16(v),
;

/// A bit of `a & b` is set where it is set in both.
pub broadcast proof fn lemma_bit16_and(a: u16, b: u16, i: int)
    ensures
        #[trigger] bit16(a & b, i) == (bit16(a, i) && bit16(b, i)),
{
    if 0 <= i < 16 {
        let j = i as u16;
        assert(((a & b) >> j) & 1 == 1 <==> ((a >> j) & 1 == 1 && (b >> j) & 1 == 1))
            by (bit_vector);
    }
}

/// A bit of `a | b` is set where it is set in one of them.
pub broadcast proof fn lemma_bit16_or(a: u16, b: u16, i: int)
    ensures
        #[trigger] bit16(a | b, i) == (bit16(a, i) || bit16(b, i)),
{
    if 0 <= i < 16 {
        let j = i as u16;
        assert(((a | b) >> j) & 1 == 1 <==> ((a >> j) & 1 == 1 || (b >> j) & 1 == 1))
            by (bit_vector);
    }
}

/// A bit of `a ^ b` is set where it is set in exactly one of them.
pub broadcast proof fn lemma_bit16_xor(a: u16, b: u16, i: int)
    ensures
        #[trigger] bit16(a ^ b, i) == (bit16(a, i) != bit16(b, i)),
{
    if 0 <= i < 16 {
        let j = i as u16;
        assert(((a ^ b) >> j) & 1 == 1 <==> (((a >> j) & 1 == 1) != ((b >> j) & 1 == 1)))
            by (bit_vector);
    }
}

/// A bit of `!a` is set where it is clear in `a`.
pub broadcast proof fn lemma_bit16_not(a: u16, i: int)
    ensures
        #[trigger] bit16(!a, i) == (0 <= i < 16 && !bit16(a, i)),
{
    if 0 <= i < 16 {
        let j = i as u16;
        assert(((!a) >> j) & 1 == 1 <==> !((a >> j) & 1 == 1)) by (bit_vector)
            requires
                j < 16,
        ;
    }
}

/// Bit `i` of `v >> k` is bit `i + k` of `v`.
pub broadcast proof fn lemma_bit16_shr(v: u16, k: u16, i: int)
    requires
        k < 16,
    ensures
        #[trigger] bit16(v >> k, i) == (0 <= i && i + k < 16 && bit16(v, i + k)),
{
    if 0 <= i < 16 {
        let j = i as u16;
        if i + k < 16 {
            let s = (i + k) as u16;
            assert(((v >> k) >> j) & 1 == (v >> s) & 1) by (bit_vector)
                requires
                    k < 16,
                    j < 16,
                    s == j + k,
                    s < 16,
            ;
        } else {
            assert(((v >> k) >> j) & 1 == 0) by (bit_vector)
                requires
                    k < 16,
                    j < 16,
                    j + k >= 16,
            ;
        }
    }
}

/// Bit `i` of `v << k` is bit `i - k` of `v`.
pub broadcast proof fn lemma_bit16_shl(v: u16, k: u16, i: int)
    requires
        k < 16,
    ensures
        #[trigger] bit16(v << k, i) == (k <= i < 16 && bit16(v, i - k)),
{
    if 0 <= i < 16 {
        let j = i as u16;
        if i >= k {
            let s = (i - k) as u16;
            assert(((v << k) >> j) & 1 == (v >> s) & 1) by (bit_vector)
                requires
                    k < 16,
                    j < 16,
                    j >= k,
                    s == j - k,
            ;
        } else {
            assert(((v << k) >> j) & 1 == 0) by (bit_vector)
                requires
                    k < 16,
                    j < k,
            ;
        }
    }
}

/// No bit of 0 is set.
pub broadcast proof fn lemma_bit16_zero(i: int)
    ensures
        !#[trigger] bit16(0, i),
{
    if 0 <= i < 16 {
        let j = i as u16;
        assert((0u16 >> j) & 1 == 0) by (bit_vector);
    }
}

/// Bit 0 is the one bit of 1.
pub broadcast proof fn lemma_bit16_one(i: int)
    ensures
        #[trigger] bit16(1, i) == (i == 0),
{
    if 0 <= i < 16 {
        let j = i as u16;
        assert(((1u16 >> j) & 1 == 1) <==> j == 0) by (bit_vector)
            requires
                j < 16,
        ;
    }
}

/// The bits of the filled row are those of the ten columns.
pub broadcast proof fn lemma_bit16_filled(i: int)
    ensures
        #[trigger] bit16(0x3ff, i) == (0 <= i < 10),
{
    if 0 <= i < 16 {
        let j = i as u16;
        assert(((0x3ffu16 >> j) & 1 == 1) <==> j < 10) by (bit_vector)
            requires
                j < 16,
        ;
    }
}

/// How the bits of a result follow from the bits of the operands.
pub broadcast group group_bit16 {
    lemma_bit16_and,
    lemma_bit16_or,
    lemma_bit16_xor,
    lemma_bit16_not,
    lemma_bit16_shr,
    lemma_bit16_shl,
    lemma_bit16_zero,
    lemma_bit16_one,
    lemma_bit16_filled,
}

/// Testing a value against a one-bit mask reads that bit.
pub proof fn lemma_test_bit16(v: u16, x: u16)
    requires
        x < 16,
    ensures
        (v & (1u16 << x) != 0) == bit16(v, x as int),
{
    assert((v & (1u16 << x) != 0) == ((v >> x) & 1 == 1)) by (bit_vector)
        requires
            x < 16,
    ;
}

/// A value is zero exactly when none of its bits is set.
pub proof fn lemma_zero16_iff_no_bit(v: u16)
    ensures
        v == 0 <==> forall|i: int| !bit16(v, i),
{
    broadcast use lemma_bit16_zero;

    if v != 0 {
        vstd::std_specs::bits::axiom_u16_trailing_zeros(v);
        let t = vstd::std_specs::bits::u16_trailing_zeros(v);
        assert(bit16(v, t as int));
    }
}

/// A row is within the ten columns exactly when no bit from 10 upwards is
/// set, and such a row is complete exactly when its ten low bits are set.
pub proof fn lemma_row_bits(v: u16)
    ensures
        v <= FILLED <==> forall|i: int| 10 <= i ==> !bit16(v, i),
        v <= FILLED ==> (v == FILLED <==> forall|i: int| 0 <= i < 10 ==> bit16(v, i)),
{
    broadcast use group_bit16;

    if v <= FILLED {
        assert forall|i: int| 10 <= i implies !bit16(v, i) by {
            if i < 16 {
                let j = i as u16;
                assert((v >> j) & 1 == 0) by (bit_vector)
                    requires
                        v <= 0x3ffu16,
                        10 <= j < 16,
                ;
            }
        }
        if v != FILLED {
            let w = !v & FILLED;
            assert(w != 0) by (bit_vector)
                requires
                    v <= 0x3ffu16,
                    v != 0x3ffu16,
                    w == !v & 0x3ffu16,
            ;
            lemma_zero16_iff_no_bit(w);
            let t = choose|t: int| bit16(w, t);
            assert(!bit16(v, t) && 0 <= t < 10);
        }
    } else {
        let w = v & !FILLED;
        assert(w != 0) by (bit_vector)
            requires
                v > 0x3ffu16,
                w == v & !0x3ffu16,
        ;
        lemma_zero16_iff_no_bit(w);
        let t = choose|t: int| bit16(w, t);
        assert(bit16(v, t) && 10 <= t);
    }
}

/// The number of set bits of a row within the ten columns, as the sum along
/// row `y` of a function that is 1 exactly at the set bits, over the first
/// `w` columns, where no bit from `w` upwards is set.
pub proof fn lemma_ones16_as_row(v: u16, w: int, f: spec_fn(int, int) -> int, y: int)
    requires
        0 <= w <= 16,
        forall|x: int| 0 <= x < w ==> ind(bit16(v, x)) == #[trigger] f(x, y),
        forall|x: int| w <= x < 16 ==> !bit16(v, x),
    ensures
        ones16(v) == row_sum(w, f, y),
        0 <= ones16(v) <= w,
{
    let b = |i: int| ind(bit16(v, i));
    assert forall|i: int| 0 <= i < w implies #[trigger] b(i) == (|x: int| f(x, y))(i) by {
        assert(ind(bit16(v, i)) == f(i, y));
    }
    lemma_sum_split(0, w, 16, b);
    lemma_sum_constant(w, 16, b, 0);
    lemma_sum_eq(0, w, b, |x: int| f(x, y));
    lemma_sum_bounds(0, w, b, 1);
}

} // verus!
