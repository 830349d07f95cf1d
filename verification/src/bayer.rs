//! Bayer ordered-dither matrices.
//!
//! The matrix of size 2^k is built level by level: at every block size
//! the cell's quadrant adds one base-4 digit, coarsest quadrant last in
//! the least significant position.

use vstd::prelude::*;
use vstd::arithmetic::power2::{
    lemma_pow2_pos, lemma_pow2_adds, lemma_pow2_strictly_increases, lemma_pow2_unfold, pow2,
};
use crate::pattern::Pattern;

verus! {

/// Whether `v` is a power of two.
pub open spec fn is_pow2(v: int) -> bool
    decreases v,
{
    if v < 1 {
        false
    } else if v == 1 {
        true
    } else {
        v % 2 == 0 && is_pow2(v / 2)
    }
}

/// The base-2 logarithm, rounded down.
pub open spec fn lg(v: int) -> nat
    decreases v,
{
    if v <= 1 {
        0
    } else {
        (1 + lg(v / 2)) as nat
    }
}

pub proof fn lemma_pow2_of_is_pow2(v: int)
    requires
        is_pow2(v),
    ensures
        pow2(lg(v)) == v,
    decreases v,
{
    if v == 1 {
        vstd::arithmetic::power2::lemma2_to64();
    } else {
        lemma_pow2_of_is_pow2(v / 2);
        lemma_pow2_unfold(lg(v));
    }
}

/// The base-4 digit contributed at block size `bs`: which quadrant of its
/// block the cell sits in, looked up in the 2x2 Bayer kernel.
pub open spec fn bayer_term(bs: int, x: int, y: int) -> int {
    let px = (x % bs) / (bs / 2);
    let py = (y % bs) / (bs / 2);
    if px == 0 && py == 0 {
        0
    } else if px == 1 && py == 0 {
        2
    } else if px == 0 && py == 1 {
        3
    } else {
        1
    }
}

/// The matrix entry at `(x, y)` for size 2^k: the quadrant digits of all
/// levels, finest first.
pub open spec fn bayer_val(k: nat, x: int, y: int) -> int
    decreases k,
{
    if k == 0 {
        0
    } else {
        4 * bayer_val((k - 1) as nat, x, y) + bayer_term(pow2(k) as int, x, y)
    }
}

pub proof fn lemma_bayer_term_range(bs: int, x: int, y: int)
    ensures
        0 <= bayer_term(bs, x, y) <= 3,
{
}

pub proof fn lemma_bayer_val_range(k: nat, x: int, y: int)
    ensures
        0 <= bayer_val(k, x, y) < pow2(2 * k),
    decreases k,
{
    if k == 0 {
        vstd::arithmetic::power2::lemma2_to64();
    } else {
        lemma_bayer_val_range((k - 1) as nat, x, y);
        lemma_bayer_term_range(pow2(k) as int, x, y);
        lemma_pow2_adds(2, (2 * k - 2) as nat);
        vstd::arithmetic::power2::lemma2_to64();
    }
}

/// The bit test for a power of two: a nonzero value with no bit in
/// common with its predecessor has exactly one bit set.
pub proof fn lemma_pow2_bit_trick(v: u32)
    ensures
        (v >= 1 && (v & ((v - 1) as u32)) == 0) == is_pow2(v as int),
    decreases v,
{
    if v == 0 {
    } else if v == 1 {
        assert((1u32 & 0u32) == 0) by (bit_vector);
    } else {
        lemma_pow2_bit_trick(v / 2);
        assert(v >> 1 == v / 2) by (bit_vector);
        if v % 2 == 1 {
            assert((v & ((v - 1) as u32)) != 0) by (bit_vector)
                requires
                    v % 2 == 1 && v >= 2,
            ;
        } else {
            assert(((v & ((v - 1) as u32)) == 0) == (((v >> 1) & (((v >> 1) - 1) as u32)) == 0))
                by (bit_vector)
                requires
                    v % 2 == 0 && v >= 2,
            ;
            assert(v / 2 >= 1);
        }
    }
}

/// Whether `value` is a power of two, by the classic bit test.
pub fn is_power_of_two(value: u32) -> (b: bool)
    ensures
        b == is_pow2(value as int),
{
    proof {
        lemma_pow2_bit_trick(value);
    }
    (value != 0) && (value & (value - 1)) == 0
}

/// A coordinate inside a block of an even size sits in its lower or
/// upper half, nothing else.
proof fn lemma_quadrant_bound(a: int, half: int)
    requires
        0 < half,
        0 <= a < 2 * half,
    ensures
        0 <= a / half <= 1,
{
    vstd::arithmetic::div_mod::lemma_div_pos_is_pos(a, half);
    vstd::arithmetic::div_mod::lemma_div_is_ordered(a, 2 * half - 1, half);
    assert((2 * half - 1) / half == 1) by {
        vstd::arithmetic::div_mod::lemma_fundamental_div_mod_converse(2 * half - 1, half, 1, half - 1);
    }
}

/// Build the Bayer matrix of a power-of-two size: every cell holds its
/// exact base-4 quadrant value, so the matrix enumerates 0 .. size^2 - 1.
pub fn generate_bayer(size: u32) -> (p: Pattern)
    requires
        2 <= size <= 32768,
        is_pow2(size as int),
    ensures
        p.wf(),
        p.width == size,
        p.height == size,
        p.levels == size * size,
        forall|x: int, y: int|
            0 <= x < size && 0 <= y < size ==> #[trigger] p@[x + y * size] == bayer_val(
                lg(size as int),
                x,
                y,
            ),
{
    let ghost kk = lg(size as int);
    proof {
        lemma_pow2_of_is_pow2(size as int);
    }
    proof {
        assert(size * size <= 0x40000000) by (nonlinear_arith)
            requires
                size <= 32768,
        ;
    }
    let mut pattern = Pattern::new(size, size, size * size);
    let mut y: u32 = 0;
    while y < size
        invariant
            y <= size,
            2 <= size <= 32768,
            is_pow2(size as int),
            kk == lg(size as int),
            pow2(kk) == size,
            pattern.wf(),
            pattern.width == size,
            pattern.height == size,
            pattern.levels == size * size,
            forall|xx: int, yy: int|
                0 <= xx < size && 0 <= yy < y ==> #[trigger] pattern@[xx + yy * size]
                    == bayer_val(kk, xx, yy),
        decreases size - y,
    {
        let mut x: u32 = 0;
        while x < size
            invariant
                x <= size,
                y < size,
                2 <= size <= 32768,
                kk == lg(size as int),
                pow2(kk) == size,
                pattern.wf(),
                pattern.width == size,
                pattern.height == size,
                pattern.levels == size * size,
                forall|xx: int, yy: int|
                    0 <= xx < size && 0 <= yy < y ==> #[trigger] pattern@[xx + yy * size]
                        == bayer_val(kk, xx, yy),
                forall|xx: int|
                    0 <= xx < x ==> #[trigger] pattern@[xx + y * size] == bayer_val(kk, xx, y as int),
            decreases size - x,
        {
            let mut val: u32 = 0;
            let mut bs: u32 = 2;
            let ghost mut m: nat = 1;
            proof {
                vstd::arithmetic::power2::lemma2_to64();
                lemma_bayer_val_range(0, x as int, y as int);
            }
            while bs <= size
                invariant
                    2 <= size <= 32768,
                    x < size,
                    y < size,
                    1 <= m,
                    bs == pow2(m),
                    bs <= 2 * size,
                    pow2(kk) == size,
                    val == bayer_val((m - 1) as nat, x as int, y as int),
                    val < pow2(2 * (m - 1) as nat),
                decreases 2 * size - bs,
            {
                proof {
                    if m > kk {
                        lemma_pow2_strictly_increases(kk, m);
                    }
                    lemma_pow2_unfold(m);
                    lemma_pow2_unfold(m + 1);
                    lemma_pow2_pos(m);
                    lemma_quadrant_bound((x as int) % (bs as int), (bs as int) / 2);
                    lemma_quadrant_bound((y as int) % (bs as int), (bs as int) / 2);
                    lemma_pow2_adds((2 * (m - 1)) as nat, 2);
                    vstd::arithmetic::power2::lemma2_to64();
                    if 2 * m < 2 * kk {
                        lemma_pow2_strictly_increases((2 * m) as nat, (2 * kk) as nat);
                    }
                    lemma_pow2_adds(kk, kk);
                    assert(size * size <= 0x40000000) by (nonlinear_arith)
                        requires
                            size <= 32768,
                    ;
                }
                let half = bs / 2;
                let px = (x % bs) / half;
                let py = (y % bs) / half;
                let t: u32 = if px == 0 && py == 0 {
                    0
                } else if px == 1 && py == 0 {
                    2
                } else if px == 0 && py == 1 {
                    3
                } else {
                    1
                };
                val = val * 4 + t;
                bs = bs * 2;
                proof {
                    m = m + 1;
                }
            }
            proof {
                if m < kk {
                    lemma_pow2_strictly_increases(m, kk);
                }
                lemma_pow2_unfold((kk + 1) as nat);
                if m > kk + 1 {
                    lemma_pow2_strictly_increases((kk + 1) as nat, m);
                }
                assert(m == kk + 1);
            }
            let ghost pre = pattern@;
            pattern.set(x, y, val);
            proof {
                crate::pattern::lemma_grid_index(x as int, y as int, size as int, size as int);
                assert(pattern@[x as int + y as int * size as int] == val);
                assert forall|xx: int, yy: int|
                    0 <= xx < size && 0 <= yy < y implies #[trigger] pattern@[xx + yy * size]
                    == bayer_val(kk, xx, yy) by {
                    crate::pattern::lemma_grid_index(xx, yy, size as int, size as int);
                    lemma_row_major_distinct(xx, yy, x as int, y as int, size as int);
                }
                assert forall|xx: int|
                    0 <= xx < x + 1 implies #[trigger] pattern@[xx + y * size] == bayer_val(
                    kk,
                    xx,
                    y as int,
                ) by {
                    if xx < x {
                        lemma_row_major_distinct(xx, y as int, x as int, y as int, size as int);
                    }
                }
            }
            x = x + 1;
        }
        y = y + 1;
    }
    pattern
}

/// Two different grid coordinates never share a row-major index.
proof fn lemma_row_major_distinct(x1: int, y1: int, x2: int, y2: int, w: int)
    requires
        0 <= x1 < w,
        0 <= x2 < w,
        0 <= y1,
        0 <= y2,
        (x1, y1) != (x2, y2),
    ensures
        x1 + y1 * w != x2 + y2 * w,
{
    vstd::arithmetic::div_mod::lemma_fundamental_div_mod_converse(x1 + y1 * w, w, y1, x1);
    vstd::arithmetic::div_mod::lemma_fundamental_div_mod_converse(x2 + y2 * w, w, y2, x2);
}

} // verus!
