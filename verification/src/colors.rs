//! Color values: integer palette colors and fixed-point color-space
//! positions used by the quantizer's centroids.
//!
//! A `Centroid` channel stores a color coordinate on the 0..=255 scale,
//! multiplied by `CHANNEL_SCALE` so that weighted means keep sub-integer
//! precision without floating point.

use vstd::prelude::*;

verus! {

/// Fixed-point scale of one channel step.
pub const CHANNEL_SCALE: u32 = 65536;

/// Largest representable channel position: 255 on the fixed-point scale.
pub const CHANNEL_MAX: u32 = 255 * 65536;

/// An RGB color with integer channels in 0..=255.
#[derive(Clone, Copy, PartialEq, Eq, Structural, Debug)]
pub struct IntColor {
    pub r: i32,
    pub g: i32,
    pub b: i32,
}

impl IntColor {
    pub open spec fn wf(self) -> bool {
        &&& 0 <= self.r <= 255
        &&& 0 <= self.g <= 255
        &&& 0 <= self.b <= 255
    }

    /// Luminance ordering key: the usual luma weights scaled by 1000.
    pub open spec fn lum_key(self) -> int {
        299 * self.r + 587 * self.g + 114 * self.b
    }

    pub open spec fn dist2(self, other: IntColor) -> int {
        (self.r - other.r) * (self.r - other.r) + (self.g - other.g) * (self.g - other.g) + (
        self.b - other.b) * (self.b - other.b)
    }

    pub fn new(r: i32, g: i32, b: i32) -> (c: IntColor)
        ensures
            c == (IntColor { r, g, b }),
    {
        IntColor { r, g, b }
    }

    /// Brightness key used to order palettes, ascending.
    pub fn luminocity(&self) -> (k: u32)
        requires
            self.wf(),
        ensures
            k == self.lum_key(),
    {
        (299 * self.r + 587 * self.g + 114 * self.b) as u32
    }

    pub fn distance_squared(&self, other: IntColor) -> (d: i32)
        requires
            self.wf(),
            other.wf(),
        ensures
            d == self.dist2(other),
    {
        let dr = self.r - other.r;
        let dg = self.g - other.g;
        let db = self.b - other.b;
        proof {
            lemma_square_bound(dr as int, 255);
            lemma_square_bound(dg as int, 255);
            lemma_square_bound(db as int, 255);
        }
        dr * dr + dg * dg + db * db
    }
}

proof fn lemma_square_bound(v: int, m: int)
    requires
        -m <= v <= m,
        0 <= m,
    ensures
        0 <= v * v <= m * m,
{
    assert(0 <= v * v <= m * m) by (nonlinear_arith)
        requires
            -m <= v <= m,
            0 <= m,
    ;
}

/// Squared distances are sums of squares, so never negative.
pub proof fn lemma_dist2_nonneg(a: Centroid, b: Centroid)
    ensures
        a.dist2(b) >= 0,
{
    assert((a.r - b.r) * (a.r - b.r) >= 0) by (nonlinear_arith);
    assert((a.g - b.g) * (a.g - b.g) >= 0) by (nonlinear_arith);
    assert((a.b - b.b) * (a.b - b.b) >= 0) by (nonlinear_arith);
}

/// Distinct positions are strictly apart: some channel differs, and its
/// square contributes at least one.
pub proof fn lemma_dist2_pos(a: Centroid, b: Centroid)
    requires
        a != b,
    ensures
        a.dist2(b) >= 1,
{
    assert((a.r - b.r) * (a.r - b.r) >= 0) by (nonlinear_arith);
    assert((a.g - b.g) * (a.g - b.g) >= 0) by (nonlinear_arith);
    assert((a.b - b.b) * (a.b - b.b) >= 0) by (nonlinear_arith);
    if a.r != b.r {
        assert((a.r - b.r) * (a.r - b.r) >= 1) by (nonlinear_arith)
            requires
                a.r != b.r,
        ;
    } else if a.g != b.g {
        assert((a.g - b.g) * (a.g - b.g) >= 1) by (nonlinear_arith)
            requires
                a.g != b.g,
        ;
    } else {
        assert((a.b - b.b) * (a.b - b.b) >= 1) by (nonlinear_arith)
            requires
                a.b != b.b,
        ;
    }
}

/// A position in color space on the fixed-point scale.
#[derive(Clone, Copy, PartialEq, Eq, Structural, Debug)]
pub struct Centroid {
    pub r: u32,
    pub g: u32,
    pub b: u32,
}

/// One channel of the palette color a centroid maps to: the fixed-point
/// position folded onto 0..=255, clipped at 255.
pub open spec fn pal_channel(c: u32) -> int {
    if c * 256 / (CHANNEL_MAX as int) > 255 {
        255
    } else {
        c * 256 / (CHANNEL_MAX as int)
    }
}

impl Centroid {
    pub open spec fn wf(self) -> bool {
        &&& self.r <= CHANNEL_MAX
        &&& self.g <= CHANNEL_MAX
        &&& self.b <= CHANNEL_MAX
    }

    pub open spec fn dist2(self, other: Centroid) -> int {
        (self.r - other.r) * (self.r - other.r) + (self.g - other.g) * (self.g - other.g) + (
        self.b - other.b) * (self.b - other.b)
    }

    pub open spec fn to_int_color(self) -> IntColor {
        IntColor {
            r: pal_channel(self.r) as i32,
            g: pal_channel(self.g) as i32,
            b: pal_channel(self.b) as i32,
        }
    }

    /// Squared Euclidean distance between two color-space positions.
    pub fn distance_squared(&self, other: &Centroid) -> (d: u64)
        requires
            self.wf(),
            other.wf(),
        ensures
            d == self.dist2(*other),
    {
        let dr: u64 = abs_diff_u32(self.r, other.r);
        let dg: u64 = abs_diff_u32(self.g, other.g);
        let db: u64 = abs_diff_u32(self.b, other.b);
        proof {
            lemma_abs_diff_square(self.r as int, other.r as int, dr as int);
            lemma_abs_diff_square(self.g as int, other.g as int, dg as int);
            lemma_abs_diff_square(self.b as int, other.b as int, db as int);
            lemma_square_bound(dr as int, CHANNEL_MAX as int);
            lemma_square_bound(dg as int, CHANNEL_MAX as int);
            lemma_square_bound(db as int, CHANNEL_MAX as int);
        }
        dr * dr + dg * dg + db * db
    }

    /// Quantize the position back to an integer palette color.
    pub fn to_palette_color(&self) -> (c: IntColor)
        requires
            self.wf(),
        ensures
            c == self.to_int_color(),
            c.wf(),
    {
        IntColor {
            r: pal_channel_exec(self.r),
            g: pal_channel_exec(self.g),
            b: pal_channel_exec(self.b),
        }
    }
}

fn abs_diff_u32(a: u32, b: u32) -> (d: u64)
    ensures
        d == if a >= b {
            a - b
        } else {
            b - a
        },
        d <= u32::MAX,
{
    if a >= b {
        (a - b) as u64
    } else {
        (b - a) as u64
    }
}

proof fn lemma_abs_diff_square(a: int, b: int, d: int)
    requires
        d == if a >= b {
            a - b
        } else {
            b - a
        },
    ensures
        d * d == (a - b) * (a - b),
{
    assert(d * d == (a - b) * (a - b)) by (nonlinear_arith)
        requires
            d == a - b || d == b - a,
    ;
}

fn pal_channel_exec(c: u32) -> (v: i32)
    requires
        c <= CHANNEL_MAX,
    ensures
        v == pal_channel(c),
        0 <= v <= 255,
{
    let wide: u64 = (c as u64) * 256 / (255 * 65536);
    if wide > 255 {
        255
    } else {
        wide as i32
    }
}

} // verus!
