//! Weighted sample points: one per distinct observed color.
//!
//! The histogram is folded into a sequence of `ColorPoint`s in cell order
//! (increasing r, then g, then b), so the derivation is reproducible.

use vstd::prelude::*;
use crate::colors::Centroid;
use crate::histogram::HIST_CELLS;

verus! {

/// One weighted sample: a distinct observed color, its pixel count, its
/// current cluster assignment and the seeding distance cache.
#[derive(Clone, Copy, PartialEq, Eq, Structural, Debug)]
pub struct ColorPoint {
    pub color: Centroid,
    pub count: u64,
    pub seg: usize,
    pub dist: u64,
}

/// The fixed-point color-space position of histogram cell `idx`.
pub open spec fn cell_color(idx: int) -> Centroid {
    Centroid {
        r: ((idx / 65536) * 65536) as u32,
        g: (((idx / 256) % 256) * 65536) as u32,
        b: ((idx % 256) * 65536) as u32,
    }
}

/// The fresh sample point for cell `idx` holding `count` pixels.
pub open spec fn cell_point(idx: int, count: u64) -> ColorPoint {
    ColorPoint { color: cell_color(idx), count: count, seg: 0, dist: u64::MAX }
}

/// Sample points of the first `n` histogram cells: one per nonzero cell,
/// in cell order.
pub open spec fn points_of(hist: Seq<u64>, n: int) -> Seq<ColorPoint>
    decreases n,
{
    if n <= 0 {
        Seq::empty()
    } else if hist[n - 1] > 0 {
        points_of(hist, n - 1).push(cell_point(n - 1, hist[n - 1]))
    } else {
        points_of(hist, n - 1)
    }
}

/// Pixel weight held by the first `n` points.
pub open spec fn weight_prefix(ps: Seq<ColorPoint>, n: int) -> int
    decreases n,
{
    if n <= 0 {
        0
    } else {
        weight_prefix(ps, n - 1) + ps[n - 1].count
    }
}

/// Total pixel weight of a point sequence.
pub open spec fn total_weight(ps: Seq<ColorPoint>) -> int {
    weight_prefix(ps, ps.len() as int)
}

pub proof fn lemma_weight_prefix_parts_equal(a: Seq<ColorPoint>, b: Seq<ColorPoint>, n: int)
    requires
        n <= a.len(),
        n <= b.len(),
        forall|j: int| 0 <= j < n ==> a[j].count == b[j].count,
    ensures
        weight_prefix(a, n) == weight_prefix(b, n),
    decreases n,
{
    if n > 0 {
        lemma_weight_prefix_parts_equal(a, b, n - 1);
    }
}

pub proof fn lemma_weight_push(ps: Seq<ColorPoint>, p: ColorPoint)
    ensures
        total_weight(ps.push(p)) == total_weight(ps) + p.count,
{
    lemma_weight_prefix_parts_equal(ps.push(p), ps, ps.len() as int);
}

pub proof fn lemma_weight_prefix_nonneg(ps: Seq<ColorPoint>, n: int)
    requires
        n <= ps.len(),
    ensures
        0 <= weight_prefix(ps, n),
    decreases n,
{
    if n > 0 {
        lemma_weight_prefix_nonneg(ps, n - 1);
    }
}

/// The derived point set carries exactly the histogram's pixel weight.
pub proof fn lemma_points_of_weight(hist: Seq<u64>, n: int)
    requires
        0 <= n <= hist.len(),
    ensures
        total_weight(points_of(hist, n)) == crate::histogram::sum_prefix(hist, n),
    decreases n,
{
    if n > 0 {
        lemma_points_of_weight(hist, n - 1);
        if hist[n - 1] > 0 {
            lemma_weight_push(points_of(hist, n - 1), cell_point(n - 1, hist[n - 1]));
        }
    }
}

/// Shape facts about the derived points: there are at most as many points
/// as cells, and every point is a fresh, well-formed sample.
pub proof fn lemma_points_of_shape(hist: Seq<u64>, n: int)
    requires
        0 <= n <= HIST_CELLS,
        hist.len() == HIST_CELLS,
    ensures
        points_of(hist, n).len() <= n,
        forall|j: int|
            0 <= j < points_of(hist, n).len() ==> {
                let p = #[trigger] points_of(hist, n)[j];
                p.count >= 1 && p.seg == 0 && p.dist == u64::MAX && p.color.wf()
            },
    decreases n,
{
    if n > 0 {
        lemma_points_of_shape(hist, n - 1);
        if hist[n - 1] > 0 {
            lemma_cell_color_wf(n - 1);
        }
    }
}

pub proof fn lemma_cell_color_wf(idx: int)
    requires
        0 <= idx < HIST_CELLS,
    ensures
        cell_color(idx).wf(),
{
    vstd::arithmetic::div_mod::lemma_fundamental_div_mod(idx, 65536);
    assert(idx / 65536 <= 255);
}

} // verus!
