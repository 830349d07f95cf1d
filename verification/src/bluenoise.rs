//! Support for blue-noise dither patterns: the ranked point list produced
//! by a void-and-cluster generator is folded into a threshold pattern.

use vstd::prelude::*;
use crate::pattern::{lemma_grid_index, Pattern};

verus! {

/// A grid position.
#[derive(Clone, Copy, PartialEq, Eq, Structural, Debug)]
pub struct Point {
    pub x: u32,
    pub y: u32,
}

/// The row-major cell a point occupies.
pub open spec fn pt_cell(p: Point, width: u32) -> int {
    p.x + p.y * width
}

/// The threshold level of the `i`-th ranked point among `n`, spread
/// evenly over `levels` levels.
pub open spec fn rank_level(i: int, n: int, levels: u32) -> int {
    i * levels / n
}

/// Fold a ranked point list into a pattern: the `i`-th point's cell gets
/// level `i * levels / n`, every untouched cell stays zero.
pub fn pattern_from_points(points: &Vec<Point>, width: u32, height: u32, levels: u32) -> (p:
    Pattern)
    requires
        width * height <= usize::MAX,
        1 <= points@.len() <= u32::MAX,
        levels >= 1,
        forall|i: int|
            0 <= i < points@.len() ==> (#[trigger] points@[i]).x < width && points@[i].y < height,
        forall|i: int, j: int|
            0 <= i < j < points@.len() ==> pt_cell(#[trigger] points@[i], width) != pt_cell(
                #[trigger] points@[j],
                width,
            ),
    ensures
        p.wf(),
        p.width == width,
        p.height == height,
        p.levels == levels,
        forall|i: int|
            0 <= i < points@.len() ==> #[trigger] p@[pt_cell(points@[i], width)] == rank_level(
                i,
                points@.len() as int,
                levels,
            ),
        forall|c: int|
            0 <= c < p@.len() && p@[c] != 0 ==> exists|i: int|
                0 <= i < points@.len() && c == pt_cell(#[trigger] points@[i], width),
{
    let n = points.len();
    let mut pattern = Pattern::new(width, height, levels);
    let mut t: usize = 0;
    while t < n
        invariant
            n == points@.len(),
            1 <= n <= u32::MAX,
            levels >= 1,
            t <= n,
            pattern.wf(),
            pattern.width == width,
            pattern.height == height,
            pattern.levels == levels,
            forall|i: int|
                0 <= i < points@.len() ==> (#[trigger] points@[i]).x < width && points@[i].y
                    < height,
            forall|i: int, j: int|
                0 <= i < j < points@.len() ==> pt_cell(#[trigger] points@[i], width) != pt_cell(
                    #[trigger] points@[j],
                    width,
                ),
            forall|i: int|
                0 <= i < t ==> #[trigger] pattern@[pt_cell(points@[i], width)] == rank_level(
                    i,
                    n as int,
                    levels,
                ),
            forall|c: int|
                0 <= c < pattern@.len() && pattern@[c] != 0 ==> exists|i: int|
                    0 <= i < t && c == pt_cell(#[trigger] points@[i], width),
        decreases n - t,
    {
        let pt = points[t];
        proof {
            assert((t as int) * (levels as int) <= 0xffffffffint * 0xffffffffint
                && 0 <= (t as int) * (levels as int)) by (nonlinear_arith)
                requires
                    0 <= t <= 0xffffffff,
                    0 <= levels <= 0xffffffff,
            ;
        }
        let level_wide: u64 = (t as u64) * (levels as u64) / (n as u64);
        proof {
            vstd::arithmetic::div_mod::lemma_div_pos_is_pos((t as int) * (levels as int), n as int);
            assert((t as int) * (levels as int) <= ((n as int) - 1) * (levels as int))
                by (nonlinear_arith)
                requires
                    t < n,
                    levels >= 0,
            ;
            vstd::arithmetic::div_mod::lemma_div_is_ordered(
                (t as int) * (levels as int),
                ((n as int) - 1) * (levels as int),
                n as int,
            );
            assert(((n as int) - 1) * (levels as int) < (n as int) * (levels as int))
                by (nonlinear_arith)
                requires
                    levels >= 1,
                    n >= 1,
            ;
            vstd::arithmetic::div_mod::lemma_multiply_divide_lt(
                ((n as int) - 1) * (levels as int),
                n as int,
                levels as int,
            );
        }
        let level: u32 = level_wide as u32;
        let ghost pre = pattern@;
        pattern.set(pt.x, pt.y, level);
        proof {
            lemma_grid_index(pt.x as int, pt.y as int, width as int, height as int);
            assert forall|i: int|
                0 <= i < t + 1 implies #[trigger] pattern@[pt_cell(points@[i], width)]
                == rank_level(i, n as int, levels) by {
                lemma_grid_index(
                    points@[i].x as int,
                    points@[i].y as int,
                    width as int,
                    height as int,
                );
            }
        }
        t = t + 1;
    }
    pattern
}

} // verus!
