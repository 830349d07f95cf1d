//! Attempt scoring: the within-cluster error of a clustered point set.
//!
//! A point contributes the square root of its centroid distance scaled by
//! its weight; the attempt score is the sum over all points.  Lower is
//! better, and the optimizer keeps the best-scoring attempt.

use vstd::prelude::*;
use crate::colors::Centroid;
use crate::math::{isqrt, sqrt_floor, lemma_sqrt_floor_bounds};
use crate::points::ColorPoint;
use crate::update::lemma_movement_term_bound;

verus! {

/// The error one point contributes under a given centroid list.
pub open spec fn point_error(p: ColorPoint, cents: Seq<Centroid>) -> int {
    sqrt_floor(sqrt_floor(p.color.dist2(cents[p.seg as int])) * p.count)
}

/// Error summed over the first `n` points.
pub open spec fn error_prefix(ps: Seq<ColorPoint>, cents: Seq<Centroid>, n: int) -> int
    decreases n,
{
    if n <= 0 {
        0
    } else {
        error_prefix(ps, cents, n - 1) + point_error(ps[n - 1], cents)
    }
}

/// Total within-cluster error of a clustered point set.
pub open spec fn total_error(ps: Seq<ColorPoint>, cents: Seq<Centroid>) -> int {
    error_prefix(ps, cents, ps.len() as int)
}

/// Every single-point error fits comfortably in a machine word.
pub proof fn lemma_point_error_bound(p: ColorPoint, cents: Seq<Centroid>)
    requires
        p.seg < cents.len(),
        p.color.wf(),
        cents[p.seg as int].wf(),
    ensures
        0 <= point_error(p, cents) < 0x200000000000,
{
    lemma_movement_term_bound(p.color, cents[p.seg as int]);
    let d = sqrt_floor(p.color.dist2(cents[p.seg as int]));
    assert(0 <= d * p.count < 0x20000000000000000000000) by (nonlinear_arith)
        requires
            0 <= d < 0x2000000,
            0 <= p.count <= 0xffffffffffffffff,
    ;
    lemma_sqrt_floor_bounds(d * p.count);
    let r = sqrt_floor(d * p.count);
    if r >= 0x200000000000 {
        assert(r * r >= 0x40000000000000000000000) by (nonlinear_arith)
            requires
                r >= 0x200000000000,
        ;
    }
}

/// One assignment pass never worsens a point's contribution: moving to
/// the nearest centroid can only shrink the distance under the root.
pub proof fn lemma_assign_point_error(cents: Seq<Centroid>, p: ColorPoint)
    requires
        p.seg < cents.len(),
        cents.len() <= usize::MAX,
    ensures
        point_error(crate::assign::assign_point(cents, p), cents) <= point_error(p, cents),
{
    crate::assign::lemma_new_seg_props(cents, p);
    let q = crate::assign::assign_point(cents, p);
    let dq = q.color.dist2(cents[q.seg as int]);
    let dp = p.color.dist2(cents[p.seg as int]);
    crate::colors::lemma_dist2_nonneg(p.color, cents[q.seg as int]);
    crate::math::lemma_sqrt_floor_mono(dq, dp);
    crate::math::lemma_sqrt_floor_bounds(dq);
    assert(sqrt_floor(dq) * p.count <= sqrt_floor(dp) * p.count) by (nonlinear_arith)
        requires
            0 <= sqrt_floor(dq) <= sqrt_floor(dp),
            0 <= p.count,
    ;
    crate::math::lemma_sqrt_floor_mono(sqrt_floor(dq) * p.count, sqrt_floor(dp) * p.count);
}

pub proof fn lemma_assign_error_prefix(cents: Seq<Centroid>, ps: Seq<ColorPoint>, n: int)
    requires
        0 <= n <= ps.len(),
        forall|i: int| 0 <= i < ps.len() ==> (#[trigger] ps[i]).seg < cents.len(),
        cents.len() <= usize::MAX,
    ensures
        error_prefix(crate::assign::assign_all(cents, ps), cents, n) <= error_prefix(ps, cents, n),
    decreases n,
{
    if n > 0 {
        lemma_assign_error_prefix(cents, ps, n - 1);
        lemma_assign_point_error(cents, ps[n - 1]);
    }
}

/// The assignment step is monotone on the attempt score: re-assigning
/// every point to its nearest centroid never increases the total
/// within-cluster error.
///
/// This is the half of cycle-level monotonicity that holds for this
/// score.  The update half has no such theorem: centroid means minimize
/// the weighted *squared* objective, and a mean can raise the summed-root
/// score (two unit-weight points at distance d, one seed on a point:
/// score sqrt(d); mean between them: 2 sqrt(d / 2) > sqrt(d)).  The
/// update step is instead fixed exactly by `updated_cents`.
pub proof fn lemma_assignment_error_non_increasing(cents: Seq<Centroid>, ps: Seq<ColorPoint>)
    requires
        forall|i: int| 0 <= i < ps.len() ==> (#[trigger] ps[i]).seg < cents.len(),
        cents.len() <= usize::MAX,
    ensures
        total_error(crate::assign::assign_all(cents, ps), cents) <= total_error(ps, cents),
{
    lemma_assign_error_prefix(cents, ps, ps.len() as int);
}

/// Score one attempt: the total error of the points against the centroid
/// list they are assigned to.
pub fn measure_error(points: &Vec<ColorPoint>, cents: &Vec<Centroid>) -> (err: u128)
    requires
        points@.len() <= 16777216,
        forall|i: int| 0 <= i < points@.len() ==> (#[trigger] points@[i]).seg < cents@.len(),
        forall|i: int| 0 <= i < points@.len() ==> (#[trigger] points@[i]).color.wf(),
        forall|i: int| 0 <= i < cents@.len() ==> (#[trigger] cents@[i]).wf(),
    ensures
        err == total_error(points@, cents@),
{
    let n = points.len();
    let mut err: u128 = 0;
    let mut m: usize = 0;
    while m < n
        invariant
            n == points@.len(),
            n <= 16777216,
            m <= n,
            forall|i: int| 0 <= i < points@.len() ==> (#[trigger] points@[i]).seg < cents@.len(),
            forall|i: int| 0 <= i < points@.len() ==> (#[trigger] points@[i]).color.wf(),
            forall|i: int| 0 <= i < cents@.len() ==> (#[trigger] cents@[i]).wf(),
            err == error_prefix(points@, cents@, m as int),
            err <= m * 0x200000000000,
        decreases n - m,
    {
        let p = points[m];
        proof {
            lemma_point_error_bound(p, cents@);
            lemma_movement_term_bound(p.color, cents@[p.seg as int]);
        }
        let d2 = p.color.distance_squared(&cents[p.seg]);
        let d = isqrt(d2 as u128);
        proof {
            assert((d as int) * (p.count as int) < 0x20000000000000000000000
                && 0 <= (d as int) * (p.count as int)) by (nonlinear_arith)
                requires
                    0 <= d < 0x2000000,
                    0 <= p.count <= 0xffffffffffffffff,
            ;
        }
        let term = isqrt((d as u128) * (p.count as u128));
        err = err + term as u128;
        m = m + 1;
    }
    err
}

} // verus!
