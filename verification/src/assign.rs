//! Nearest-centroid assignment.
//!
//! Every point is re-assigned to the centroid nearest to it by squared
//! Euclidean distance.  The comparison starts from the point's current
//! assignment, so a tie keeps the incumbent; otherwise the lowest index
//! attaining the minimum wins.  The step is data-parallel: each point only
//! reads the shared centroid list and writes its own assignment.

use vstd::prelude::*;
use rayon::iter::{IntoParallelRefMutIterator, ParallelIterator};
use crate::colors::Centroid;
use crate::points::ColorPoint;

verus! {

/// Scan centroids from index `i` upward carrying the best candidate seen
/// so far; only a strictly smaller distance replaces it.
pub open spec fn scan_seg(cents: Seq<Centroid>, c: Centroid, i: int, best_d: int, best: int) -> (
    int,
    int,
)
    decreases cents.len() - i,
{
    if i < 0 || i >= cents.len() {
        (best_d, best)
    } else {
        let d = c.dist2(cents[i]);
        if d < best_d {
            scan_seg(cents, c, i + 1, d, i)
        } else {
            scan_seg(cents, c, i + 1, best_d, best)
        }
    }
}

/// The cluster a point lands in after one assignment pass.
pub open spec fn new_seg(cents: Seq<Centroid>, p: ColorPoint) -> int {
    scan_seg(cents, p.color, 0, p.color.dist2(cents[p.seg as int]), p.seg as int).1
}

/// A point after one assignment pass: only the assignment moves.
pub open spec fn assign_point(cents: Seq<Centroid>, p: ColorPoint) -> ColorPoint {
    ColorPoint { seg: new_seg(cents, p) as usize, ..p }
}

/// The whole point set after one assignment pass.
pub open spec fn assign_all(cents: Seq<Centroid>, ps: Seq<ColorPoint>) -> Seq<ColorPoint> {
    Seq::new(ps.len(), |i: int| assign_point(cents, ps[i]))
}

/// How many of the first `n` points change their assignment.
pub open spec fn changed_prefix(cents: Seq<Centroid>, ps: Seq<ColorPoint>, n: int) -> int
    decreases n,
{
    if n <= 0 {
        0
    } else {
        changed_prefix(cents, ps, n - 1) + if new_seg(cents, ps[n - 1]) != ps[n - 1].seg {
            1int
        } else {
            0int
        }
    }
}

/// How many points change their assignment in one pass.
pub open spec fn changed_count(cents: Seq<Centroid>, ps: Seq<ColorPoint>) -> int {
    changed_prefix(cents, ps, ps.len() as int)
}

/// The scan lands on a reachable centroid whose distance is a lower bound
/// for every centroid it visited, and only a strict improvement moves it.
pub proof fn lemma_scan_props(cents: Seq<Centroid>, c: Centroid, i: int, best_d: int, best: int)
    requires
        0 <= i,
        0 <= best < cents.len(),
        best_d == c.dist2(cents[best]),
    ensures
        ({
            let r = scan_seg(cents, c, i, best_d, best);
            &&& 0 <= r.1 < cents.len()
            &&& r.0 == c.dist2(cents[r.1])
            &&& r.0 <= best_d
            &&& (r.1 == best || r.0 < best_d)
            &&& forall|j: int| i <= j < cents.len() ==> r.0 <= c.dist2(cents[j])
        }),
    decreases cents.len() - i,
{
    if i < cents.len() {
        let d = c.dist2(cents[i]);
        if d < best_d {
            lemma_scan_props(cents, c, i + 1, d, i);
        } else {
            lemma_scan_props(cents, c, i + 1, best_d, best);
        }
    }
}

/// If the incumbent is already no farther than anything left to scan, the
/// scan keeps it.
pub proof fn lemma_scan_keeps(cents: Seq<Centroid>, c: Centroid, i: int, best_d: int, best: int)
    requires
        0 <= i,
        forall|j: int| i <= j < cents.len() ==> best_d <= c.dist2(cents[j]),
    ensures
        scan_seg(cents, c, i, best_d, best) == (best_d, best),
    decreases cents.len() - i,
{
    if i < cents.len() {
        lemma_scan_keeps(cents, c, i + 1, best_d, best);
    }
}

/// The assignment a pass gives a point is nearest among all centroids.
pub proof fn lemma_new_seg_props(cents: Seq<Centroid>, p: ColorPoint)
    requires
        p.seg < cents.len(),
    ensures
        0 <= new_seg(cents, p) < cents.len(),
        forall|j: int|
            0 <= j < cents.len() ==> p.color.dist2(cents[new_seg(cents, p)]) <= p.color.dist2(
                #[trigger] cents[j],
            ),
        p.color.dist2(cents[new_seg(cents, p)]) <= p.color.dist2(cents[p.seg as int]),
{
    lemma_scan_props(cents, p.color, 0, p.color.dist2(cents[p.seg as int]), p.seg as int);
}

/// Assigning an already-assigned point a second time changes nothing.
pub proof fn lemma_assign_point_idempotent(cents: Seq<Centroid>, p: ColorPoint)
    requires
        p.seg < cents.len(),
        cents.len() <= usize::MAX,
    ensures
        assign_point(cents, assign_point(cents, p)) == assign_point(cents, p),
{
    lemma_new_seg_props(cents, p);
    let q = assign_point(cents, p);
    let dq = q.color.dist2(cents[q.seg as int]);
    lemma_scan_keeps(cents, q.color, 0, dq, q.seg as int);
}

pub proof fn lemma_changed_prefix_nonneg(cents: Seq<Centroid>, ps: Seq<ColorPoint>, n: int)
    requires
        n <= ps.len(),
    ensures
        0 <= changed_prefix(cents, ps, n),
    decreases n,
{
    if n > 0 {
        lemma_changed_prefix_nonneg(cents, ps, n - 1);
    }
}

pub proof fn lemma_changed_zero_pointwise(cents: Seq<Centroid>, ps: Seq<ColorPoint>, n: int)
    requires
        0 <= n <= ps.len(),
        changed_prefix(cents, ps, n) == 0,
    ensures
        forall|i: int| 0 <= i < n ==> new_seg(cents, #[trigger] ps[i]) == ps[i].seg,
    decreases n,
{
    if n > 0 {
        lemma_changed_prefix_nonneg(cents, ps, n - 1);
        lemma_changed_zero_pointwise(cents, ps, n - 1);
    }
}

pub proof fn lemma_all_unchanged_changed_zero(cents: Seq<Centroid>, ps: Seq<ColorPoint>, n: int)
    requires
        0 <= n <= ps.len(),
        forall|i: int| 0 <= i < n ==> new_seg(cents, #[trigger] ps[i]) == ps[i].seg,
    ensures
        changed_prefix(cents, ps, n) == 0,
    decreases n,
{
    if n > 0 {
        lemma_all_unchanged_changed_zero(cents, ps, n - 1);
    }
}

/// A pass that reports no change leaves the point set as it was.
pub proof fn lemma_no_change_fixpoint(cents: Seq<Centroid>, ps: Seq<ColorPoint>)
    requires
        forall|i: int| 0 <= i < ps.len() ==> (#[trigger] ps[i]).seg < cents.len(),
        changed_count(cents, ps) == 0,
    ensures
        assign_all(cents, ps) == ps,
{
    lemma_changed_zero_pointwise(cents, ps, ps.len() as int);
    assert(assign_all(cents, ps) =~= ps);
}

/// The assignment step is idempotent: once a pass has run, an immediately
/// repeated pass moves no point and reports zero changes.
pub proof fn lemma_assignment_idempotent(cents: Seq<Centroid>, ps: Seq<ColorPoint>)
    requires
        forall|i: int| 0 <= i < ps.len() ==> (#[trigger] ps[i]).seg < cents.len(),
        cents.len() <= usize::MAX,
    ensures
        assign_all(cents, assign_all(cents, ps)) == assign_all(cents, ps),
        changed_count(cents, assign_all(cents, ps)) == 0,
{
    let qs = assign_all(cents, ps);
    assert forall|i: int|
        0 <= i < qs.len() implies (#[trigger] qs[i]).seg < cents.len() && new_seg(cents, qs[i])
        == qs[i].seg by {
        lemma_new_seg_props(cents, ps[i]);
        lemma_assign_point_idempotent(cents, ps[i]);
        lemma_new_seg_props(cents, qs[i]);
        assert(assign_point(cents, qs[i]) == qs[i]);
    }
    lemma_all_unchanged_changed_zero(cents, qs, qs.len() as int);
    lemma_no_change_fixpoint(cents, qs);
}

/// One sequential assignment of a single point; the parallel pass applies
/// exactly this function to every point.
pub fn reassign(p: &mut ColorPoint, cents: &Vec<Centroid>) -> (changed: bool)
    requires
        old(p).seg < cents@.len(),
        old(p).color.wf(),
        forall|i: int| 0 <= i < cents@.len() ==> (#[trigger] cents@[i]).wf(),
    ensures
        *final(p) == assign_point(cents@, *old(p)),
        changed == (final(p).seg != old(p).seg),
{
    let c = p.color;
    let s0 = p.seg;
    let mut best = s0;
    let mut best_d = c.distance_squared(&cents[s0]);
    let mut i: usize = 0;
    while i < cents.len()
        invariant
            0 <= i <= cents@.len(),
            0 <= best < cents@.len(),
            s0 < cents@.len(),
            c == old(p).color,
            s0 == old(p).seg,
            c.wf(),
            forall|j: int| 0 <= j < cents@.len() ==> (#[trigger] cents@[j]).wf(),
            best_d == c.dist2(cents@[best as int]),
            scan_seg(cents@, c, i as int, best_d as int, best as int) == scan_seg(
                cents@,
                c,
                0,
                c.dist2(cents@[s0 as int]),
                s0 as int,
            ),
            *p == *old(p),
        decreases cents@.len() - i,
    {
        let d = c.distance_squared(&cents[i]);
        if d < best_d {
            best_d = d;
            best = i;
        }
        i = i + 1;
    }
    let changed = best != p.seg;
    p.seg = best;
    changed
}

/// Relies on rayon's `par_iter_mut` with `map` and `sum`: it applies the
/// closure - one call of the verified `reassign` - to every element of the
/// vector independently and returns the sum of the mapped values, here the
/// number of points whose assignment changed.
#[verifier::external_body]
pub(crate) fn reassign_all_par(points: &mut Vec<ColorPoint>, cents: &Vec<Centroid>) -> (changed:
    u64)
    requires
        cents@.len() > 0,
        forall|i: int|
            0 <= i < old(points)@.len() ==> (#[trigger] old(points)@[i]).seg < cents@.len(),
        forall|i: int| 0 <= i < old(points)@.len() ==> (#[trigger] old(points)@[i]).color.wf(),
        forall|i: int| 0 <= i < cents@.len() ==> (#[trigger] cents@[i]).wf(),
    ensures
        final(points)@ == assign_all(cents@, old(points)@),
        changed == changed_count(cents@, old(points)@),
{
    points.par_iter_mut().map(|p| if reassign(p, cents) { 1u64 } else { 0u64 }).sum()
}

} // verus!
