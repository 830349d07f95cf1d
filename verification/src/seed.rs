//! Distance-proportional seeding support.
//!
//! During seeding every point carries a cache of the squared distance to
//! its nearest already-chosen centroid.  One step folds the latest chosen
//! centroid into the caches of the remaining suffix and sums them; the
//! next centroid is then drawn with probability proportional to the cache.

use vstd::prelude::*;
use crate::colors::Centroid;
use crate::points::ColorPoint;
use crate::rng::{next_state, spec_below_wide};

verus! {

/// One point after folding `cent` into its cache: the cache drops to the
/// squared distance to `cent` when that is nearer; nothing else moves.
pub open spec fn refresh_point(p: ColorPoint, cent: Centroid) -> ColorPoint {
    let d = p.color.dist2(cent);
    if d < p.dist {
        ColorPoint { dist: d as u64, ..p }
    } else {
        p
    }
}

/// The point set with every cache reset to the maximal sentinel.
pub open spec fn reset_caches(ps: Seq<ColorPoint>) -> Seq<ColorPoint> {
    Seq::new(ps.len(), |i: int| ColorPoint { dist: u64::MAX, ..ps[i] })
}

/// The point set after folding `cent` into the caches of `start..`.
pub open spec fn refreshed(ps: Seq<ColorPoint>, start: int, cent: Centroid) -> Seq<ColorPoint> {
    Seq::new(
        ps.len(),
        |i: int|
            if i < start {
                ps[i]
            } else {
                refresh_point(ps[i], cent)
            },
    )
}

/// Two positions of the point set exchanged.
pub open spec fn swap_seq(ps: Seq<ColorPoint>, a: int, b: int) -> Seq<ColorPoint> {
    ps.update(a, ps[b]).update(b, ps[a])
}

/// Where the threshold walk stops: the first point of the suffix whose
/// cache exceeds what is left of the threshold.
pub open spec fn pick_from(ps: Seq<ColorPoint>, j: int, t: int) -> int
    decreases ps.len() - j,
{
    if j < 0 || j >= ps.len() {
        ps.len() as int
    } else if ps[j].dist > t {
        j
    } else {
        pick_from(ps, j + 1, t - ps[j].dist)
    }
}

/// One seeding draw for position `c`: fold the latest chosen centroid
/// into the suffix caches, then draw a threshold proportional to their
/// sum, walk to the drawn point and swap it into place.  With no cache
/// weight left, the point already in place is kept and nothing is drawn.
pub open spec fn seed_step(ps: Seq<ColorPoint>, r: u64, c: int) -> (Seq<ColorPoint>, u64) {
    let rf = refreshed(ps, c, ps[c - 1].color);
    let s = dist_sum(rf, c);
    if s == 0 {
        (rf, r)
    } else {
        let t = spec_below_wide(r, s as u128);
        (swap_seq(rf, c, pick_from(rf, c, t as int)), next_state(next_state(r)))
    }
}

/// The seeding state once positions `1 .. c` are chosen.
pub open spec fn seed_iter(ps: Seq<ColorPoint>, r: u64, c: int) -> (Seq<ColorPoint>, u64)
    decreases c,
{
    if c <= 1 {
        (ps, r)
    } else {
        let prev = seed_iter(ps, r, c - 1);
        seed_step(prev.0, prev.1, c - 1)
    }
}

/// The whole seeding pass over a point set of the generator state `r`:
/// reset every cache, choose the first seed uniformly by index, then run
/// the proportional draws for the remaining `k - 1` positions.
pub open spec fn seeded(ps: Seq<ColorPoint>, r: u64, k: int) -> (Seq<ColorPoint>, u64) {
    let reset = reset_caches(ps);
    let j0 = next_state(r) % (ps.len() as u64);
    let sw = swap_seq(reset, 0, j0 as int);
    seed_iter(sw, next_state(r), k)
}

/// Sum of the distance caches over `start .. n`.
pub open spec fn dist_suffix(ps: Seq<ColorPoint>, start: int, n: int) -> int
    decreases n - start,
{
    if n <= start {
        0
    } else {
        dist_suffix(ps, start, n - 1) + ps[n - 1].dist
    }
}

/// Sum of the distance caches of the whole remaining suffix.
pub open spec fn dist_sum(ps: Seq<ColorPoint>, start: int) -> int {
    dist_suffix(ps, start, ps.len() as int)
}

pub proof fn lemma_dist_suffix_parts_equal(a: Seq<ColorPoint>, b: Seq<ColorPoint>, start: int, n: int)
    requires
        n <= a.len(),
        n <= b.len(),
        forall|j: int| start <= j < n ==> a[j].dist == b[j].dist,
    ensures
        dist_suffix(a, start, n) == dist_suffix(b, start, n),
    decreases n - start,
{
    if n > start {
        lemma_dist_suffix_parts_equal(a, b, start, n - 1);
    }
}

pub proof fn lemma_dist_suffix_bound(ps: Seq<ColorPoint>, start: int, n: int)
    requires
        n <= ps.len(),
    ensures
        0 <= dist_suffix(ps, start, n),
        dist_suffix(ps, start, n) <= (if n <= start {
            0int
        } else {
            (n - start) * 0xffffffffffffffff
        }),
    decreases n - start,
{
    if n > start {
        lemma_dist_suffix_bound(ps, start, n - 1);
    }
}

/// Fold the latest chosen centroid into the caches of `start..` and return
/// the summed caches of that suffix.
pub fn refresh_dists(points: &mut Vec<ColorPoint>, start: usize, cent: Centroid) -> (sum: u128)
    requires
        start <= old(points)@.len(),
        old(points)@.len() <= 16777216,
        forall|i: int| 0 <= i < old(points)@.len() ==> (#[trigger] old(points)@[i]).color.wf(),
        cent.wf(),
    ensures
        final(points)@.len() == old(points)@.len(),
        forall|j: int| 0 <= j < start ==> final(points)@[j] == old(points)@[j],
        forall|j: int|
            start <= j < final(points)@.len() ==> final(points)@[j] == refresh_point(
                old(points)@[j],
                cent,
            ),
        sum == dist_sum(final(points)@, start as int),
{
    let n = points.len();
    let mut sum: u128 = 0;
    let mut i: usize = start;
    while i < n
        invariant
            n == points@.len(),
            n <= 16777216,
            start <= i <= n,
            cent.wf(),
            forall|j: int| 0 <= j < n ==> (#[trigger] points@[j]).color.wf(),
            forall|j: int| 0 <= j < start ==> points@[j] == old(points)@[j],
            forall|j: int|
                start <= j < i ==> points@[j] == refresh_point(old(points)@[j], cent),
            forall|j: int| i <= j < n ==> points@[j] == old(points)@[j],
            sum == dist_suffix(points@, start as int, i as int),
            sum <= (i - start) * 0xffffffffffffffff,
        decreases n - i,
    {
        let p = points[i];
        let ghost pre = points@;
        let d = p.color.distance_squared(&cent);
        if d < p.dist {
            points.set(i, ColorPoint { dist: d, ..p });
        }
        proof {
            lemma_dist_suffix_parts_equal(points@, pre, start as int, i as int);
        }
        let q = points[i];
        sum = sum + q.dist as u128;
        i = i + 1;
    }
    sum
}

/// Walk the suffix accumulating caches; the first point whose running
/// total passes the threshold is the one drawn.
pub fn pick_by_dist(points: &Vec<ColorPoint>, start: usize, threshold: u128) -> (j: usize)
    requires
        start < points@.len(),
        points@.len() <= 16777216,
        threshold < dist_sum(points@, start as int),
    ensures
        start <= j < points@.len(),
        dist_suffix(points@, start as int, j as int) <= threshold,
        threshold < dist_suffix(points@, start as int, j as int + 1),
        j == pick_from(points@, start as int, threshold as int),
{
    let n = points.len();
    let mut acc: u128 = 0;
    let mut j: usize = start;
    while j < n
        invariant
            n == points@.len(),
            n <= 16777216,
            start <= j <= n,
            acc == dist_suffix(points@, start as int, j as int),
            acc <= threshold,
            threshold < dist_sum(points@, start as int),
            pick_from(points@, start as int, threshold as int) == pick_from(
                points@,
                j as int,
                threshold - acc,
            ),
        decreases n - j,
    {
        proof {
            lemma_dist_suffix_bound(points@, start as int, j as int);
            lemma_dist_suffix_bound(points@, start as int, n as int);
        }
        acc = acc + points[j].dist as u128;
        if acc > threshold {
            return j;
        }
        j = j + 1;
    }
    proof {
        assert(false);
    }
    start
}

} // verus!
