//! Centroid update: each centroid moves to the weighted mean of the points
//! assigned to it; a centroid with no assigned weight keeps its color and
//! contributes nothing to the movement total.

use vstd::prelude::*;
use crate::colors::{Centroid, CHANNEL_MAX};
use crate::math::{isqrt, sqrt_floor, lemma_sqrt_floor_bounds};
use crate::points::ColorPoint;

verus! {

/// Sums over the first `n` points assigned to cluster `c`:
/// total weight, then the weighted r, g and b channel sums.
pub open spec fn seg_sums(ps: Seq<ColorPoint>, c: int, n: int) -> (int, int, int, int)
    decreases n,
{
    if n <= 0 {
        (0, 0, 0, 0)
    } else {
        let s = seg_sums(ps, c, n - 1);
        let p = ps[n - 1];
        if p.seg == c {
            (s.0 + p.count, s.1 + p.count * p.color.r, s.2 + p.count * p.color.g, s.3 + p.count
                * p.color.b)
        } else {
            s
        }
    }
}

/// The new position of centroid `c`: the weighted mean of its points, or
/// its old position when no weight is assigned to it.
pub open spec fn updated_cent(ps: Seq<ColorPoint>, old: Centroid, c: int) -> Centroid {
    let s = seg_sums(ps, c, ps.len() as int);
    if s.0 == 0 {
        old
    } else {
        Centroid { r: (s.1 / s.0) as u32, g: (s.2 / s.0) as u32, b: (s.3 / s.0) as u32 }
    }
}

/// All centroids after one update step.
pub open spec fn updated_cents(ps: Seq<ColorPoint>, old: Seq<Centroid>) -> Seq<Centroid> {
    Seq::new(old.len(), |c: int| updated_cent(ps, old[c], c))
}

/// Euclidean movement summed over the first `n` non-empty centroids.
pub open spec fn movement_prefix(ps: Seq<ColorPoint>, old: Seq<Centroid>, n: int) -> int
    decreases n,
{
    if n <= 0 {
        0
    } else {
        movement_prefix(ps, old, n - 1) + if seg_sums(ps, n - 1, ps.len() as int).0 == 0 {
            0int
        } else {
            sqrt_floor(old[n - 1].dist2(updated_cent(ps, old[n - 1], n - 1)))
        }
    }
}

/// Total centroid movement of one update step.
pub open spec fn movement(ps: Seq<ColorPoint>, old: Seq<Centroid>) -> int {
    movement_prefix(ps, old, old.len() as int)
}

/// The channel sums never exceed the weight scaled by the largest channel
/// position, so the weighted means stay on the color cube.
pub proof fn lemma_seg_sums_bounds(ps: Seq<ColorPoint>, c: int, n: int)
    requires
        n <= ps.len(),
        forall|i: int| 0 <= i < ps.len() ==> (#[trigger] ps[i]).color.wf(),
    ensures
        ({
            let s = seg_sums(ps, c, n);
            &&& 0 <= s.0
            &&& 0 <= s.1 <= s.0 * CHANNEL_MAX
            &&& 0 <= s.2 <= s.0 * CHANNEL_MAX
            &&& 0 <= s.3 <= s.0 * CHANNEL_MAX
        }),
    decreases n,
{
    if n > 0 {
        lemma_seg_sums_bounds(ps, c, n - 1);
        let p = ps[n - 1];
        if p.seg == c {
            assert(p.count * p.color.r <= p.count * CHANNEL_MAX && 0 <= p.count * p.color.r)
                by (nonlinear_arith)
                requires
                    0 <= p.count,
                    0 <= p.color.r <= CHANNEL_MAX,
            ;
            assert(p.count * p.color.g <= p.count * CHANNEL_MAX && 0 <= p.count * p.color.g)
                by (nonlinear_arith)
                requires
                    0 <= p.count,
                    0 <= p.color.g <= CHANNEL_MAX,
            ;
            assert(p.count * p.color.b <= p.count * CHANNEL_MAX && 0 <= p.count * p.color.b)
                by (nonlinear_arith)
                requires
                    0 <= p.count,
                    0 <= p.color.b <= CHANNEL_MAX,
            ;
        }
    }
}

/// An updated centroid is still a well-formed color position.
pub proof fn lemma_updated_cent_wf(ps: Seq<ColorPoint>, old: Centroid, c: int)
    requires
        old.wf(),
        forall|i: int| 0 <= i < ps.len() ==> (#[trigger] ps[i]).color.wf(),
    ensures
        updated_cent(ps, old, c).wf(),
{
    let s = seg_sums(ps, c, ps.len() as int);
    lemma_seg_sums_bounds(ps, c, ps.len() as int);
    if s.0 != 0 {
        lemma_mean_channel_bound(s.1, s.0);
        lemma_mean_channel_bound(s.2, s.0);
        lemma_mean_channel_bound(s.3, s.0);
    }
}

proof fn lemma_mean_channel_bound(sum: int, w: int)
    requires
        0 < w,
        0 <= sum <= w * CHANNEL_MAX,
    ensures
        0 <= sum / w <= CHANNEL_MAX,
{
    vstd::arithmetic::div_mod::lemma_div_is_ordered(sum, w * CHANNEL_MAX, w);
    vstd::arithmetic::div_mod::lemma_div_multiples_vanish(CHANNEL_MAX as int, w);
    vstd::arithmetic::div_mod::lemma_div_pos_is_pos(sum, w);
}

/// The distance between two well-formed positions stays on the cube, so
/// its square root is small.
pub proof fn lemma_movement_term_bound(a: Centroid, b: Centroid)
    requires
        a.wf(),
        b.wf(),
    ensures
        0 <= a.dist2(b) < 0x4000000000000,
        0 <= sqrt_floor(a.dist2(b)) < 0x2000000,
{
    assert(0 <= a.dist2(b) < 0x4000000000000) by (nonlinear_arith)
        requires
            a.wf(),
            b.wf(),
    ;
    let d = a.dist2(b);
    lemma_sqrt_floor_bounds(d);
    let r = sqrt_floor(d);
    if r >= 0x2000000 {
        assert(r * r >= 0x4000000000000) by (nonlinear_arith)
            requires
                r >= 0x2000000,
        ;
    }
}

/// One update pass over the centroid list, in place; returns the summed
/// movement of the non-empty centroids.
pub fn update_centroids(points: &Vec<ColorPoint>, cents: &mut Vec<Centroid>) -> (mv: u64)
    requires
        old(cents)@.len() <= 256,
        points@.len() <= 16777216,
        forall|i: int| 0 <= i < points@.len() ==> (#[trigger] points@[i]).color.wf(),
        forall|i: int| 0 <= i < old(cents)@.len() ==> (#[trigger] old(cents)@[i]).wf(),
    ensures
        final(cents)@ == updated_cents(points@, old(cents)@),
        mv == movement(points@, old(cents)@),
        forall|i: int| 0 <= i < final(cents)@.len() ==> (#[trigger] final(cents)@[i]).wf(),
{
    let k = cents.len();
    let n = points.len();
    let mut wsum: Vec<u128> = vec![0u128; k];
    let mut rsum: Vec<u128> = vec![0u128; k];
    let mut gsum: Vec<u128> = vec![0u128; k];
    let mut bsum: Vec<u128> = vec![0u128; k];

    let mut m: usize = 0;
    while m < n
        invariant
            n == points@.len(),
            n <= 16777216,
            m <= n,
            k == old(cents)@.len(),
            cents@ == old(cents)@,
            wsum@.len() == k && rsum@.len() == k && gsum@.len() == k && bsum@.len() == k,
            forall|i: int| 0 <= i < points@.len() ==> (#[trigger] points@[i]).color.wf(),
            forall|c: int|
                0 <= c < k ==> {
                    let s = seg_sums(points@, c, m as int);
                    &&& #[trigger] wsum@[c] == s.0
                    &&& rsum@[c] == s.1
                    &&& gsum@[c] == s.2
                    &&& bsum@[c] == s.3
                },
            forall|c: int|
                0 <= c < k ==> #[trigger] wsum@[c] <= m * 0xffffffffffffffff,
            forall|c: int|
                0 <= c < k ==> #[trigger] rsum@[c] <= m * 0xfeffffffffffffff010000,
            forall|c: int|
                0 <= c < k ==> #[trigger] gsum@[c] <= m * 0xfeffffffffffffff010000,
            forall|c: int|
                0 <= c < k ==> #[trigger] bsum@[c] <= m * 0xfeffffffffffffff010000,
        decreases n - m,
    {
        let p = points[m];
        if p.seg < k {
            let c = p.seg;
            proof {
                assert(p.count * p.color.r <= 0xfeffffffffffffff010000 && 0 <= p.count
                    * p.color.r) by (nonlinear_arith)
                    requires
                        0 <= p.count <= 0xffffffffffffffff,
                        0 <= p.color.r <= 0xff0000,
                ;
                assert(p.count * p.color.g <= 0xfeffffffffffffff010000 && 0 <= p.count
                    * p.color.g) by (nonlinear_arith)
                    requires
                        0 <= p.count <= 0xffffffffffffffff,
                        0 <= p.color.g <= 0xff0000,
                ;
                assert(p.count * p.color.b <= 0xfeffffffffffffff010000 && 0 <= p.count
                    * p.color.b) by (nonlinear_arith)
                    requires
                        0 <= p.count <= 0xffffffffffffffff,
                        0 <= p.color.b <= 0xff0000,
                ;
            }
            let w0 = wsum[c];
            wsum.set(c, w0 + p.count as u128);
            let r0 = rsum[c];
            rsum.set(c, r0 + (p.count as u128) * (p.color.r as u128));
            let g0 = gsum[c];
            gsum.set(c, g0 + (p.count as u128) * (p.color.g as u128));
            let b0 = bsum[c];
            bsum.set(c, b0 + (p.count as u128) * (p.color.b as u128));
        }
        proof {
            let mi = m as int;
            assert forall|cc: int|
                0 <= cc < k implies {
                let s = seg_sums(points@, cc, mi + 1);
                &&& #[trigger] wsum@[cc] == s.0
                &&& rsum@[cc] == s.1
                &&& gsum@[cc] == s.2
                &&& bsum@[cc] == s.3
            } by {
                let s = seg_sums(points@, cc, mi);
                let q = points@[mi];
                if q.seg == cc {
                    assert(seg_sums(points@, cc, mi + 1) == (
                        s.0 + q.count,
                        s.1 + q.count * q.color.r,
                        s.2 + q.count * q.color.g,
                        s.3 + q.count * q.color.b,
                    ));
                } else {
                    assert(seg_sums(points@, cc, mi + 1) == s);
                }
            }
        }
        m = m + 1;
    }

    let mut mv: u64 = 0;
    let ghost old_cents = cents@;
    let mut c: usize = 0;
    while c < k
        invariant
            k == old_cents.len(),
            k <= 256,
            c <= k,
            cents@.len() == k,
            n == points@.len(),
            wsum@.len() == k && rsum@.len() == k && gsum@.len() == k && bsum@.len() == k,
            forall|i: int| 0 <= i < points@.len() ==> (#[trigger] points@[i]).color.wf(),
            forall|i: int| 0 <= i < k ==> (#[trigger] old_cents[i]).wf(),
            forall|i: int|
                0 <= i < k ==> {
                    let s = seg_sums(points@, i, n as int);
                    &&& #[trigger] wsum@[i] == s.0
                    &&& rsum@[i] == s.1
                    &&& gsum@[i] == s.2
                    &&& bsum@[i] == s.3
                },
            forall|i: int|
                0 <= i < c ==> #[trigger] cents@[i] == updated_cent(points@, old_cents[i], i),
            forall|i: int| c <= i < k ==> #[trigger] cents@[i] == old_cents[i],
            forall|i: int| 0 <= i < c ==> (#[trigger] cents@[i]).wf(),
            mv == movement_prefix(points@, old_cents, c as int),
            mv <= c * 0x2000000,
        decreases k - c,
    {
        proof {
            lemma_seg_sums_bounds(points@, c as int, n as int);
        }
        if wsum[c] > 0 {
            let w = wsum[c];
            proof {
                lemma_mean_channel_bound(rsum@[c as int] as int, w as int);
                lemma_mean_channel_bound(gsum@[c as int] as int, w as int);
                lemma_mean_channel_bound(bsum@[c as int] as int, w as int);
            }
            let new_c = Centroid {
                r: (rsum[c] / w) as u32,
                g: (gsum[c] / w) as u32,
                b: (bsum[c] / w) as u32,
            };
            let old_c = cents[c];
            proof {
                lemma_movement_term_bound(old_c, new_c);
            }
            let d2 = old_c.distance_squared(&new_c);
            let step = isqrt(d2 as u128);
            mv = mv + step;
            cents.set(c, new_c);
        }
        c = c + 1;
    }
    mv
}

} // verus!
