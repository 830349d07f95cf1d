//! The quantizer driver: multi-restart Lloyd's algorithm over the
//! weighted sample points.
//!
//! Each attempt seeds centroids by distance-proportional sampling, then
//! alternates assignment and update steps until no point changes cluster
//! or the step budget runs out; the attempt with the lowest error keeps
//! its palette, which is finally sorted by luminance.

use vstd::prelude::*;
use crate::assign::{
    assign_all, changed_count, lemma_new_seg_props, reassign_all_par,
};
use crate::colors::Centroid;
use crate::histogram::{ColorData, HIST_CELLS};
use crate::interface::ProgressSink;
use crate::palette::{palette_of, sel_sorted, sorted_by_lum, Palette};
use crate::points::{
    cell_point, lemma_points_of_shape, lemma_points_of_weight, lemma_weight_prefix_parts_equal,
    points_of, total_weight, weight_prefix, ColorPoint,
};
use crate::rng::{next_state, Rng};
use crate::score::{measure_error, total_error};
use crate::seed::{
    dist_suffix, dist_sum, pick_by_dist, refresh_dists, refreshed, reset_caches, seed_iter,
    seed_step, seeded, swap_seq,
};
use crate::update::{movement, update_centroids, updated_cents};

verus! {

/// The one refusal the quantizer knows: no pixel data was supplied, so
/// there is nothing to cluster.
#[derive(Clone, Copy, PartialEq, Eq, Structural, Debug)]
pub enum CalcError {
    NoData,
}

/// The requested palette size folded into 1..=256.
pub open spec fn clamp_colors(c: u32) -> int {
    if c < 1 {
        1
    } else if c > 256 {
        256
    } else {
        c as int
    }
}

/// The effective palette size: the clamped request, further capped by the
/// number of distinct observed colors.
pub open spec fn effective_colors(c: u32, distinct: int) -> int {
    if clamp_colors(c) > distinct {
        distinct
    } else {
        clamp_colors(c)
    }
}

/// What identifies a sample point across reordering: its color and its
/// weight.  Seeding permutes points and rewrites their scratch caches,
/// but the multiset of cores never changes.
pub open spec fn point_core(p: ColorPoint) -> (Centroid, u64) {
    (p.color, p.count)
}

/// The cores of a point sequence, in order.
pub open spec fn cores(ps: Seq<ColorPoint>) -> Seq<(Centroid, u64)> {
    ps.map_values(|p: ColorPoint| point_core(p))
}

/// The multi-restart k-means optimizer over one weighted point set.
pub struct ColorCalc {
    /// One weighted sample per distinct observed color.
    pub points: Vec<ColorPoint>,
    /// Current centroid positions; the length is the effective palette size.
    pub centroids: Vec<Centroid>,
    /// The palette size as requested, before clamping.
    pub colors: u32,
    /// Number of sample points.
    pub point_count: u64,
    /// Centroid movement of the latest update step.
    pub total_distance: u64,
    /// Points that changed cluster in the latest assignment step.
    pub points_changed: u64,
    /// Restart budget.
    pub max_attempts: u32,
    /// Step budget per attempt.
    pub max_steps: u32,
    /// Error of the best attempt seen so far.
    pub best_error: u128,
    /// Palette of the best attempt seen so far.
    pub best_palette: Palette,
    /// Error of every finished attempt, in attempt order.
    pub attempt_errors: Vec<u128>,
    /// Seeded generator driving the centroid seeding draws.
    pub rng: Rng,
    /// The centroid list the best palette was derived from.
    pub best_cents: Ghost<Seq<Centroid>>,
    /// The clustered point set the best error was measured on.
    pub best_points: Ghost<Seq<ColorPoint>>,
}

impl ColorCalc {
    /// The effective palette size this run works toward.
    pub open spec fn k(self) -> int {
        self.centroids@.len() as int
    }

    pub open spec fn wf(self) -> bool {
        &&& 1 <= self.k() <= 256
        &&& self.k() <= self.points@.len()
        &&& self.points@.len() <= HIST_CELLS
        &&& self.point_count == self.points@.len()
        &&& forall|i: int|
            0 <= i < self.points@.len() ==> (#[trigger] self.points@[i]).seg < self.k()
        &&& forall|i: int| 0 <= i < self.points@.len() ==> (#[trigger] self.points@[i]).color.wf()
        &&& forall|i: int| 0 <= i < self.points@.len() ==> (#[trigger] self.points@[i]).count >= 1
        &&& forall|i: int|
            0 <= i < self.centroids@.len() ==> (#[trigger] self.centroids@[i]).wf()
        &&& total_weight(self.points@) <= u64::MAX
    }

    /// Build the optimizer from a histogram: derive one weighted point per
    /// distinct color, clamp the requested palette size, and seed the
    /// generator.  Refuses to run when the histogram holds no pixels.
    pub fn new(
        color_count: u32,
        colors: ColorData,
        max_attempts: u32,
        max_steps: u32,
        seed: u64,
    ) -> (r: Result<ColorCalc, CalcError>)
        requires
            colors.wf(),
            colors.total() <= u64::MAX,
        ensures
            r is Err <==> points_of(colors.data@, HIST_CELLS as int).len() == 0,
            match r {
                Ok(cc) => {
                    &&& cc.wf()
                    &&& cc.points@ == points_of(colors.data@, HIST_CELLS as int)
                    &&& cc.k() == effective_colors(
                        color_count,
                        points_of(colors.data@, HIST_CELLS as int).len() as int,
                    )
                    &&& total_weight(cc.points@) == colors.total()
                    &&& cc.colors == color_count
                    &&& cc.max_attempts == max_attempts
                    &&& cc.max_steps == max_steps
                    &&& cc.rng.state == seed
                    &&& cc.attempt_errors@.len() == 0
                },
                Err(e) => e == CalcError::NoData,
            },
    {
        let mut points: Vec<ColorPoint> = Vec::new();
        let mut idx: usize = 0;
        while idx < HIST_CELLS
            invariant
                idx <= HIST_CELLS,
                colors.wf(),
                points@ == points_of(colors.data@, idx as int),
                points@.len() <= idx,
            decreases HIST_CELLS - idx,
        {
            let count = colors.data[idx];
            if count > 0 {
                let r = idx / 65536;
                let g = (idx / 256) % 256;
                let b = idx % 256;
                proof {
                    vstd::arithmetic::div_mod::lemma_fundamental_div_mod(idx as int, 65536);
                }
                let color = Centroid {
                    r: (r * 65536) as u32,
                    g: (g * 65536) as u32,
                    b: (b * 65536) as u32,
                };
                let p = ColorPoint { color, count, seg: 0, dist: u64::MAX };
                proof {
                    assert(p == cell_point(idx as int, count));
                }
                points.push(p);
            }
            idx = idx + 1;
        }
        proof {
            lemma_points_of_shape(colors.data@, HIST_CELLS as int);
            lemma_points_of_weight(colors.data@, HIST_CELLS as int);
        }
        if points.len() == 0 {
            return Err(CalcError::NoData);
        }

        let clamped: usize = if color_count < 1 {
            1
        } else if color_count > 256 {
            256
        } else {
            color_count as usize
        };
        let k: usize = if clamped > points.len() {
            points.len()
        } else {
            clamped
        };

        let mut centroids: Vec<Centroid> = Vec::new();
        while centroids.len() < k
            invariant
                centroids@.len() <= k,
                forall|i: int| 0 <= i < centroids@.len() ==> (#[trigger] centroids@[i]).wf(),
            decreases k - centroids@.len(),
        {
            centroids.push(Centroid { r: 0, g: 0, b: 0 });
        }

        let point_count = points.len() as u64;
        Ok(
            ColorCalc {
                points,
                centroids,
                colors: color_count,
                point_count,
                total_distance: 0,
                points_changed: 0,
                max_attempts,
                max_steps,
                best_error: 0,
                best_palette: Palette::new(),
                attempt_errors: Vec::new(),
                rng: Rng::new(seed),
                best_cents: Ghost(Seq::empty()),
                best_points: Ghost(Seq::empty()),
            },
        )
    }

    /// One assignment pass: every point moves to its nearest centroid and
    /// the count of changed points is recorded.
    pub fn calc_segments(&mut self)
        requires
            old(self).wf(),
        ensures
            final(self).wf(),
            final(self).points@ == assign_all(old(self).centroids@, old(self).points@),
            final(self).points_changed == changed_count(old(self).centroids@, old(self).points@),
            final(self).centroids == old(self).centroids,
            final(self).best_error == old(self).best_error,
            final(self).best_palette == old(self).best_palette,
            final(self).attempt_errors == old(self).attempt_errors,
            final(self).rng == old(self).rng,
            final(self).colors == old(self).colors,
            final(self).max_attempts == old(self).max_attempts,
            final(self).max_steps == old(self).max_steps,
            final(self).point_count == old(self).point_count,
            final(self).total_distance == old(self).total_distance,
            total_weight(final(self).points@) == total_weight(old(self).points@),
            cores(final(self).points@) == cores(old(self).points@),
            final(self).best_cents == old(self).best_cents,
            final(self).best_points == old(self).best_points,
    {
        let changed = reassign_all_par(&mut self.points, &self.centroids);
        self.points_changed = changed;
        proof {
            let ps0 = old(self).points@;
            let cs = old(self).centroids@;
            assert forall|i: int| 0 <= i < self.points@.len() implies (#[trigger] self.points@[i]).seg
                < self.k() && self.points@[i].color.wf() && self.points@[i].count >= 1 by {
                lemma_new_seg_props(cs, ps0[i]);
            }
            lemma_weight_prefix_parts_equal(self.points@, ps0, ps0.len() as int);
            assert(cores(self.points@) =~= cores(ps0));
        }
    }

    /// One update pass: centroids move to the weighted means of their
    /// points and the summed movement is recorded.
    pub fn calc_centroids(&mut self)
        requires
            old(self).wf(),
        ensures
            final(self).wf(),
            final(self).centroids@ == updated_cents(old(self).points@, old(self).centroids@),
            final(self).total_distance == movement(old(self).points@, old(self).centroids@),
            final(self).points == old(self).points,
            final(self).best_error == old(self).best_error,
            final(self).best_palette == old(self).best_palette,
            final(self).attempt_errors == old(self).attempt_errors,
            final(self).rng == old(self).rng,
            final(self).colors == old(self).colors,
            final(self).max_attempts == old(self).max_attempts,
            final(self).max_steps == old(self).max_steps,
            final(self).point_count == old(self).point_count,
            final(self).points_changed == old(self).points_changed,
            final(self).best_cents == old(self).best_cents,
            final(self).best_points == old(self).best_points,
    {
        let mv = update_centroids(&self.points, &mut self.centroids);
        self.total_distance = mv;
    }

    /// Score the current attempt.
    pub fn calc_error(&self) -> (err: u128)
        requires
            self.wf(),
        ensures
            err == total_error(self.points@, self.centroids@),
    {
        measure_error(&self.points, &self.centroids)
    }

    /// The palette of the current centroids.
    pub fn generate_palette(&self) -> (p: Palette)
        requires
            self.wf(),
        ensures
            p@ == palette_of(self.centroids@),
            p.wf(),
            p@.len() == self.k(),
    {
        Palette::from(&self.centroids)
    }

    /// Total pixel weight carried by the point set.
    pub fn total_weight(&self) -> (w: u64)
        requires
            self.wf(),
        ensures
            w == total_weight(self.points@),
    {
        let n = self.points.len();
        let mut w: u64 = 0;
        let mut i: usize = 0;
        proof {
            crate::points::lemma_weight_prefix_nonneg(self.points@, n as int);
        }
        while i < n
            invariant
                n == self.points@.len(),
                i <= n,
                w == weight_prefix(self.points@, i as int),
                total_weight(self.points@) <= u64::MAX,
            decreases n - i,
        {
            proof {
                lemma_weight_prefix_mono(self.points@, i as int + 1, n as int);
                crate::points::lemma_weight_prefix_nonneg(self.points@, i as int);
            }
            w = w + self.points[i].count;
            i = i + 1;
        }
        w
    }
}

impl ColorCalc {
    /// Seed one attempt: reset the distance caches, pick a first point
    /// uniformly, then repeatedly draw the next seed with probability
    /// proportional to its cached distance, swapping each chosen point
    /// into the finished prefix.  The first `k` points then become the
    /// centroids.  The points are only permuted (caches aside): the
    /// multiset of (color, weight) cores and the total weight stay fixed.
    pub fn init_centroids(&mut self)
        requires
            old(self).wf(),
        ensures
            final(self).wf(),
            final(self).points@.len() == old(self).points@.len(),
            final(self).centroids@.len() == old(self).centroids@.len(),
            forall|i: int|
                0 <= i < final(self).k() ==> #[trigger] final(self).centroids@[i]
                    == final(self).points@[i].color,
            cores(final(self).points@).to_multiset() == cores(old(self).points@).to_multiset(),
            total_weight(final(self).points@) == total_weight(old(self).points@),
            final(self).points@ == seeded(
                old(self).points@,
                old(self).rng.state,
                old(self).centroids@.len() as int,
            ).0,
            final(self).rng.state == seeded(
                old(self).points@,
                old(self).rng.state,
                old(self).centroids@.len() as int,
            ).1,
            final(self).best_error == old(self).best_error,
            final(self).best_palette == old(self).best_palette,
            final(self).attempt_errors == old(self).attempt_errors,
            final(self).colors == old(self).colors,
            final(self).max_attempts == old(self).max_attempts,
            final(self).max_steps == old(self).max_steps,
            final(self).point_count == old(self).point_count,
            final(self).points_changed == old(self).points_changed,
            final(self).total_distance == old(self).total_distance,
            final(self).best_cents == old(self).best_cents,
            final(self).best_points == old(self).best_points,
    {
        let ghost base = old(self).points@;
        let ghost r0 = old(self).rng.state;
        let n = self.points.len();
        let k = self.centroids.len();

        // Reset every cache to the maximal sentinel.
        let mut i: usize = 0;
        while i < n
            invariant
                n == self.points@.len(),
                i <= n,
                *self == (ColorCalc { points: self.points, ..*old(self) }),
                forall|j: int|
                    0 <= j < i ==> self.points@[j] == (ColorPoint { dist: u64::MAX, ..base[j] }),
                forall|j: int| i <= j < n ==> self.points@[j] == base[j],
            decreases n - i,
        {
            let p = self.points[i];
            self.points.set(i, ColorPoint { dist: u64::MAX, ..p });
            i = i + 1;
        }
        proof {
            assert(cores(self.points@) =~= cores(base));
            lemma_weight_prefix_parts_equal(self.points@, base, n as int);
            assert(self.points@ =~= reset_caches(base));
        }

        // First seed: uniform over the whole point set.
        let j0 = self.rng.below(self.point_count) as usize;
        let ghost pre0 = self.points@;
        swap_points(&mut self.points, 0, j0);
        let ghost sw0 = self.points@;
        let ghost r1 = self.rng.state;
        proof {
            lemma_swap_keeps_cores_and_weight(pre0, 0, j0 as int);
            assert(sw0 == swap_seq(reset_caches(base), 0, (next_state(r0) % (base.len() as u64)) as int));
            assert(r1 == next_state(r0));
        }

        // Remaining seeds: distance-proportional over the suffix.
        let mut c: usize = 1;
        while c < k
            invariant
                n == self.points@.len(),
                k == self.centroids@.len(),
                *self == (ColorCalc { points: self.points, rng: self.rng, ..*old(self) }),
                1 <= c <= k,
                k <= n <= HIST_CELLS,
                self.point_count == n,
                forall|j: int| 0 <= j < n ==> (#[trigger] self.points@[j]).color.wf(),
                forall|j: int| 0 <= j < n ==> (#[trigger] self.points@[j]).count >= 1,
                forall|j: int| 0 <= j < n ==> (#[trigger] self.points@[j]).seg < k,
                cores(self.points@).to_multiset() == cores(base).to_multiset(),
                total_weight(self.points@) == total_weight(base),
                self.points@ == seed_iter(sw0, r1, c as int).0,
                self.rng.state == seed_iter(sw0, r1, c as int).1,
                base.len() == n,
            decreases k - c,
        {
            let cent = self.points[c - 1].color;
            let ghost pre_refresh = self.points@;
            let ghost r_pre = self.rng.state;
            let sum = refresh_dists(&mut self.points, c, cent);
            proof {
                assert(cores(self.points@) =~= cores(pre_refresh));
                lemma_weight_prefix_parts_equal(self.points@, pre_refresh, n as int);
                assert(self.points@ =~= refreshed(pre_refresh, c as int, cent));
            }
            let ghost rf = self.points@;
            let j = if sum == 0 {
                c
            } else {
                let t = self.rng.below_wide(sum);
                pick_by_dist(&self.points, c, t)
            };
            let ghost pre_swap = self.points@;
            swap_points(&mut self.points, c, j);
            proof {
                lemma_swap_keeps_cores_and_weight(pre_swap, c as int, j as int);
                if sum == 0 {
                    assert(self.points@ =~= rf);
                    assert(seed_step(pre_refresh, r_pre, c as int) == (rf, r_pre));
                } else {
                    assert(seed_step(pre_refresh, r_pre, c as int) == (
                        self.points@,
                        self.rng.state,
                    ));
                }
                assert(seed_iter(sw0, r1, c as int + 1) == seed_step(
                    seed_iter(sw0, r1, c as int).0,
                    seed_iter(sw0, r1, c as int).1,
                    c as int,
                ));
            }
            c = c + 1;
        }

        proof {
            assert(seeded(base, r0, k as int) == seed_iter(sw0, r1, k as int));
        }

        // The chosen prefix becomes the centroid list.
        let mut c2: usize = 0;
        while c2 < k
            invariant
                n == self.points@.len(),
                k == self.centroids@.len(),
                k == old(self).centroids@.len(),
                base == old(self).points@,
                r0 == old(self).rng.state,
                self.points@ == seeded(base, r0, k as int).0,
                self.rng.state == seeded(base, r0, k as int).1,
                *self == (ColorCalc {
                    points: self.points,
                    centroids: self.centroids,
                    rng: self.rng,
                    ..*old(self)
                }),
                cores(self.points@).to_multiset() == cores(base).to_multiset(),
                total_weight(self.points@) == total_weight(base),
                forall|j: int| 0 <= j < n ==> (#[trigger] self.points@[j]).count >= 1,
                forall|j: int| 0 <= j < n ==> (#[trigger] self.points@[j]).seg < k,
                c2 <= k <= n,
                forall|j: int| 0 <= j < n ==> (#[trigger] self.points@[j]).color.wf(),
                forall|j: int|
                    0 <= j < c2 ==> #[trigger] self.centroids@[j] == self.points@[j].color,
                forall|j: int| 0 <= j < c2 ==> (#[trigger] self.centroids@[j]).wf(),
                forall|j: int| c2 <= j < k ==> (#[trigger] self.centroids@[j]).wf(),
            decreases k - c2,
        {
            let col = self.points[c2].color;
            self.centroids.set(c2, col);
            c2 = c2 + 1;
        }
    }
}

/// The centroid list an attempt starts from: the colors of its chosen
/// seed prefix.
pub open spec fn seed_cents(ps: Seq<ColorPoint>, k: int) -> Seq<Centroid> {
    Seq::new(k as nat, |i: int| ps[i].color)
}

/// Up to `s` assignment/update cycles of one attempt: each cycle
/// re-assigns every point and, unless no point moved, recomputes the
/// centroids; a converged attempt stops with its assignment applied.
pub open spec fn lloyd_iter(ps: Seq<ColorPoint>, cs: Seq<Centroid>, s: int) -> (
    Seq<ColorPoint>,
    Seq<Centroid>,
)
    decreases s,
{
    if s <= 0 {
        (ps, cs)
    } else {
        let ps1 = assign_all(cs, ps);
        if changed_count(cs, ps) == 0 {
            (ps1, cs)
        } else {
            lloyd_iter(ps1, updated_cents(ps1, cs), s - 1)
        }
    }
}

/// One whole attempt from a point set and generator state: seed, iterate
/// within the step budget, then one final assignment pass.  Yields the
/// scored points, their centroids and the generator state left behind.
pub open spec fn attempt_outcome(ps: Seq<ColorPoint>, r: u64, k: int, ms: int) -> (
    Seq<ColorPoint>,
    Seq<Centroid>,
    u64,
) {
    let sd = seeded(ps, r, k);
    let it = lloyd_iter(sd.0, seed_cents(sd.0, k), ms);
    (assign_all(it.1, it.0), it.1, sd.1)
}

/// Everything a run's results depend on, threaded through its attempts.
pub struct RunState {
    pub points: Seq<ColorPoint>,
    pub rng: u64,
    pub errors: Seq<u128>,
    pub best_error: u128,
    pub best_cents: Seq<Centroid>,
    pub best_points: Seq<ColorPoint>,
}

/// The driver state once the first `a` attempts have finished: each
/// attempt scores `attempt_outcome` of the state the previous one left,
/// and the strictly best score keeps its clustering.
pub open spec fn run_fold(ps: Seq<ColorPoint>, r: u64, k: int, ms: int, a: int) -> RunState
    decreases a,
{
    if a <= 0 {
        RunState {
            points: ps,
            rng: r,
            errors: Seq::empty(),
            best_error: 0,
            best_cents: Seq::empty(),
            best_points: Seq::empty(),
        }
    } else {
        let prev = run_fold(ps, r, k, ms, a - 1);
        let at = attempt_outcome(prev.points, prev.rng, k, ms);
        let err = total_error(at.0, at.1) as u128;
        if a - 1 == 0 || err < prev.best_error {
            RunState {
                points: at.0,
                rng: at.2,
                errors: prev.errors.push(err),
                best_error: err,
                best_cents: at.1,
                best_points: at.0,
            }
        } else {
            RunState { points: at.0, rng: at.2, errors: prev.errors.push(err), ..prev }
        }
    }
}

/// One attempt over a single sample point is inert: the point seeds
/// itself, becomes its own centroid, and scores zero error.
proof fn lemma_single_point_attempt(ps: Seq<ColorPoint>, r: u64, ms: int)
    requires
        ps.len() == 1,
        ps[0].seg == 0,
    ensures
        ({
            let at = attempt_outcome(ps, r, 1, ms);
            &&& at.1 == seq![ps[0].color]
            &&& at.0.len() == 1
            &&& at.0[0].color == ps[0].color
            &&& at.0[0].count == ps[0].count
            &&& at.0[0].seg == 0
            &&& total_error(at.0, at.1) == 0
        }),
{
    let reset = reset_caches(ps);
    assert(next_state(r) % (ps.len() as u64) == 0);
    let sw = swap_seq(reset, 0, 0);
    assert(sw =~= reset);
    let sd = seeded(ps, r, 1);
    assert(sd.0 == reset);
    let cs = seed_cents(sd.0, 1);
    assert(cs =~= seq![ps[0].color]);

    let p0 = reset[0];
    crate::colors::lemma_dist2_nonneg(p0.color, p0.color);
    assert(p0.color.dist2(cs[0]) == 0) by (nonlinear_arith)
        requires
            p0.color == cs[0],
    ;
    crate::assign::lemma_scan_keeps(cs, p0.color, 0, 0, 0);
    assert(crate::assign::new_seg(cs, p0) == 0);
    assert(crate::assign::assign_point(cs, p0) == p0);
    assert(assign_all(cs, reset) =~= reset);
    assert(crate::assign::changed_prefix(cs, reset, 0) == 0);
    assert(crate::assign::changed_prefix(cs, reset, 1) == 0);
    assert(changed_count(cs, reset) == 0);

    let it = lloyd_iter(sd.0, cs, ms);
    assert(it == (assign_all(cs, reset), cs) || it == (reset, cs));
    assert(it.0 == reset && it.1 == cs);
    let at = attempt_outcome(ps, r, 1, ms);
    assert(at.0 == reset && at.1 == cs);
    assert(crate::math::sqrt_floor(0) == 0);
    assert(crate::score::point_error(reset[0], cs) == 0);
    assert(crate::score::error_prefix(reset, cs, 0) == 0);
    assert(crate::score::error_prefix(reset, cs, 1) == 0);
    assert(total_error(reset, cs) == 0);
}

/// A point set holding one distinct color always yields exactly that
/// color: whatever the seed, the restart count and the step budget, the
/// run keeps a single centroid equal to the point and returns its
/// quantized color as the whole palette.
#[verifier::rlimit(100)]
pub proof fn lemma_single_color_palette(ps: Seq<ColorPoint>, r: u64, ms: int, a: int)
    requires
        ps.len() == 1,
        ps[0].seg == 0,
        a >= 1,
    ensures
        ({
            let o = run_fold(ps, r, 1, ms, a);
            &&& o.best_cents == seq![ps[0].color]
            &&& o.best_error == 0
            &&& o.points.len() == 1
            &&& o.points[0].color == ps[0].color
            &&& o.points[0].seg == 0
            &&& sel_sorted(palette_of(o.best_cents)) == seq![ps[0].color.to_int_color()]
        }),
    decreases a,
{
    if a == 1 {
        let prev = run_fold(ps, r, 1, ms, 0);
        assert(prev.points == ps && prev.rng == r && prev.best_error == 0);
        lemma_single_point_attempt(ps, r, ms);
        let at = attempt_outcome(ps, r, 1, ms);
        assert(run_fold(ps, r, 1, ms, 1) == (RunState {
            points: at.0,
            rng: at.2,
            errors: prev.errors.push(0),
            best_error: 0,
            best_cents: at.1,
            best_points: at.0,
        }));
    } else {
        lemma_single_color_palette(ps, r, ms, a - 1);
        let prev = run_fold(ps, r, 1, ms, a - 1);
        lemma_single_point_attempt(prev.points, prev.rng, ms);
        let at = attempt_outcome(prev.points, prev.rng, 1, ms);
        assert(total_error(at.0, at.1) as u128 == 0);
        assert(run_fold(ps, r, 1, ms, a) == (RunState {
            points: at.0,
            rng: at.2,
            errors: prev.errors.push(0),
            ..prev
        }));
        assert(at.0[0].color == ps[0].color);
    }
    let o = run_fold(ps, r, 1, ms, a);
    assert(palette_of(o.best_cents) =~= seq![ps[0].color.to_int_color()]);
    let pal = palette_of(o.best_cents);
    assert(crate::palette::sel_iter(pal, 0) == pal);
    assert(crate::palette::min_lum_scan(pal, 1, 0) == 0);
    assert(crate::palette::sel_iter(pal, 1) =~= pal);
    assert(sel_sorted(pal) == crate::palette::sel_iter(pal, 1));
}

/// A settled clustering is a fixpoint of the Lloyd loop: when no point
/// would change cluster, iterating moves nothing, whatever the budget.
proof fn lemma_lloyd_settled(ps: Seq<ColorPoint>, cs: Seq<Centroid>, s: int)
    requires
        forall|i: int| 0 <= i < ps.len() ==> (#[trigger] ps[i]).seg < cs.len(),
        changed_count(cs, ps) == 0,
    ensures
        lloyd_iter(ps, cs, s) == (ps, cs),
{
    if s > 0 {
        crate::assign::lemma_no_change_fixpoint(cs, ps);
    }
}

/// One attempt over two points of distinct colors separates them: both
/// become their own seeds and centroids, in the order the seeding draws
/// leave them, and the attempt scores zero error.
/// The one proportional draw over a two-point suffix keeps the
/// remaining point in place: its cache is the whole sum, so the walk
/// stops on it at once.
#[verifier::rlimit(100)]
#[verifier::spinoff_prover]
proof fn lemma_two_point_draw(sw: Seq<ColorPoint>, r1: u64) -> (rf: Seq<ColorPoint>)
    requires
        sw.len() == 2,
        sw[0].color != sw[1].color,
        sw[0].color.wf(),
        sw[1].color.wf(),
        sw[0].dist == u64::MAX,
        sw[1].dist == u64::MAX,
    ensures
        rf == seed_step(sw, r1, 1).0,
        rf.len() == 2,
        rf[0] == sw[0],
        rf[1] == (ColorPoint { dist: (sw[1].color.dist2(sw[0].color)) as u64, ..sw[1] }),
{
    let d = sw[1].color.dist2(sw[0].color);
    crate::colors::lemma_dist2_pos(sw[1].color, sw[0].color);
    crate::update::lemma_movement_term_bound(sw[1].color, sw[0].color);
    let rfd = refreshed(sw, 1, sw[0].color);
    assert(rfd[0] == sw[0] && rfd[1] == (ColorPoint { dist: d as u64, ..sw[1] }));
    assert(dist_suffix(rfd, 1, 1) == 0);
    assert(dist_sum(rfd, 1) == d);
    let t = crate::rng::spec_below_wide(r1, d as u128);
    assert(t < d as u128);
    assert(crate::seed::pick_from(rfd, 1, t as int) == 1);
    assert(swap_seq(rfd, 1, 1) =~= rfd);
    rfd
}

/// Seeding a two-point set keeps its two points: whichever order the
/// draws leave them in, their colors and weights survive.
#[verifier::rlimit(100)]
#[verifier::spinoff_prover]
proof fn lemma_two_point_seeding(ps: Seq<ColorPoint>, r: u64) -> (rf: Seq<ColorPoint>)
    requires
        ps.len() == 2,
        ps[0].color != ps[1].color,
        ps[0].color.wf(),
        ps[1].color.wf(),
        ps[0].seg < 2,
        ps[1].seg < 2,
        ps[0].count >= 1,
        ps[1].count >= 1,
    ensures
        rf == seeded(ps, r, 2).0,
        rf.len() == 2,
        rf[0].color != rf[1].color,
        rf[0].color.wf(),
        rf[1].color.wf(),
        rf[0].seg < 2,
        rf[1].seg < 2,
        rf[0].count >= 1,
        rf[1].count >= 1,
        (rf[0].color == ps[0].color && rf[1].color == ps[1].color && rf[0].count == ps[0].count
            && rf[1].count == ps[1].count) || (rf[0].color == ps[1].color && rf[1].color
            == ps[0].color && rf[0].count == ps[1].count && rf[1].count == ps[0].count),
{
    let j0 = next_state(r) % (ps.len() as u64);
    assert(j0 == 0 || j0 == 1);
    let rfd = lemma_two_point_seed_core(ps, j0, next_state(r));
    assert(seeded(ps, r, 2).0 == rfd);
    rfd
}

/// The seeding pass after the first uniform draw, for a two-point set:
/// cache reset, first swap and the one proportional draw.
#[verifier::rlimit(100)]
#[verifier::spinoff_prover]
proof fn lemma_two_point_seed_core(ps: Seq<ColorPoint>, j0: u64, r1: u64) -> (rf: Seq<
    ColorPoint,
>)
    requires
        ps.len() == 2,
        ps[0].color != ps[1].color,
        ps[0].color.wf(),
        ps[1].color.wf(),
        ps[0].seg < 2,
        ps[1].seg < 2,
        ps[0].count >= 1,
        ps[1].count >= 1,
        j0 < 2,
    ensures
        rf == seed_iter(swap_seq(reset_caches(ps), 0, j0 as int), r1, 2).0,
        rf.len() == 2,
        rf[0].color != rf[1].color,
        rf[0].color.wf(),
        rf[1].color.wf(),
        rf[0].seg < 2,
        rf[1].seg < 2,
        rf[0].count >= 1,
        rf[1].count >= 1,
        (rf[0].color == ps[0].color && rf[1].color == ps[1].color && rf[0].count == ps[0].count
            && rf[1].count == ps[1].count) || (rf[0].color == ps[1].color && rf[1].color
            == ps[0].color && rf[0].count == ps[1].count && rf[1].count == ps[0].count),
{
    let reset = reset_caches(ps);
    let sw = swap_seq(reset, 0, j0 as int);
    if j0 == 0 {
        assert(sw =~= reset);
    }
    assert(sw.len() == 2 && sw[0].dist == u64::MAX && sw[1].dist == u64::MAX);
    assert(sw[0].color != sw[1].color && sw[0].color.wf() && sw[1].color.wf());
    assert(sw[0].seg < 2 && sw[1].seg < 2);
    let rfd = lemma_two_point_draw(sw, r1);
    assert(seed_iter(sw, r1, 1) == (sw, r1));
    assert(seed_iter(sw, r1, 2) == seed_step(sw, r1, 1));
    rfd
}

/// One attempt over two points of distinct colors separates them: both
/// become their own seeds and centroids, in the order the seeding draws
/// leave them, and the attempt scores zero error.
#[verifier::rlimit(100)]
#[verifier::spinoff_prover]
proof fn lemma_two_point_attempt(ps: Seq<ColorPoint>, r: u64, ms: int)
    requires
        ps.len() == 2,
        ps[0].color != ps[1].color,
        ps[0].color.wf(),
        ps[1].color.wf(),
        ps[0].seg < 2,
        ps[1].seg < 2,
        ps[0].count >= 1,
        ps[1].count >= 1,
        ms >= 1,
    ensures
        ({
            let at = attempt_outcome(ps, r, 2, ms);
            &&& at.0.len() == 2
            &&& at.1 == seq![at.0[0].color, at.0[1].color]
            &&& at.0[0].seg == 0
            &&& at.0[1].seg == 1
            &&& (at.0[0].color == ps[0].color && at.0[1].color == ps[1].color && at.0[0].count
                == ps[0].count && at.0[1].count == ps[1].count) || (at.0[0].color == ps[1].color
                && at.0[1].color == ps[0].color && at.0[0].count == ps[1].count && at.0[1].count
                == ps[0].count)
            &&& total_error(at.0, at.1) == 0
        }),
{
    let rf = lemma_two_point_seeding(ps, r);

    // The seeded centroids are the points' own colors, so the nearest
    // centroid of each point is its own index.
    let cs = seed_cents(rf, 2);
    assert(cs =~= seq![rf[0].color, rf[1].color]);
    lemma_two_point_assign(rf, cs);
    let ps1 = assign_all(cs, rf);
    assert(ps1 =~= seq![
        crate::assign::assign_point(cs, rf[0]),
        crate::assign::assign_point(cs, rf[1]),
    ]);
    assert(ps1[0].seg == 0 && ps1[1].seg == 1);
    assert(ps1[0].color == rf[0].color && ps1[1].color == rf[1].color);

    // After one cycle the clustering is settled: each centroid is the
    // exact mean of its singleton cluster, and no point would move.
    lemma_two_point_assign(ps1, cs);
    crate::assign::lemma_all_unchanged_changed_zero(cs, ps1, 2);
    lemma_singleton_means(ps1, cs);
    let it = lloyd_iter(rf, cs, ms);
    if changed_count(cs, rf) == 0 {
        crate::assign::lemma_no_change_fixpoint(cs, rf);
        assert(it == (ps1, cs));
    } else {
        lemma_lloyd_settled(ps1, cs, ms - 1);
        assert(it == (ps1, cs));
    }
    crate::assign::lemma_no_change_fixpoint(cs, ps1);
    let at = attempt_outcome(ps, r, 2, ms);
    assert(at.0 == ps1 && at.1 == cs);

    assert(crate::math::sqrt_floor(0) == 0);
    assert(crate::score::point_error(ps1[0], cs) == 0);
    assert(crate::score::point_error(ps1[1], cs) == 0);
    assert(crate::score::error_prefix(ps1, cs, 0) == 0);
    assert(crate::score::error_prefix(ps1, cs, 1) == 0);
    assert(crate::score::error_prefix(ps1, cs, 2) == 0);
}

/// A point set holding exactly two distinct colors always yields exactly
/// those two colors: whatever the seed, the restart count and the step
/// budget, every attempt separates the pair into singleton clusters, so
/// the palette is the two quantized colors sorted by luminance.
#[verifier::rlimit(100)]
#[verifier::spinoff_prover]
pub proof fn lemma_two_color_palette(ps: Seq<ColorPoint>, r: u64, ms: int, a: int)
    requires
        ps.len() == 2,
        ps[0].color != ps[1].color,
        ps[0].color.wf(),
        ps[1].color.wf(),
        ps[0].seg < 2,
        ps[1].seg < 2,
        ps[0].count >= 1,
        ps[1].count >= 1,
        ps[0].color.to_int_color().lum_key() != ps[1].color.to_int_color().lum_key(),
        ms >= 1,
        a >= 1,
    ensures
        ({
            let o = run_fold(ps, r, 2, ms, a);
            let c0 = ps[0].color;
            let c1 = ps[1].color;
            &&& o.best_error == 0
            &&& (o.best_cents == seq![c0, c1] || o.best_cents == seq![c1, c0])
            &&& o.points.len() == 2
            &&& ((o.points[0].color == c0 && o.points[1].color == c1 && o.points[0].count
                == ps[0].count && o.points[1].count == ps[1].count) || (o.points[0].color == c1
                && o.points[1].color == c0 && o.points[0].count == ps[1].count
                && o.points[1].count == ps[0].count))
            &&& o.points[0].seg < 2
            &&& o.points[1].seg < 2
            &&& sel_sorted(palette_of(o.best_cents)) == (if c1.to_int_color().lum_key()
                < c0.to_int_color().lum_key() {
                seq![c1.to_int_color(), c0.to_int_color()]
            } else {
                seq![c0.to_int_color(), c1.to_int_color()]
            })
        }),
    decreases a,
{
    let c0 = ps[0].color;
    let c1 = ps[1].color;
    if a == 1 {
        lemma_two_point_attempt(ps, r, ms);
        let prev = run_fold(ps, r, 2, ms, 0);
        let at = attempt_outcome(ps, r, 2, ms);
        assert(run_fold(ps, r, 2, ms, 1) == (RunState {
            points: at.0,
            rng: at.2,
            errors: prev.errors.push(0),
            best_error: 0,
            best_cents: at.1,
            best_points: at.0,
        }));
        assert(at.1 == seq![c0, c1] || at.1 == seq![c1, c0]) by {
            if at.0[0].color == c0 {
                assert(at.1 =~= seq![c0, c1]);
            } else {
                assert(at.1 =~= seq![c1, c0]);
            }
        }
    } else {
        lemma_two_color_palette(ps, r, ms, a - 1);
        let prev = run_fold(ps, r, 2, ms, a - 1);
        lemma_two_point_attempt(prev.points, prev.rng, ms);
        let at = attempt_outcome(prev.points, prev.rng, 2, ms);
        assert(total_error(at.0, at.1) as u128 == 0);
        assert(run_fold(ps, r, 2, ms, a) == (RunState {
            points: at.0,
            rng: at.2,
            errors: prev.errors.push(0),
            ..prev
        }));
    }
    let o = run_fold(ps, r, 2, ms, a);
    let ic0 = c0.to_int_color();
    let ic1 = c1.to_int_color();
    if o.best_cents == seq![c0, c1] {
        assert(palette_of(o.best_cents) =~= seq![ic0, ic1]);
        crate::palette::lemma_sel_sort_pair(ic0, ic1);
    } else {
        assert(palette_of(o.best_cents) =~= seq![ic1, ic0]);
        crate::palette::lemma_sel_sort_pair(ic1, ic0);
    }
}

/// Against centroids that are the two points' own distinct colors, each
/// point is assigned its own index.
proof fn lemma_two_point_assign(ps: Seq<ColorPoint>, cs: Seq<Centroid>)
    requires
        ps.len() == 2,
        cs.len() == 2,
        cs[0] == ps[0].color,
        cs[1] == ps[1].color,
        ps[0].color != ps[1].color,
        ps[0].seg < 2,
        ps[1].seg < 2,
    ensures
        crate::assign::new_seg(cs, ps[0]) == 0,
        crate::assign::new_seg(cs, ps[1]) == 1,
        crate::assign::assign_point(cs, ps[0]) == (ColorPoint { seg: 0, ..ps[0] }),
        crate::assign::assign_point(cs, ps[1]) == (ColorPoint { seg: 1, ..ps[1] }),
{
    crate::colors::lemma_dist2_pos(ps[0].color, cs[1]);
    crate::colors::lemma_dist2_pos(ps[1].color, cs[0]);
    crate::colors::lemma_dist2_nonneg(ps[0].color, cs[0]);
    crate::colors::lemma_dist2_nonneg(ps[1].color, cs[1]);
    assert(ps[0].color.dist2(cs[0]) == 0) by (nonlinear_arith)
        requires
            ps[0].color == cs[0],
    ;
    assert(ps[1].color.dist2(cs[1]) == 0) by (nonlinear_arith)
        requires
            ps[1].color == cs[1],
    ;
    lemma_new_seg_props(cs, ps[0]);
    lemma_new_seg_props(cs, ps[1]);
}

/// With every point assigned to a cluster of its own, the update step
/// recomputes each centroid as the exact color of its one point.
proof fn lemma_singleton_means(ps: Seq<ColorPoint>, cs: Seq<Centroid>)
    requires
        ps.len() == 2,
        cs.len() == 2,
        cs[0] == ps[0].color,
        cs[1] == ps[1].color,
        ps[0].seg == 0,
        ps[1].seg == 1,
        ps[0].count >= 1,
        ps[1].count >= 1,
    ensures
        updated_cents(ps, cs) == cs,
{
    lemma_singleton_mean_at(ps, cs, 0);
    lemma_singleton_mean_at(ps, cs, 1);
    assert(updated_cents(ps, cs) =~= cs);
}

proof fn lemma_singleton_mean_at(ps: Seq<ColorPoint>, cs: Seq<Centroid>, c: int)
    requires
        ps.len() == 2,
        cs.len() == 2,
        0 <= c < 2,
        cs[c] == ps[c].color,
        ps[0].seg == 0,
        ps[1].seg == 1,
        ps[c].count >= 1,
    ensures
        crate::update::updated_cent(ps, cs[c], c) == cs[c],
{
    let p = ps[c];
    let w = p.count as int;
    assert(crate::update::seg_sums(ps, c, 0) == (0int, 0int, 0int, 0int));
    if c == 0 {
        assert(crate::update::seg_sums(ps, 0, 1) == (
            w,
            w * p.color.r,
            w * p.color.g,
            w * p.color.b,
        ));
        assert(crate::update::seg_sums(ps, 0, 2) == crate::update::seg_sums(ps, 0, 1));
    } else {
        assert(crate::update::seg_sums(ps, 1, 1) == (0int, 0int, 0int, 0int));
        assert(crate::update::seg_sums(ps, 1, 2) == (
            w,
            w * p.color.r,
            w * p.color.g,
            w * p.color.b,
        ));
    }
    vstd::arithmetic::div_mod::lemma_div_multiples_vanish(p.color.r as int, w);
    vstd::arithmetic::div_mod::lemma_div_multiples_vanish(p.color.g as int, w);
    vstd::arithmetic::div_mod::lemma_div_multiples_vanish(p.color.b as int, w);
}

/// The progress pair reported to the sink: the step position reached so
/// far, and the projected step total once finished attempts are averaged.
pub open spec fn progress_pair(attempt: u32, step: u32, passed: u64, ma: u32, ms: u32) -> (
    int,
    int,
) {
    if attempt == 0 {
        (step as int, ma * ms)
    } else {
        (passed + step, passed + (passed as int) / (attempt as int) * (ma - attempt))
    }
}

/// Saturation of a mathematical value onto `u64`.
pub open spec fn sat64(v: int) -> int {
    if v > u64::MAX {
        u64::MAX as int
    } else {
        v
    }
}

impl ColorCalc {
    /// Estimate the run's progress for ETA display: before the first
    /// attempt finishes the step budget is taken at face value, afterwards
    /// the finished attempts' average step count scales the projection.
    pub fn progress_estimate(attempt: u32, step: u32, passed: u64, ma: u32, ms: u32) -> (r: (
        u64,
        u64,
    ))
        requires
            attempt < ma,
        ensures
            r.0 == sat64(progress_pair(attempt, step, passed, ma, ms).0),
            r.1 == sat64(progress_pair(attempt, step, passed, ma, ms).1),
    {
        if attempt == 0 {
            proof {
                assert((ma as int) * (ms as int) <= 0xffffffffint * 0xffffffffint)
                    by (nonlinear_arith)
                    requires
                        0 <= ma <= 0xffffffff,
                        0 <= ms <= 0xffffffff,
                ;
            }
            ((step as u64), (ma as u64) * (ms as u64))
        } else {
            let pa = passed as u128;
            let cur: u128 = pa + step as u128;
            proof {
                vstd::arithmetic::div_mod::lemma_div_pos_is_pos(pa as int, attempt as int);
                vstd::arithmetic::div_mod::lemma_div_nonincreasing(pa as int, attempt as int);
                assert(((pa as int) / (attempt as int)) * ((ma - attempt) as int)
                    <= 0xffffffffffffffffint * 0xffffffffint) by (nonlinear_arith)
                    requires
                        0 <= (pa as int) / (attempt as int) <= 0xffffffffffffffff,
                        0 <= (ma - attempt) as int <= 0xffffffff,
                ;
            }
            let proj: u128 = pa + pa / (attempt as u128) * ((ma - attempt) as u128);
            let a = if cur > 0xffffffffffffffffu128 {
                u64::MAX
            } else {
                cur as u64
            };
            let b = if proj > 0xffffffffffffffffu128 {
                u64::MAX
            } else {
                proj as u64
            };
            (a, b)
        }
    }

    /// The whole optimization: seed, iterate to convergence and score,
    /// once per attempt; keep the palette of the attempt with the lowest
    /// error, and hand it out sorted by luminance.
    ///
    /// The best error is a lower bound of every attempt's error and is
    /// itself one of them, and it is the true within-cluster error of a
    /// genuine clustering of the input: the recorded best point set
    /// carries exactly the input's colors and weights, sits at its
    /// nearest best centroids (a further assignment pass is a no-op), and
    /// the returned palette is the luminance-sorted palette of those
    /// centroids.
    ///
    /// The whole outcome equals `run_fold` of the input point set, the
    /// generator state and the configuration: equal inputs and seeds give
    /// equal palettes, and the progress sink receives reports but cannot
    /// influence any result.
    #[verifier::rlimit(100)]
    pub fn run<S: ProgressSink>(&mut self, sink: &mut S) -> (pal: Palette)
        requires
            old(self).wf(),
            old(self).max_attempts >= 1,
        ensures
            final(self).wf(),
            pal.wf(),
            sorted_by_lum(pal@),
            pal@.len() == old(self).k(),
            pal@ == final(self).best_palette@,
            final(self).attempt_errors@.len() == old(self).max_attempts,
            forall|i: int|
                0 <= i < final(self).attempt_errors@.len() ==> final(self).best_error
                    <= #[trigger] final(self).attempt_errors@[i],
            exists|i: int|
                0 <= i < final(self).attempt_errors@.len() && final(self).best_error
                    == final(self).attempt_errors@[i],
            final(self).best_error == total_error(
                final(self).best_points@,
                final(self).best_cents@,
            ),
            cores(final(self).best_points@).to_multiset() == cores(old(self).points@).to_multiset(),
            final(self).best_points@ == assign_all(final(self).best_cents@, final(self).best_points@),
            pal@.to_multiset() == palette_of(final(self).best_cents@).to_multiset(),
            final(self).best_cents@.len() == old(self).k(),
            final(self).k() == old(self).k(),
            final(self).max_attempts == old(self).max_attempts,
            final(self).max_steps == old(self).max_steps,
            final(self).colors == old(self).colors,
            total_weight(final(self).points@) == total_weight(old(self).points@),
            cores(final(self).points@).to_multiset() == cores(old(self).points@).to_multiset(),
            ({
                let o = run_fold(
                    old(self).points@,
                    old(self).rng.state,
                    old(self).k(),
                    old(self).max_steps as int,
                    old(self).max_attempts as int,
                );
                &&& final(self).points@ == o.points
                &&& final(self).rng.state == o.rng
                &&& final(self).attempt_errors@ == o.errors
                &&& final(self).best_error == o.best_error
                &&& final(self).best_cents@ == o.best_cents
                &&& final(self).best_points@ == o.best_points
                &&& pal@ == sel_sorted(palette_of(o.best_cents))
            }),
    {
        self.attempt_errors = Vec::new();
        self.best_error = 0;
        proof {
            assert(self.attempt_errors@ =~= Seq::<u128>::empty());
        }
        let mut steps_passed: u64 = 0;
        let mut a: u32 = 0;
        while a < self.max_attempts
            invariant
                self.wf(),
                a <= self.max_attempts,
                self.max_attempts == old(self).max_attempts,
                self.max_steps == old(self).max_steps,
                self.colors == old(self).colors,
                self.k() == old(self).k(),
                self.point_count == old(self).point_count,
                total_weight(self.points@) == total_weight(old(self).points@),
                cores(self.points@).to_multiset() == cores(old(self).points@).to_multiset(),
                self.attempt_errors@.len() == a,
                forall|i: int|
                    0 <= i < a ==> self.best_error <= #[trigger] self.attempt_errors@[i],
                a >= 1 ==> exists|i: int|
                    0 <= i < a && self.best_error == self.attempt_errors@[i],
                a >= 1 ==> self.best_palette@.len() == old(self).k() && self.best_palette.wf(),
                a >= 1 ==> self.best_palette@ == palette_of(self.best_cents@)
                    && self.best_error == total_error(self.best_points@, self.best_cents@)
                    && self.best_cents@.len() == old(self).k(),
                a >= 1 ==> cores(self.best_points@).to_multiset() == cores(
                    old(self).points@,
                ).to_multiset(),
                a >= 1 ==> self.best_points@ == assign_all(self.best_cents@, self.best_points@),
                steps_passed <= a * (self.max_steps as int),
                ({
                    let o = run_fold(
                        old(self).points@,
                        old(self).rng.state,
                        old(self).k(),
                        old(self).max_steps as int,
                        a as int,
                    );
                    &&& self.points@ == o.points
                    &&& self.rng.state == o.rng
                    &&& self.attempt_errors@ == o.errors
                    &&& self.best_error == o.best_error
                    &&& (a >= 1 ==> self.best_cents@ == o.best_cents && self.best_points@
                        == o.best_points)
                }),
            decreases self.max_attempts - a,
        {
            let ghost pts_in = self.points@;
            let ghost rng_in = self.rng.state;
            self.init_centroids();
            let ghost sps = self.points@;
            let ghost r_at = self.rng.state;
            let ghost scs = self.centroids@;
            proof {
                assert(scs =~= seed_cents(sps, old(self).k()));
            }
            let mut s: u32 = 0;
            while s < self.max_steps
                invariant_except_break
                    lloyd_iter(sps, scs, old(self).max_steps as int) == lloyd_iter(
                        self.points@,
                        self.centroids@,
                        old(self).max_steps - s,
                    ),
                invariant
                    self.wf(),
                    s <= self.max_steps,
                    a < self.max_attempts,
                    self.max_attempts == old(self).max_attempts,
                    self.max_steps == old(self).max_steps,
                    self.colors == old(self).colors,
                    self.k() == old(self).k(),
                    self.point_count == old(self).point_count,
                    total_weight(self.points@) == total_weight(old(self).points@),
                    cores(self.points@).to_multiset() == cores(old(self).points@).to_multiset(),
                    self.attempt_errors@.len() == a,
                    forall|i: int|
                        0 <= i < a ==> self.best_error <= #[trigger] self.attempt_errors@[i],
                    a >= 1 ==> exists|i: int|
                        0 <= i < a && self.best_error == self.attempt_errors@[i],
                    a >= 1 ==> self.best_palette@.len() == old(self).k() && self.best_palette.wf(),
                    a >= 1 ==> self.best_palette@ == palette_of(self.best_cents@)
                        && self.best_error == total_error(self.best_points@, self.best_cents@)
                        && self.best_cents@.len() == old(self).k(),
                    a >= 1 ==> cores(self.best_points@).to_multiset() == cores(
                        old(self).points@,
                    ).to_multiset(),
                    a >= 1 ==> self.best_points@ == assign_all(self.best_cents@, self.best_points@),
                    steps_passed <= a * (self.max_steps as int),
                    self.rng.state == r_at,
                    ({
                        let o = run_fold(
                            old(self).points@,
                            old(self).rng.state,
                            old(self).k(),
                            old(self).max_steps as int,
                            a as int,
                        );
                        &&& self.attempt_errors@ == o.errors
                        &&& self.best_error == o.best_error
                        &&& (a >= 1 ==> self.best_cents@ == o.best_cents && self.best_points@
                            == o.best_points)
                    }),
                ensures
                    self.points@ == lloyd_iter(sps, scs, old(self).max_steps as int).0,
                    self.centroids@ == lloyd_iter(sps, scs, old(self).max_steps as int).1,
                decreases self.max_steps - s,
            {
                let ghost ps_entry = self.points@;
                let ghost cs_entry = self.centroids@;
                self.calc_segments();
                if self.points_changed == 0 {
                    proof {
                        assert(lloyd_iter(ps_entry, cs_entry, old(self).max_steps - s) == (
                            assign_all(cs_entry, ps_entry),
                            cs_entry,
                        ));
                    }
                    let (prog, total) = Self::progress_estimate(
                        a,
                        s,
                        steps_passed,
                        self.max_attempts,
                        self.max_steps,
                    );
                    sink.report(a, s, 0, self.total_distance, prog, total);
                    break ;
                }
                self.calc_centroids();
                proof {
                    assert(lloyd_iter(ps_entry, cs_entry, old(self).max_steps - s) == lloyd_iter(
                        assign_all(cs_entry, ps_entry),
                        updated_cents(assign_all(cs_entry, ps_entry), cs_entry),
                        old(self).max_steps - s - 1,
                    ));
                }
                let (prog, total) = Self::progress_estimate(
                    a,
                    s,
                    steps_passed,
                    self.max_attempts,
                    self.max_steps,
                );
                sink.report(a, s, self.points_changed, self.total_distance, prog, total);
                s = s + 1;
            }
            let ghost ps_pre = self.points@;
            self.calc_segments();
            proof {
                // The attempt was just scored on a freshly assigned state:
                // a second pass would move nothing, so the scored points
                // sit at their nearest centroids.
                crate::assign::lemma_assignment_idempotent(self.centroids@, ps_pre);
                assert(assign_all(self.centroids@, self.points@) == self.points@);
            }
            let err = self.calc_error();
            let ghost pre_push = self.attempt_errors@;
            let ghost best_pre = self.best_error;
            self.attempt_errors.push(err);
            if a == 0 || err < self.best_error {
                self.best_error = err;
                self.best_palette = self.generate_palette();
                self.best_cents = Ghost(self.centroids@);
                self.best_points = Ghost(self.points@);
                proof {
                    assert(self.attempt_errors@[a as int] == self.best_error);
                }
            } else {
                proof {
                    let w = choose|i: int| 0 <= i < a && self.best_error == pre_push[i];
                    assert(self.attempt_errors@[w] == self.best_error);
                }
            }
            proof {
                let kk = old(self).k();
                let ms = old(self).max_steps as int;
                let o_prev = run_fold(old(self).points@, old(self).rng.state, kk, ms, a as int);
                let at = attempt_outcome(o_prev.points, o_prev.rng, kk, ms);
                assert(o_prev.points == pts_in && o_prev.rng == rng_in);
                assert(seeded(o_prev.points, o_prev.rng, kk).0 == sps);
                assert(seeded(o_prev.points, o_prev.rng, kk).1 == r_at);
                assert(at.0 == self.points@ && at.1 == self.centroids@ && at.2 == self.rng.state);
                assert(err == total_error(at.0, at.1) as u128);
                let o_next = run_fold(old(self).points@, old(self).rng.state, kk, ms, a as int + 1);
                if a == 0 || err < o_prev.best_error {
                    assert(o_next == (RunState {
                        points: at.0,
                        rng: at.2,
                        errors: o_prev.errors.push(err),
                        best_error: err,
                        best_cents: at.1,
                        best_points: at.0,
                    }));
                } else {
                    assert(o_next == (RunState {
                        points: at.0,
                        rng: at.2,
                        errors: o_prev.errors.push(err),
                        ..o_prev
                    }));
                }
                assert(o_prev.best_error == best_pre);
                assert forall|i: int|
                    0 <= i < a + 1 implies self.best_error <= #[trigger] self.attempt_errors@[i] by {
                    if i < a {
                        assert(self.attempt_errors@[i] == pre_push[i]);
                    }
                }
                assert(a * (self.max_steps as int) + self.max_steps == (a + 1) * (
                self.max_steps as int)) by (nonlinear_arith);
                assert((a + 1) * (self.max_steps as int) <= 0xffffffffint * 0xffffffffint)
                    by (nonlinear_arith)
                    requires
                        0 <= a + 1 <= 0xffffffff,
                        0 <= self.max_steps <= 0xffffffff,
                ;
            }
            steps_passed = steps_passed + s as u64;
            a = a + 1;
        }
        self.best_palette.sort();
        self.best_palette.clone()
    }
}

/// Exchange two points of the set.
fn swap_points(ps: &mut Vec<ColorPoint>, a: usize, b: usize)
    requires
        a < old(ps)@.len(),
        b < old(ps)@.len(),
    ensures
        final(ps)@ == old(ps)@.update(a as int, old(ps)@[b as int]).update(
            b as int,
            old(ps)@[a as int],
        ),
{
    let pa = ps[a];
    let pb = ps[b];
    ps.set(a, pb);
    ps.set(b, pa);
}

/// A swap leaves the core multiset and the total weight of the point set
/// unchanged, and every pointwise property of its entries survives.
pub proof fn lemma_swap_keeps_cores_and_weight(ps: Seq<ColorPoint>, a: int, b: int)
    requires
        0 <= a < ps.len(),
        0 <= b < ps.len(),
    ensures
        ({
            let sw = ps.update(a, ps[b]).update(b, ps[a]);
            &&& cores(sw).to_multiset() == cores(ps).to_multiset()
            &&& total_weight(sw) == total_weight(ps)
        }),
{
    let sw = ps.update(a, ps[b]).update(b, ps[a]);
    assert(cores(sw) =~= cores(ps).update(a, point_core(ps[b])).update(b, point_core(ps[a])));
    crate::palette::lemma_swap_multiset(cores(ps), a, b);
    lemma_weight_prefix_update(ps, a, ps[b], ps.len() as int);
    let s1 = ps.update(a, ps[b]);
    lemma_weight_prefix_update(s1, b, ps[a], ps.len() as int);
}

pub proof fn lemma_weight_prefix_update(ps: Seq<ColorPoint>, i: int, v: ColorPoint, n: int)
    requires
        0 <= i < n <= ps.len(),
    ensures
        weight_prefix(ps.update(i, v), n) == weight_prefix(ps, n) - ps[i].count + v.count,
    decreases n,
{
    if i == n - 1 {
        lemma_weight_prefix_parts_equal(ps.update(i, v), ps, n - 1);
    } else {
        lemma_weight_prefix_update(ps, i, v, n - 1);
    }
}

pub proof fn lemma_weight_prefix_mono(ps: Seq<ColorPoint>, m: int, n: int)
    requires
        0 <= m <= n <= ps.len(),
    ensures
        weight_prefix(ps, m) <= weight_prefix(ps, n),
    decreases n,
{
    if m < n {
        lemma_weight_prefix_mono(ps, m, n - 1);
    }
}

} // verus!
