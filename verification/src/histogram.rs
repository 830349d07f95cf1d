//! Dense color histogram over the full 256x256x256 RGB cube.
//!
//! Pixels arrive as raw interleaved RGB bytes (the layout image decoders
//! hand out); every complete `r, g, b` triple bumps the matching cell.

use vstd::prelude::*;

verus! {

/// Number of cells: one per representable RGB triple.
pub const HIST_CELLS: usize = 16777216;

/// Sum of the first `n` cells.
pub open spec fn sum_prefix(s: Seq<u64>, n: int) -> int
    decreases n,
{
    if n <= 0 {
        0
    } else {
        sum_prefix(s, n - 1) + s[n - 1]
    }
}

/// Total count held by a histogram: the number of pixels accumulated.
pub open spec fn hist_total(s: Seq<u64>) -> int {
    sum_prefix(s, s.len() as int)
}

/// Cell index of the `t`-th pixel triple of a raw RGB byte stream.
pub open spec fn pix_cell(pix: Seq<u8>, t: int) -> int {
    pix[3 * t] * 65536 + pix[3 * t + 1] * 256 + pix[3 * t + 2]
}

/// The histogram contents after accumulating the first `t` pixel triples.
pub open spec fn accumulate(d: Seq<u64>, pix: Seq<u8>, t: int) -> Seq<u64>
    decreases t,
{
    if t <= 0 {
        d
    } else {
        let prev = accumulate(d, pix, t - 1);
        let idx = pix_cell(pix, t - 1);
        prev.update(idx, ((prev[idx] + 1) as u64))
    }
}

pub proof fn lemma_sum_prefix_nonneg(s: Seq<u64>, n: int)
    requires
        n <= s.len(),
    ensures
        0 <= sum_prefix(s, n),
    decreases n,
{
    if n > 0 {
        lemma_sum_prefix_nonneg(s, n - 1);
    }
}

pub proof fn lemma_sum_elem_bound(s: Seq<u64>, i: int, n: int)
    requires
        0 <= i < n <= s.len(),
    ensures
        s[i] <= sum_prefix(s, n),
    decreases n,
{
    if i == n - 1 {
        lemma_sum_prefix_nonneg(s, n - 1);
    } else {
        lemma_sum_elem_bound(s, i, n - 1);
    }
}

pub proof fn lemma_sum_prefix_update(s: Seq<u64>, i: int, v: u64, n: int)
    requires
        0 <= i < n <= s.len(),
    ensures
        sum_prefix(s.update(i, v), n) == sum_prefix(s, n) - s[i] + v,
    decreases n,
{
    if i == n - 1 {
        assert(forall|j: int| 0 <= j < n - 1 ==> s.update(i, v)[j] == s[j]);
        lemma_sum_prefix_parts_equal(s, s.update(i, v), n - 1);
    } else {
        lemma_sum_prefix_update(s, i, v, n - 1);
    }
}

pub proof fn lemma_sum_prefix_parts_equal(a: Seq<u64>, b: Seq<u64>, n: int)
    requires
        n <= a.len(),
        n <= b.len(),
        forall|j: int| 0 <= j < n ==> a[j] == b[j],
    ensures
        sum_prefix(a, n) == sum_prefix(b, n),
    decreases n,
{
    if n > 0 {
        lemma_sum_prefix_parts_equal(a, b, n - 1);
    }
}

pub proof fn lemma_sum_prefix_zero(s: Seq<u64>, n: int)
    requires
        0 <= n <= s.len(),
        forall|i: int| 0 <= i < n ==> s[i] == 0,
    ensures
        sum_prefix(s, n) == 0,
    decreases n,
{
    if n > 0 {
        lemma_sum_prefix_zero(s, n - 1);
    }
}

/// Accumulating `t` triples grows the total by exactly `t`, as long as the
/// grand total stays below the cell capacity.
pub proof fn lemma_accumulate_total(d: Seq<u64>, pix: Seq<u8>, t: int)
    requires
        d.len() == HIST_CELLS,
        0 <= t,
        3 * t <= pix.len(),
        hist_total(d) + t <= u64::MAX,
    ensures
        accumulate(d, pix, t).len() == HIST_CELLS,
        hist_total(accumulate(d, pix, t)) == hist_total(d) + t,
    decreases t,
{
    if t > 0 {
        lemma_accumulate_total(d, pix, t - 1);
        let prev = accumulate(d, pix, t - 1);
        let idx = pix_cell(pix, t - 1);
        lemma_sum_elem_bound(prev, idx, prev.len() as int);
        lemma_sum_prefix_update(prev, idx, ((prev[idx] + 1) as u64), prev.len() as int);
    }
}

/// Occurrence counts for every representable color, merged over all input
/// images.
pub struct ColorData {
    pub data: Vec<u64>,
}

impl ColorData {
    pub open spec fn wf(self) -> bool {
        self.data@.len() == HIST_CELLS
    }

    /// Total number of pixels accumulated so far.
    pub open spec fn total(self) -> int {
        hist_total(self.data@)
    }

    /// An all-zero histogram.
    pub fn new() -> (h: ColorData)
        ensures
            h.wf(),
            h.data@ =~= Seq::new(HIST_CELLS as nat, |i: int| 0u64),
            h.total() == 0,
    {
        let data: Vec<u64> = vec![0u64; HIST_CELLS];
        proof {
            lemma_sum_prefix_zero(data@, data@.len() as int);
        }
        ColorData { data }
    }

    /// Accumulate one image given as raw interleaved RGB bytes: every
    /// complete `r, g, b` triple increments the count of its exact color.
    /// May be called repeatedly to merge several images.
    pub fn add(&mut self, pixels: &Vec<u8>)
        requires
            old(self).wf(),
            old(self).total() + pixels@.len() / 3 <= u64::MAX,
        ensures
            final(self).wf(),
            final(self).data@ == accumulate(old(self).data@, pixels@, pixels@.len() as int / 3),
            final(self).total() == old(self).total() + pixels@.len() / 3,
    {
        let n = pixels.len() / 3;
        proof {
            vstd::arithmetic::div_mod::lemma_fundamental_div_mod(pixels@.len() as int, 3);
        }
        let ghost d0 = self.data@;
        let mut t: usize = 0;
        while t < n
            invariant
                self.wf(),
                n == pixels@.len() / 3,
                3 * n <= pixels@.len(),
                pixels@.len() <= usize::MAX,
                t <= n,
                self.data@ == accumulate(d0, pixels@, t as int),
                d0.len() == HIST_CELLS,
                hist_total(d0) + n <= u64::MAX,
                self.total() == hist_total(d0) + t,
            decreases n - t,
        {
            let r = pixels[3 * t] as usize;
            let g = pixels[3 * t + 1] as usize;
            let b = pixels[3 * t + 2] as usize;
            let idx = r * 65536 + g * 256 + b;
            proof {
                lemma_sum_elem_bound(self.data@, idx as int, self.data@.len() as int);
                lemma_sum_prefix_update(
                    self.data@,
                    idx as int,
                    ((self.data@[idx as int] + 1) as u64),
                    self.data@.len() as int,
                );
            }
            let c = self.data[idx];
            self.data.set(idx, c + 1);
            t = t + 1;
        }
        proof {
            lemma_accumulate_total(d0, pixels@, n as int);
        }
    }

    /// Total number of pixels accumulated, as a machine value.
    pub fn total_count(&self) -> (n: u64)
        requires
            self.wf(),
            self.total() <= u64::MAX,
        ensures
            n == self.total(),
    {
        let mut sum: u64 = 0;
        let mut i: usize = 0;
        proof {
            lemma_sum_prefix_nonneg(self.data@, self.data@.len() as int);
        }
        while i < self.data.len()
            invariant
                self.wf(),
                i <= self.data@.len(),
                sum == sum_prefix(self.data@, i as int),
                hist_total(self.data@) <= u64::MAX,
                0 <= hist_total(self.data@),
            decreases self.data@.len() - i,
        {
            proof {
                lemma_sum_prefix_nonneg(self.data@, i as int);
                lemma_sum_prefix_mono(self.data@, i as int + 1, self.data@.len() as int);
                assert(sum_prefix(self.data@, i as int + 1) == sum_prefix(self.data@, i as int)
                    + self.data@[i as int]);
            }
            sum = sum + self.data[i];
            i = i + 1;
        }
        sum
    }
}

pub proof fn lemma_sum_prefix_mono(s: Seq<u64>, m: int, n: int)
    requires
        0 <= m <= n <= s.len(),
    ensures
        sum_prefix(s, m) <= sum_prefix(s, n),
    decreases n,
{
    if m < n {
        lemma_sum_prefix_mono(s, m, n - 1);
    }
}

} // verus!
