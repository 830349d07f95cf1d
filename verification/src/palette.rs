//! The palette: an ordered list of integer colors, sorted by luminance
//! before it is handed out, with nearest-color lookup for conversion.

use vstd::prelude::*;
use crate::colors::{Centroid, IntColor};

verus! {

/// Whether a color sequence is ordered by non-decreasing luminance.
pub open spec fn sorted_by_lum(s: Seq<IntColor>) -> bool {
    forall|i: int, j: int|
        0 <= i < j < s.len() ==> #[trigger] s[i].lum_key() <= #[trigger] s[j].lum_key()
}

/// First index with minimal luminance when scanning `s` from `j` upward
/// with `best` the minimal index seen so far; only a strictly smaller
/// key replaces it.
pub open spec fn min_lum_scan(s: Seq<IntColor>, j: int, best: int) -> int
    decreases s.len() - j,
{
    if j < 0 || j >= s.len() {
        best
    } else if s[j].lum_key() < s[best].lum_key() {
        min_lum_scan(s, j + 1, j)
    } else {
        min_lum_scan(s, j + 1, best)
    }
}

/// The palette after the first `i` rounds of selection sorting: round
/// `i` swaps the first minimal entry of the suffix into position `i - 1`.
pub open spec fn sel_iter(s: Seq<IntColor>, i: int) -> Seq<IntColor>
    decreases i,
{
    if i <= 0 {
        s
    } else {
        let prev = sel_iter(s, i - 1);
        let b = min_lum_scan(prev, i, i - 1);
        prev.update(i - 1, prev[b]).update(b, prev[i - 1])
    }
}

/// The palette fully selection-sorted by luminance, first-minimum ties
/// kept in place: the exact result of `Palette::sort`.
pub open spec fn sel_sorted(s: Seq<IntColor>) -> Seq<IntColor> {
    sel_iter(s, s.len() as int)
}

/// Selection-sorting a pair: the darker color first, ties keeping the
/// original order.
pub proof fn lemma_sel_sort_pair(x: IntColor, y: IntColor)
    ensures
        sel_sorted(seq![x, y]) == if y.lum_key() < x.lum_key() {
            seq![y, x]
        } else {
            seq![x, y]
        },
{
    let s = seq![x, y];
    assert(sel_iter(s, 0) == s);
    assert(min_lum_scan(s, 2, 0) == 0);
    assert(min_lum_scan(s, 2, 1) == 1);
    if y.lum_key() < x.lum_key() {
        assert(min_lum_scan(s, 1, 0) == 1);
        assert(sel_iter(s, 1) =~= seq![y, x]);
        assert(min_lum_scan(sel_iter(s, 1), 2, 1) == 1);
        assert(sel_iter(s, 2) =~= seq![y, x]);
    } else {
        assert(min_lum_scan(s, 1, 0) == 0);
        assert(sel_iter(s, 1) =~= s);
        assert(min_lum_scan(sel_iter(s, 1), 2, 1) == 1);
        assert(sel_iter(s, 2) =~= s);
    }
}

/// The palette colors a centroid list maps to, one per centroid.
pub open spec fn palette_of(cents: Seq<Centroid>) -> Seq<IntColor> {
    Seq::new(cents.len(), |i: int| cents[i].to_int_color())
}

/// An ordered sequence of palette colors.
#[derive(Debug, PartialEq)]
pub struct Palette {
    pub colors: Vec<IntColor>,
}

impl View for Palette {
    type V = Seq<IntColor>;

    open spec fn view(&self) -> Seq<IntColor> {
        self.colors@
    }
}

impl Palette {
    pub open spec fn wf(self) -> bool {
        forall|i: int| 0 <= i < self@.len() ==> (#[trigger] self@[i]).wf()
    }

    pub fn new() -> (p: Palette)
        ensures
            p@ =~= Seq::<IntColor>::empty(),
            p.wf(),
    {
        Palette { colors: Vec::new() }
    }

    pub fn add(&mut self, color: IntColor)
        ensures
            final(self)@ == old(self)@.push(color),
    {
        self.colors.push(color);
    }

    pub fn len(&self) -> (n: usize)
        ensures
            n == self@.len(),
    {
        self.colors.len()
    }

    pub fn get(&self, index: i32) -> (c: IntColor)
        requires
            0 <= index < self@.len(),
        ensures
            c == self@[index as int],
    {
        self.colors[index as usize]
    }

    /// The palette of a centroid list: each centroid quantized back to an
    /// integer color, in centroid order.
    pub fn from(cents: &Vec<Centroid>) -> (p: Palette)
        requires
            forall|i: int| 0 <= i < cents@.len() ==> (#[trigger] cents@[i]).wf(),
        ensures
            p@ == palette_of(cents@),
            p.wf(),
    {
        let mut colors: Vec<IntColor> = Vec::new();
        let mut i: usize = 0;
        while i < cents.len()
            invariant
                i <= cents@.len(),
                colors@.len() == i,
                forall|j: int| 0 <= j < cents@.len() ==> (#[trigger] cents@[j]).wf(),
                forall|j: int| 0 <= j < i ==> #[trigger] colors@[j] == cents@[j].to_int_color(),
                forall|j: int| 0 <= j < i ==> (#[trigger] colors@[j]).wf(),
            decreases cents@.len() - i,
        {
            colors.push(cents[i].to_palette_color());
            i = i + 1;
        }
        proof {
            assert(colors@ =~= palette_of(cents@));
        }
        Palette { colors }
    }

    /// Sort the palette in place by non-decreasing luminance.  The colors
    /// are only rearranged: the multiset of entries is unchanged, and the
    /// result is exactly the first-minimum selection sort of the input.
    pub fn sort(&mut self)
        requires
            old(self).wf(),
        ensures
            final(self).wf(),
            sorted_by_lum(final(self)@),
            final(self)@.to_multiset() == old(self)@.to_multiset(),
            final(self)@.len() == old(self)@.len(),
            final(self)@ == sel_sorted(old(self)@),
    {
        let n = self.colors.len();
        let mut i: usize = 0;
        while i < n
            invariant
                i <= n,
                n == self@.len(),
                self.wf(),
                self@.to_multiset() == old(self)@.to_multiset(),
                self@ == sel_iter(old(self)@, i as int),
                forall|a: int, b: int|
                    0 <= a < b < i ==> #[trigger] self@[a].lum_key() <= #[trigger] self@[b].lum_key(),
                forall|a: int, b: int|
                    0 <= a < i <= b < n ==> #[trigger] self@[a].lum_key() <= #[trigger] self@[b].lum_key(),
            decreases n - i,
        {
            let mut best: usize = i;
            let mut j: usize = i + 1;
            while j < n
                invariant
                    i < n,
                    i <= best < j <= n,
                    n == self@.len(),
                    self.wf(),
                    min_lum_scan(self@, j as int, best as int) == min_lum_scan(
                        self@,
                        i as int + 1,
                        i as int,
                    ),
                    forall|a: int|
                        i <= a < j ==> self@[best as int].lum_key() <= #[trigger] self@[a].lum_key(),
                decreases n - j,
            {
                if self.colors[j].luminocity() < self.colors[best].luminocity() {
                    best = j;
                }
                j = j + 1;
            }
            let ghost pre = self@;
            let ci = self.colors[i];
            let cb = self.colors[best];
            self.colors.set(i, cb);
            self.colors.set(best, ci);
            proof {
                lemma_swap_multiset(pre, i as int, best as int);
                assert(self@ == sel_iter(old(self)@, i as int + 1));
            }
            i = i + 1;
        }
    }

    /// Index of the palette color nearest to `color`; the first such index
    /// when several are equally near.
    pub fn find(&self, color: IntColor) -> (idx: i32)
        requires
            1 <= self@.len() <= 0x7fffffff,
            self.wf(),
            color.wf(),
        ensures
            0 <= idx < self@.len(),
            forall|j: int|
                0 <= j < self@.len() ==> color.dist2(self@[idx as int]) <= color.dist2(
                    #[trigger] self@[j],
                ),
            forall|j: int|
                0 <= j < idx ==> color.dist2(self@[idx as int]) < color.dist2(#[trigger] self@[j]),
    {
        let n = self.colors.len();
        let mut best: usize = 0;
        let mut best_d: i32 = color.distance_squared(self.colors[0]);
        let mut j: usize = 1;
        while j < n
            invariant
                n == self@.len(),
                1 <= self@.len() <= 0x7fffffff,
                self.wf(),
                color.wf(),
                0 <= best < j <= self@.len(),
                best_d == color.dist2(self@[best as int]),
                forall|a: int|
                    0 <= a < j ==> best_d <= color.dist2(#[trigger] self@[a]),
                forall|a: int| 0 <= a < best ==> best_d < color.dist2(#[trigger] self@[a]),
            decreases self@.len() - j,
        {
            let d = color.distance_squared(self.colors[j]);
            if d < best_d {
                best_d = d;
                best = j;
            }
            j = j + 1;
        }
        best as i32
    }
}

impl Clone for Palette {
    /// An element-for-element copy of the palette.
    fn clone(&self) -> (res: Self)
        ensures
            res@ == self@,
    {
        let mut colors: Vec<IntColor> = Vec::new();
        let mut i: usize = 0;
        while i < self.colors.len()
            invariant
                i <= self@.len(),
                colors@ == self@.take(i as int),
            decreases self@.len() - i,
        {
            colors.push(self.colors[i]);
            proof {
                assert(colors@ =~= self@.take(i as int + 1));
            }
            i = i + 1;
        }
        proof {
            assert(self@.take(self@.len() as int) =~= self@);
        }
        Palette { colors }
    }
}

/// Exchanging two positions of a sequence leaves its multiset unchanged.
pub proof fn lemma_swap_multiset<A>(s: Seq<A>, i: int, j: int)
    requires
        0 <= i < s.len(),
        0 <= j < s.len(),
    ensures
        s.update(i, s[j]).update(j, s[i]).to_multiset() == s.to_multiset(),
{
    broadcast use vstd::seq_lib::group_to_multiset_ensures;
    broadcast use vstd::multiset::group_multiset_axioms;
    broadcast use vstd::multiset::group_multiset_properties;

    if i == j {
        assert(s.update(i, s[j]).update(j, s[i]) =~= s);
    } else {
        let s1 = s.update(i, s[j]);
        let s2 = s1.update(j, s[i]);
        vstd::seq_lib::to_multiset_update(s, i, s[j]);
        vstd::seq_lib::to_multiset_update(s1, j, s[i]);
        assert(s1[j] == s[j]);
        assert(s2.to_multiset() =~= s.to_multiset());
    }
}

} // verus!
