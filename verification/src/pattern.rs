//! A dither pattern: a rectangular grid of threshold levels.

use vstd::prelude::*;

verus! {

/// A `width` x `height` grid of levels, stored row-major.
pub struct Pattern {
    pub width: u32,
    pub height: u32,
    pub levels: u32,
    pub data: Vec<u32>,
}

impl View for Pattern {
    type V = Seq<u32>;

    open spec fn view(&self) -> Seq<u32> {
        self.data@
    }
}

/// A grid coordinate stays inside the row-major backing store.
pub proof fn lemma_grid_index(x: int, y: int, w: int, h: int)
    requires
        0 <= x < w,
        0 <= y < h,
    ensures
        0 <= x + y * w < w * h,
    {
    assert(x + y * w < w * h) by (nonlinear_arith)
        requires
            0 <= x < w,
            0 <= y < h,
    ;
    assert(0 <= y * w) by (nonlinear_arith)
        requires
            0 <= y,
            0 <= w,
    ;
}

impl Pattern {
    pub open spec fn wf(self) -> bool {
        self@.len() == self.width * self.height
    }

    /// An all-zero pattern of the given dimensions.
    pub fn new(width: u32, height: u32, levels: u32) -> (p: Pattern)
        requires
            width * height <= usize::MAX,
        ensures
            p.wf(),
            p.width == width,
            p.height == height,
            p.levels == levels,
            forall|i: int| 0 <= i < p@.len() ==> p@[i] == 0,
    {
        let n: usize = (width as usize) * (height as usize);
        let mut data: Vec<u32> = Vec::new();
        while data.len() < n
            invariant
                data@.len() <= n,
                forall|i: int| 0 <= i < data@.len() ==> data@[i] == 0,
            decreases n - data@.len(),
        {
            data.push(0);
        }
        Pattern { width, height, levels, data }
    }

    /// Write one cell.
    pub fn set(&mut self, x: u32, y: u32, level: u32)
        requires
            old(self).wf(),
            x < old(self).width,
            y < old(self).height,
        ensures
            final(self).wf(),
            final(self)@ == old(self)@.update(x + y * old(self).width, level),
            final(self).width == old(self).width,
            final(self).height == old(self).height,
            final(self).levels == old(self).levels,
    {
        proof {
            lemma_grid_index(x as int, y as int, self.width as int, self.height as int);
        }
        let _len = self.data.len();
        let idx: usize = (x as usize) + (y as usize) * (self.width as usize);
        self.data.set(idx, level);
    }

    /// Read one cell.
    pub fn get(&self, x: u32, y: u32) -> (level: u32)
        requires
            self.wf(),
            x < self.width,
            y < self.height,
        ensures
            level == self@[x + y * self.width],
    {
        proof {
            lemma_grid_index(x as int, y as int, self.width as int, self.height as int);
        }
        let _len = self.data.len();
        let idx: usize = (x as usize) + (y as usize) * (self.width as usize);
        self.data[idx]
    }
}

} // verus!
