//! A dither matrix: like a pattern, but read with wrap-around so that it
//! tiles an arbitrarily large image.

use vstd::prelude::*;
use crate::pattern::lemma_grid_index;

verus! {

pub struct DitherMatrix {
    pub width: u32,
    pub height: u32,
    pub levels: u32,
    pub data: Vec<u32>,
}

impl View for DitherMatrix {
    type V = Seq<u32>;

    open spec fn view(&self) -> Seq<u32> {
        self.data@
    }
}

impl DitherMatrix {
    pub open spec fn wf(self) -> bool {
        self@.len() == self.width * self.height
    }

    /// An all-zero matrix of the given dimensions.
    pub fn new(width: u32, height: u32, levels: u32) -> (m: DitherMatrix)
        requires
            width * height <= usize::MAX,
        ensures
            m.wf(),
            m.width == width,
            m.height == height,
            m.levels == levels,
            forall|i: int| 0 <= i < m@.len() ==> m@[i] == 0,
    {
        let n: usize = (width as usize) * (height as usize);
        let mut data: Vec<u32> = Vec::new();
        while data.len() < n
            invariant
                data@.len() <= n,
                forall|i: int| 0 <= i < data@.len() ==> data@[i] == 0,
            decreases n - data@.len(),
        {
            data.push(0);
        }
        DitherMatrix { width, height, levels, data }
    }

    /// Write one cell.
    pub fn set(&mut self, x: u32, y: u32, level: u32)
        requires
            old(self).wf(),
            x < old(self).width,
            y < old(self).height,
        ensures
            final(self).wf(),
            final(self)@ == old(self)@.update(x + y * old(self).width, level),
            final(self).width == old(self).width,
            final(self).height == old(self).height,
            final(self).levels == old(self).levels,
    {
        proof {
            lemma_grid_index(x as int, y as int, self.width as int, self.height as int);
        }
        let _len = self.data.len();
        let idx: usize = (x as usize) + (y as usize) * (self.width as usize);
        self.data.set(idx, level);
    }

    /// Read the cell under `(x, y)`, tiling the matrix over the plane.
    pub fn get(&self, x: u32, y: u32) -> (level: u32)
        requires
            self.wf(),
            self.width > 0,
            self.height > 0,
        ensures
            level == self@[(x % self.width) + (y % self.height) * self.width],
    {
        proof {
            lemma_grid_index(
                (x % self.width) as int,
                (y % self.height) as int,
                self.width as int,
                self.height as int,
            );
        }
        let _len = self.data.len();
        let idx: usize = ((x % self.width) as usize) + ((y % self.height) as usize) * (
        self.width as usize);
        self.data[idx]
    }
}

} // verus!
