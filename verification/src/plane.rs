//! A rectangular plane of values, stored row-major; the image-shaped
//! working buffer the conversion passes share.

use vstd::prelude::*;
use crate::pattern::lemma_grid_index;

verus! {

pub struct Plane<T> {
    pub width: u32,
    pub height: u32,
    pub data: Vec<T>,
}

impl<T> View for Plane<T> {
    type V = Seq<T>;

    open spec fn view(&self) -> Seq<T> {
        self.data@
    }
}

impl<T: Copy> Plane<T> {
    pub open spec fn wf(self) -> bool {
        self@.len() == self.width * self.height
    }

    /// A plane of the given dimensions with every cell set to `init`.
    pub fn new(width: u32, height: u32, init: T) -> (p: Plane<T>)
        requires
            width * height <= usize::MAX,
        ensures
            p.wf(),
            p.width == width,
            p.height == height,
            forall|i: int| 0 <= i < p@.len() ==> p@[i] == init,
    {
        let n: usize = (width as usize) * (height as usize);
        let mut data: Vec<T> = Vec::new();
        while data.len() < n
            invariant
                data@.len() <= n,
                forall|i: int| 0 <= i < data@.len() ==> data@[i] == init,
            decreases n - data@.len(),
        {
            data.push(init);
        }
        Plane { width, height, data }
    }

    /// Write one cell.
    pub fn set(&mut self, x: u32, y: u32, value: T)
        requires
            old(self).wf(),
            x < old(self).width,
            y < old(self).height,
        ensures
            final(self).wf(),
            final(self)@ == old(self)@.update(x + y * old(self).width, value),
            final(self).width == old(self).width,
            final(self).height == old(self).height,
    {
        proof {
            lemma_grid_index(x as int, y as int, self.width as int, self.height as int);
        }
        let _len = self.data.len();
        let idx: usize = (x as usize) + (y as usize) * (self.width as usize);
        self.data.set(idx, value);
    }

    /// Read one cell.
    pub fn get(&self, x: u32, y: u32) -> (value: T)
        requires
            self.wf(),
            x < self.width,
            y < self.height,
        ensures
            value == self@[x + y * self.width],
    {
        proof {
            lemma_grid_index(x as int, y as int, self.width as int, self.height as int);
        }
        let _len = self.data.len();
        let idx: usize = (x as usize) + (y as usize) * (self.width as usize);
        self.data[idx]
    }
}

impl<T: Copy> Clone for Plane<T> {
    /// A cell-for-cell copy of the plane.
    fn clone(&self) -> (res: Self)
        ensures
            res@ == self@,
            res.width == self.width,
            res.height == self.height,
    {
        let mut data: Vec<T> = Vec::new();
        let mut i: usize = 0;
        while i < self.data.len()
            invariant
                i <= self@.len(),
                data@ == self@.take(i as int),
            decreases self@.len() - i,
        {
            data.push(self.data[i]);
            proof {
                assert(data@ =~= self@.take(i as int + 1));
            }
            i = i + 1;
        }
        proof {
            assert(self@.take(self@.len() as int) =~= self@);
        }
        Plane { width: self.width, height: self.height, data }
    }
}

} // verus!
