//! The distance-field grid.
//!
//! A regular 2D grid of cells in row-major order, one cell per pixel of
//! the rasterised world. The cell payload (the wall-repulsion vector) is
//! the caller's type; this module owns the shape: the grid holds exactly
//! `width * height` cells, and a query answers iff the coordinates fall
//! inside the grid, so an out-of-range lookup yields the caller's zero.

use vstd::prelude::*;

verus! {

/// A row-major 2D grid of `width * height` cells.
pub struct DistanceField<T> {
    pub width: u32,
    pub height: u32,
    pub data: Vec<T>,
}

impl<T: Copy> DistanceField<T> {
    /// The grid invariant: the data holds one cell per coordinate pair.
    pub open spec fn wf(&self) -> bool {
        self.data@.len() == self.width * self.height
    }

    /// Build a grid from its cells.
    pub fn new(width: u32, height: u32, data: Vec<T>) -> (f: DistanceField<T>)
        requires
            data@.len() == width * height,
        ensures
            f.wf(),
            f.width == width,
            f.height == height,
            f.data == data,
    {
        DistanceField { width, height, data }
    }

    /// How many cells the grid holds.
    pub fn len(&self) -> (n: usize)
        requires
            self.wf(),
        ensures
            n == self.width * self.height,
    {
        self.data.len()
    }

    /// Look up the cell at `(x, y)`: a cell comes back iff the
    /// coordinates lie inside the grid.
    pub fn query(&self, x: u32, y: u32) -> (r: Option<T>)
        requires
            self.wf(),
        ensures
            r is Some <==> x < self.width && y < self.height,
            (match r {
                Some(v) => v == self.data@[y * self.width + x],
                None => true,
            }),
    {
        if x >= self.width || y >= self.height {
            return None;
        }
        let n = self.data.len();
        proof {
            assert((y as int) * (self.width as int) + (x as int) < (self.width as int) * (
            self.height as int)) by (nonlinear_arith)
                requires
                    (x as int) < (self.width as int),
                    (y as int) < (self.height as int),
            ;
            assert((y as int) * (self.width as int) + (x as int) < n as int);
        }
        let idx: usize = (y as usize) * (self.width as usize) + (x as usize);
        Some(self.data[idx])
    }
}

} // verus!
