//! The framebuffer's backing store: a flat row-major grid of bytes, and the
//! pixel type used when the grid is rendered to a byte buffer for display.

use vstd::prelude::*;

verus! {

/// A two-dimensional grid stored as one flat row-major vector. Cell (x, y)
/// lives at index `y * width + x`.
pub struct Flat2DArray {
    pub width: usize,
    pub data: Vec<u8>,
}

impl Flat2DArray {
    /// The grid's width, fixed at construction.
    pub open spec fn spec_width(&self) -> int {
        self.width as int
    }

    /// A grid of the given dimensions, every cell zero.
    pub fn new(width: usize, height: usize) -> (r: Flat2DArray)
        requires
            width * height <= usize::MAX,
        ensures
            r.spec_width() == width,
            r.data@.len() == width * height,
            forall|k: int| 0 <= k < r.data@.len() ==> r.data@[k] == 0u8,
    {
        let data = vec![0u8; width * height];
        Flat2DArray { width, data }
    }

    /// Resets every cell to zero; the dimensions stay.
    pub fn clear(&mut self)
        ensures
            final(self).spec_width() == old(self).spec_width(),
            final(self).data@.len() == old(self).data@.len(),
            forall|k: int| 0 <= k < final(self).data@.len() ==> final(self).data@[k] == 0u8,
    {
        let n = self.data.len();
        let mut k: usize = 0;
        while k < n
            invariant
                n == self.data@.len(),
                self.width == old(self).width,
                k <= n,
                forall|j: int| 0 <= j < k ==> self.data@[j] == 0u8,
            decreases n - k,
        {
            self.data[k] = 0;
            k = k + 1;
        }
    }

    /// The cell at (x, y).
    pub fn get(&self, x: usize, y: usize) -> (r: &u8)
        requires
            x < self.spec_width(),
            y * self.spec_width() + x < self.data@.len(),
        ensures
            *r == self.data@[y * self.spec_width() + x],
    {
        let n = self.data.len();
        proof {
            assert(y * self.spec_width() + x < n);
        }
        &self.data[y * self.width + x]
    }

    /// Writes the cell at (x, y).
    pub fn set(&mut self, x: usize, y: usize, value: u8)
        requires
            x < old(self).spec_width(),
            y * old(self).spec_width() + x < old(self).data@.len(),
        ensures
            final(self).spec_width() == old(self).spec_width(),
            final(self).data@ == old(self).data@.update(
                y * old(self).spec_width() + x,
                value,
            ),
    {
        let n = self.data.len();
        proof {
            assert(y * old(self).spec_width() + x < n);
        }
        let idx = y * self.width + x;
        self.data[idx] = value;
    }
}

/// One rendered pixel: a red, green and blue channel byte and one padding
/// byte, so that a pixel occupies four bytes in the output buffer.
pub struct Pixel {
    pub r: u8,
    pub g: u8,
    pub b: u8,
    pub pad: u8,
}

impl Pixel {
    /// A pixel of the given channel values, padding zero.
    pub fn new(r: u8, g: u8, b: u8) -> (p: Pixel)
        ensures
            p.r == r,
            p.g == g,
            p.b == b,
            p.pad == 0,
    {
        Pixel { r, g, b, pad: 0 }
    }

    /// The full-intensity white used for a lit framebuffer cell.
    pub fn white() -> (p: Pixel)
        ensures
            p.r == 255,
            p.g == 255,
            p.b == 255,
            p.pad == 0,
    {
        Pixel::new(255, 255, 255)
    }
}

impl Default for Pixel {
    /// The all-black pixel used for a dark framebuffer cell.
    fn default() -> (p: Pixel)
        ensures
            p.r == 0,
            p.g == 0,
            p.b == 0,
            p.pad == 0,
    {
        Pixel::new(0, 0, 0)
    }
}

} // verus!
