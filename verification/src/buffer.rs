//! A flat framebuffer of packed `u32` pixels.
//!
//! The name records the buffer's role in an application: a display thread
//! may read pixels while workers overwrite them, and any interleaving of
//! old and new pixels is acceptable to show. The library models the buffer
//! as a plain owned vector with checked indexing; the application layer
//! adds whatever sharing its display loop needs.

use vstd::prelude::*;

verus! {

/// A fixed-size buffer of packed pixels, viewed as the sequence of its
/// pixel values.
pub struct RelaxedBuffer {
    data: Vec<u32>,
}

impl View for RelaxedBuffer {
    type V = Seq<u32>;

    closed spec fn view(&self) -> Seq<u32> {
        self.data@
    }
}

impl RelaxedBuffer {
    /// A buffer of `size` pixels, all set to `init_value`. A screen has at
    /// least one pixel: `size` must be positive.
    pub fn new(size: usize, init_value: u32) -> (r: Self)
        requires
            size > 0,
        ensures
            r@.len() == size,
            forall|i: int| 0 <= i < size ==> r@[i] == init_value,
    {
        let mut data: Vec<u32> = Vec::new();
        while data.len() < size
            invariant
                data@.len() <= size,
                forall|i: int| 0 <= i < data@.len() ==> data@[i] == init_value,
            decreases size - data@.len(),
        {
            data.push(init_value);
        }
        RelaxedBuffer { data }
    }

    /// Read the pixel at `idx`.
    pub fn get(&self, idx: usize) -> (r: u32)
        requires
            idx < self@.len(),
        ensures
            r == self@[idx as int],
    {
        self.data[idx]
    }

    /// Overwrite the pixel at `idx`.
    pub fn set(&mut self, idx: usize, val: u32)
        requires
            idx < old(self)@.len(),
        ensures
            final(self)@ == old(self)@.update(idx as int, val),
    {
        self.data[idx] = val;
    }

    /// Set every pixel to `val`.
    pub fn fill(&mut self, val: u32)
        ensures
            final(self)@.len() == old(self)@.len(),
            forall|i: int| 0 <= i < final(self)@.len() ==> final(self)@[i] == val,
    {
        let mut idx: usize = 0;
        let n: usize = self.data.len();
        while idx < n
            invariant
                n == self.data@.len(),
                idx <= n,
                forall|i: int| 0 <= i < idx ==> self.data@[i] == val,
            decreases n - idx,
        {
            self.data[idx] = val;
            idx += 1;
        }
    }
}

/// Where a screen pixel lands in the buffer: coordinates wrap at the
/// screen edges, and the y axis is flipped so that (0, 0) is the lower
/// left corner of the screen.
pub open spec fn spec_pixel_offset(x: int, y: int, width: int, height: int) -> int {
    (height - 1 - (y % height)) * width + (x % width)
}

/// Compute the buffer offset of a screen pixel.
pub fn pixel_offset(x: u32, y: u32, width: u32, height: u32) -> (r: usize)
    requires
        width > 0,
        height > 0,
        width * height <= 0xFFFF_FFFF,
    ensures
        r == spec_pixel_offset(x as int, y as int, width as int, height as int),
{
    let true_x: u32 = x % width;
    let true_y: u32 = y % height;
    let inv_y: u32 = height - true_y - 1;
    proof {
        assert(inv_y * width + true_x < width * height) by (nonlinear_arith)
            requires
                inv_y < height,
                true_x < width,
                width > 0,
                height > 0,
        ;
    }
    (inv_y * width + true_x) as usize
}

} // verus!
