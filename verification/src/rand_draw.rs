//! A demo pixel source: xorshift noise tinted with a per-worker color.

use vstd::prelude::*;

verus! {

/// One worker's noise generator: an xorshift state and the color mask its
/// pixels are tinted with. Every worker starts from the same seed but is
/// handed its own color, so parallel slices of the screen are told apart
/// by hue.
pub struct RandDraw {
    factor: u64,
    color: (u8, u8, u8),
}

impl RandDraw {
    /// The xorshift step the generator advances by for every pixel.
    pub open spec fn spec_xorshift(x: u64) -> u64 {
        let a = x ^ (x << 13u64);
        let b = a ^ (a >> 17u64);
        b ^ (b << 5u64)
    }

    /// The color a worker with the given index draws in.
    pub open spec fn spec_base_color(i: int) -> (u8, u8, u8) {
        if i == 0 {
            (255u8, 0u8, 0u8)
        } else if i == 1 {
            (255u8, 0u8, 255u8)
        } else if i == 2 {
            (0u8, 255u8, 255u8)
        } else if i == 3 {
            (255u8, 255u8, 0u8)
        } else if i == 4 {
            (0u8, 255u8, 0u8)
        } else if i == 5 {
            (0u8, 0u8, 255u8)
        } else {
            (255u8, 255u8, 255u8)
        }
    }

    pub closed spec fn factor(self) -> u64 {
        self.factor
    }

    pub closed spec fn color(self) -> (u8, u8, u8) {
        self.color
    }

    /// A generator for worker `id` of `_max_id` drawing a screen of
    /// `_x` by `_y` pixels; only the worker index matters here.
    pub fn new(id: usize, _max_id: usize, _x: u32, _y: u32) -> (r: Self)
        ensures
            r.factor() == 0xFEFABABEu64,
            r.color() == Self::spec_base_color(id as int % 7),
    {
        let sel: usize = id % 7;
        let color: (u8, u8, u8) = if sel == 0 {
            (255, 0, 0)
        } else if sel == 1 {
            (255, 0, 255)
        } else if sel == 2 {
            (0, 255, 255)
        } else if sel == 3 {
            (255, 255, 0)
        } else if sel == 4 {
            (0, 255, 0)
        } else if sel == 5 {
            (0, 0, 255)
        } else {
            (255, 255, 255)
        };
        RandDraw { factor: 0xFEFABABE, color }
    }

    /// Advance the generator and produce the next pixel as (r, g, b, a):
    /// the high byte of the new state, masked with the worker's color, and
    /// that byte itself as alpha.
    pub fn get_pixel(&mut self, _x: u32, _y: u32) -> (rgba: (u8, u8, u8, u8))
        ensures
            final(self).factor() == Self::spec_xorshift(old(self).factor()),
            final(self).color() == old(self).color(),
            ({
                let rnd = (Self::spec_xorshift(old(self).factor()) >> 56u64) as u8;
                rgba == (
                    rnd & old(self).color().0,
                    rnd & old(self).color().1,
                    rnd & old(self).color().2,
                    rnd,
                )
            }),
    {
        self.factor = self.factor ^ (self.factor << 13);
        self.factor = self.factor ^ (self.factor >> 17);
        self.factor = self.factor ^ (self.factor << 5);
        let rnd = #[verifier::truncate] ((self.factor >> 56) as u8);
        (rnd & self.color.0, rnd & self.color.1, rnd & self.color.2, rnd)
    }
}

} // verus!
