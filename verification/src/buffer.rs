//! The pixel buffer a dither strategy mutates in place.
use vstd::prelude::*;

use crate::color::Rgb;

verus! {

/// A width x height grid of RGB pixels in raster (row-major) order. A dither
/// strategy only ever rewrites pixel values: the dimensions never change.
pub struct PixelBuffer {
    pub width: u32,
    pub height: u32,
    pub pixels: Vec<Rgb>,
}

impl PixelBuffer {
    /// The grid holds exactly width * height pixels.
    pub open spec fn wf(self) -> bool {
        self.pixels@.len() == self.width as int * self.height as int
    }

    /// Builds a buffer from its dimensions and its raster-order pixels.
    pub fn new(width: u32, height: u32, pixels: Vec<Rgb>) -> (b: PixelBuffer)
        requires
            pixels@.len() == width as int * height as int,
        ensures
            b.wf(),
            b.width == width,
            b.height == height,
            b.pixels@ == pixels@,
    {
        PixelBuffer { width, height, pixels }
    }

    /// The pixel at column `x` of row `y`.
    pub fn get(&self, x: u32, y: u32) -> (p: Rgb)
        requires
            self.wf(),
            x < self.width,
            y < self.height,
        ensures
            p == self.pixels@[y as int * self.width as int + x as int],
    {
        proof {
            crate::buffer::lemma_raster_index(
                self.width as int,
                self.height as int,
                x as int,
                y as int,
            );
        }
        let n: usize = self.pixels.len();
        let idx: usize = y as usize * self.width as usize + x as usize;
        self.pixels[idx]
    }
}

/// A raster index y * width + x lies inside the grid.
pub proof fn lemma_raster_index(w: int, h: int, x: int, y: int)
    by (nonlinear_arith)
    requires
        0 <= x < w,
        0 <= y < h,
    ensures
        0 <= y * w,
        0 <= y * w + x < w * h,
        (y * w + x) % w == x,
        (y * w + x) / w == y,
{
}

} // verus!
