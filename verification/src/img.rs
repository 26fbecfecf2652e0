//! A decoded raster image as plain values: a row-major buffer of RGB pixels.

use vstd::prelude::*;

verus! {

/// The largest width or height the engine works with. Keeping both
/// dimensions in this range lets every pixel index and channel sum fit
/// comfortably in the machine integers the engine uses.
pub const MAX_DIM: u32 = 0xFFFF;

/// The pixel of column `x`, row `y` in a row-major buffer of row stride `iw`.
pub open spec fn pixel_at(px: Seq<(u8, u8, u8)>, iw: int, x: int, y: int) -> (u8, u8, u8) {
    px[y * iw + x]
}

/// A decoded image: `pixels[y * width + x]` is the pixel of column `x`,
/// row `y`, as `(red, green, blue)` channel bytes.
#[derive(Clone, Debug, PartialEq, Eq)]
pub struct Img {
    pub width: u32,
    pub height: u32,
    pub pixels: Vec<(u8, u8, u8)>,
}

impl Img {
    /// The buffer holds exactly one pixel per coordinate, and both
    /// dimensions are within the engine's working range.
    pub open spec fn wf(self) -> bool {
        &&& self.pixels@.len() == self.width * self.height
        &&& self.width <= MAX_DIM
        &&& self.height <= MAX_DIM
    }

    /// The pixel of column `x`, row `y`.
    pub open spec fn spec_pixel(self, x: int, y: int) -> (u8, u8, u8) {
        pixel_at(self.pixels@, self.width as int, x, y)
    }

    pub fn pixel(&self, x: u32, y: u32) -> (p: (u8, u8, u8))
        requires
            self.wf(),
            x < self.width,
            y < self.height,
        ensures
            p == self.spec_pixel(x as int, y as int),
    {
        proof {
            lemma_row_major_in_range(self.width as int, self.height as int, x as int, y as int);
            assert(self.width * self.height <= 0xFFFF * 0xFFFF) by (nonlinear_arith)
                requires
                    self.width <= 0xFFFF,
                    self.height <= 0xFFFF,
            ;
        }
        self.pixels[y as usize * self.width as usize + x as usize]
    }

    /// A canvas of the given dimensions, every pixel black.
    pub fn filled(width: u32, height: u32) -> (img: Img)
        requires
            width <= MAX_DIM,
            height <= MAX_DIM,
        ensures
            img.wf(),
            img.width == width,
            img.height == height,
            forall|k: int| 0 <= k < img.pixels@.len() ==> img.pixels@[k] == ((0u8, 0u8, 0u8)),
    {
        proof {
            assert(width * height <= 0xFFFF * 0xFFFF) by (nonlinear_arith)
                requires
                    width <= 0xFFFF,
                    height <= 0xFFFF,
            ;
        }
        let n: usize = width as usize * height as usize;
        let mut pixels: Vec<(u8, u8, u8)> = Vec::new();
        let mut k: usize = 0;
        while k < n
            invariant
                k <= n,
                pixels@.len() == k,
                forall|i: int| 0 <= i < k ==> pixels@[i] == ((0u8, 0u8, 0u8)),
            decreases n - k,
        {
            pixels.push((0u8, 0u8, 0u8));
            k = k + 1;
        }
        Img { width, height, pixels }
    }
}

/// A row-major index lies inside the buffer: `y * w + x < w * h`
/// whenever `x < w` and `y < h`.
pub proof fn lemma_row_major_in_range(w: int, h: int, x: int, y: int)
    requires
        0 <= x < w,
        0 <= y < h,
    ensures
        0 <= y * w + x < w * h,
{
    assert(0 <= y * w + x && y * w + x < w * h) by (nonlinear_arith)
        requires
            0 <= x < w,
            0 <= y < h,
    ;
}

/// Two distinct coordinates never share a row-major index.
pub proof fn lemma_row_major_injective(w: int, x1: int, y1: int, x2: int, y2: int)
    requires
        0 <= x1 < w,
        0 <= x2 < w,
        0 <= y1,
        0 <= y2,
        y1 * w + x1 == y2 * w + x2,
    ensures
        x1 == x2 && y1 == y2,
{
    assert(x1 == x2 && y1 == y2) by (nonlinear_arith)
        requires
            0 <= x1 < w,
            0 <= x2 < w,
            0 <= y1,
            0 <= y2,
            y1 * w + x1 == y2 * w + x2,
    ;
}

} // verus!
