//! Pixels, and frames as row-major grids of pixels.

use vstd::prelude::*;

verus! {

/// One RGBA pixel with eight bits per channel.
#[derive(Clone, Copy, Debug, PartialEq, Eq, Structural)]
pub struct Rgba {
    pub r: u8,
    pub g: u8,
    pub b: u8,
    pub a: u8,
}

/// The pixel that fills a fresh buffer: black and fully transparent.
pub open spec fn transparent_black() -> Rgba {
    Rgba { r: 0, g: 0, b: 0, a: 0 }
}

/// An opaque gray pixel of the given level.
pub open spec fn opaque_gray(level: u8) -> Rgba {
    Rgba { r: level, g: level, b: level, a: 255 }
}

/// Clamps an integer into the range of one channel.
pub open spec fn saturate(v: int) -> int {
    if v < 0 {
        0
    } else if v > 255 {
        255
    } else {
        v
    }
}

/// Position of pixel `(x, y)` in the row-major pixel sequence of a buffer
/// that is `width` pixels wide.
pub open spec fn pixel_index(width: int, x: int, y: int) -> int {
    y * width + x
}

/// A rectangular grid of pixels stored row by row.
#[derive(Debug)]
pub struct PixelBuffer {
    pub width: u32,
    pub height: u32,
    pub pixels: Vec<Rgba>,
}

/// Row-major positions of distinct in-range coordinates are in range.
pub proof fn lemma_pixel_index_bounds(width: int, height: int, x: int, y: int)
    requires
        0 <= x < width,
        0 <= y < height,
    ensures
        0 <= pixel_index(width, x, y) < width * height,
        pixel_index(width, x, y) / width == y,
        pixel_index(width, x, y) % width == x,
{
    assert(y * width + x < width * height) by (nonlinear_arith)
        requires
            0 <= x < width,
            0 <= y < height,
    ;
    assert(0 <= y * width) by (nonlinear_arith)
        requires
            0 <= y,
            0 < width,
    ;
    vstd::arithmetic::div_mod::lemma_fundamental_div_mod_converse(y * width + x, width, y, x);
}

/// Every position below `width * height` is the row-major position of its
/// own column and row.
pub proof fn lemma_index_coordinates(width: int, height: int, i: int)
    requires
        0 < width,
        0 <= i < width * height,
    ensures
        0 <= i % width < width,
        0 <= i / width < height,
        pixel_index(width, i % width, i / width) == i,
{
    vstd::arithmetic::div_mod::lemma_fundamental_div_mod(i, width);
    vstd::arithmetic::div_mod::lemma_mod_bound(i, width);
    let q = i / width;
    assert(q * width == width * q) by (nonlinear_arith);
    assert(0 <= q) by (nonlinear_arith)
        requires
            0 <= i,
            0 < width,
            q == i / width,
    ;
    assert(q < height) by (nonlinear_arith)
        requires
            i < width * height,
            0 < width,
            i == width * q + i % width,
            0 <= i % width,
    ;
}

impl PixelBuffer {
    /// The representation invariant: one pixel per grid cell.
    pub open spec fn wf(&self) -> bool {
        self.pixels@.len() == self.width * self.height
    }

    /// The pixel at column `x` and row `y`.
    pub open spec fn at(&self, x: int, y: int) -> Rgba {
        self.pixels@[pixel_index(self.width as int, x, y)]
    }

    /// Whether `(x, y)` lies inside the grid.
    pub open spec fn contains(&self, x: int, y: int) -> bool {
        0 <= x < self.width && 0 <= y < self.height
    }

    /// A buffer of the given size in which every pixel is black and fully
    /// transparent, or `None` when that many pixels cannot be addressed.
    pub fn new(width: u32, height: u32) -> (out: Option<PixelBuffer>)
        ensures
            out is Some <==> width * height <= usize::MAX,
            out is Some ==> {
                let buf = out->Some_0;
                &&& buf.wf()
                &&& buf.width == width
                &&& buf.height == height
                &&& forall|i: int| 0 <= i < buf.pixels@.len() ==> buf.pixels@[i] == transparent_black()
            },
    {
        assert(width * height <= u64::MAX) by (nonlinear_arith)
            requires
                width <= u32::MAX,
                height <= u32::MAX,
        ;
        let total: u64 = (width as u64) * (height as u64);
        if total > usize::MAX as u64 {
            return None;
        }
        let count: usize = total as usize;
        let mut pixels: Vec<Rgba> = Vec::new();
        let mut i: usize = 0;
        while i < count
            invariant
                i <= count,
                pixels@.len() == i,
                forall|k: int| 0 <= k < i ==> pixels@[k] == transparent_black(),
            decreases count - i,
        {
            pixels.push(Rgba { r: 0, g: 0, b: 0, a: 0 });
            i += 1;
        }
        Some(PixelBuffer { width, height, pixels })
    }

    /// Wraps a row-major pixel vector, or gives `None` when its length is
    /// not `width * height`.
    pub fn from_pixels(width: u32, height: u32, pixels: Vec<Rgba>) -> (out: Option<PixelBuffer>)
        ensures
            out is Some <==> pixels@.len() == width * height,
            out is Some ==> {
                let buf = out->Some_0;
                &&& buf.wf()
                &&& buf.width == width
                &&& buf.height == height
                &&& buf.pixels@ == pixels@
            },
    {
        assert(width * height <= u64::MAX) by (nonlinear_arith)
            requires
                width <= u32::MAX,
                height <= u32::MAX,
        ;
        let total: u64 = (width as u64) * (height as u64);
        if pixels.len() as u64 == total {
            Some(PixelBuffer { width, height, pixels })
        } else {
            None
        }
    }

    /// A second buffer with the same size and the same pixels.
    pub fn duplicate(&self) -> (copy: PixelBuffer)
        requires
            self.wf(),
        ensures
            copy.wf(),
            copy.width == self.width,
            copy.height == self.height,
            copy.pixels@ == self.pixels@,
    {
        let n = self.pixels.len();
        let mut pixels: Vec<Rgba> = Vec::new();
        let mut i: usize = 0;
        while i < n
            invariant
                i <= n,
                n == self.pixels@.len(),
                pixels@ == self.pixels@.take(i as int),
            decreases n - i,
        {
            pixels.push(self.pixels[i]);
            assert(pixels@ =~= self.pixels@.take(i + 1));
            i += 1;
        }
        assert(self.pixels@.take(n as int) =~= self.pixels@);
        PixelBuffer { width: self.width, height: self.height, pixels }
    }

    /// Width and height, in that order.
    pub fn dimensions(&self) -> (dims: (u32, u32))
        ensures
            dims.0 == self.width,
            dims.1 == self.height,
    {
        (self.width, self.height)
    }

    /// Row-major position of `(x, y)` as a vector index.
    pub fn offset(&self, x: u32, y: u32) -> (i: usize)
        requires
            self.wf(),
            self.contains(x as int, y as int),
        ensures
            i == pixel_index(self.width as int, x as int, y as int),
            i < self.pixels@.len(),
    {
        proof {
            lemma_pixel_index_bounds(self.width as int, self.height as int, x as int, y as int);
            assert(0 <= y * self.width) by (nonlinear_arith)
                requires
                    0 <= y,
                    0 <= self.width,
            ;
        }
        let len = self.pixels.len();
        assert(y * self.width + x < len);
        (y as usize) * (self.width as usize) + (x as usize)
    }

    /// Reads the pixel at `(x, y)`.
    pub fn get_pixel(&self, x: u32, y: u32) -> (p: Rgba)
        requires
            self.wf(),
            self.contains(x as int, y as int),
        ensures
            p == self.at(x as int, y as int),
    {
        let i = self.offset(x, y);
        self.pixels[i]
    }

    /// Overwrites the pixel at `(x, y)` and leaves every other pixel alone.
    pub fn put_pixel(&mut self, x: u32, y: u32, p: Rgba)
        requires
            old(self).wf(),
            old(self).contains(x as int, y as int),
        ensures
            final(self).wf(),
            final(self).width == old(self).width,
            final(self).height == old(self).height,
            final(self).pixels@ == old(self).pixels@.update(
                pixel_index(old(self).width as int, x as int, y as int),
                p,
            ),
    {
        let i = self.offset(x, y);
        self.pixels.set(i, p);
    }
}

} // verus!
