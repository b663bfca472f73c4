//! Sobel edge detection in exact integer arithmetic.

use vstd::prelude::*;
use crate::pixel::{
    lemma_pixel_index_bounds, opaque_gray, pixel_index, transparent_black, PixelBuffer, Rgba,
};

verus! {

/// Three times the mean of the colour channels at `(x, y)`. Working with the
/// sum keeps every intermediate value an integer.
pub open spec fn tap(s: Seq<Rgba>, w: int, x: int, y: int) -> int {
    let p = s[pixel_index(w, x, y)];
    p.r + p.g + p.b
}

/// Three times the horizontal Sobel response at `(x, y)`: the kernel
/// `[-1 0 1; -2 0 2; -1 0 1]` laid over the mean intensities.
pub open spec fn gradient_x(s: Seq<Rgba>, w: int, x: int, y: int) -> int {
    -tap(s, w, x - 1, y - 1) + tap(s, w, x + 1, y - 1) - 2 * tap(s, w, x - 1, y) + 2 * tap(
        s,
        w,
        x + 1,
        y,
    ) - tap(s, w, x - 1, y + 1) + tap(s, w, x + 1, y + 1)
}

/// Three times the vertical Sobel response at `(x, y)`: the kernel
/// `[-1 -2 -1; 0 0 0; 1 2 1]` laid over the mean intensities.
pub open spec fn gradient_y(s: Seq<Rgba>, w: int, x: int, y: int) -> int {
    -tap(s, w, x - 1, y - 1) - 2 * tap(s, w, x, y - 1) - tap(s, w, x + 1, y - 1) + tap(
        s,
        w,
        x - 1,
        y + 1,
    ) + 2 * tap(s, w, x, y + 1) + tap(s, w, x + 1, y + 1)
}

/// Nine times the squared length of the gradient at `(x, y)`.
pub open spec fn energy(s: Seq<Rgba>, w: int, x: int, y: int) -> int {
    gradient_x(s, w, x, y) * gradient_x(s, w, x, y) + gradient_y(s, w, x, y) * gradient_y(
        s,
        w,
        x,
        y,
    )
}

/// Whether `m` is `sqrt(e) / 3` rounded to the nearest integer (halves go
/// up) and then saturated at 255. Both comparisons are squared so that no
/// root is taken: `m - 1/2 <= sqrt(e) / 3 < m + 1/2`.
pub open spec fn is_magnitude(e: int, m: int) -> bool {
    &&& 0 <= m <= 255
    &&& (m > 0 ==> 9 * ((2 * m - 1) * (2 * m - 1)) <= 4 * e)
    &&& (m < 255 ==> 4 * e < 9 * ((2 * m + 1) * (2 * m + 1)))
}

/// The gradient length that belongs to the energy `e`.
pub open spec fn magnitude(e: int) -> int {
    choose|m: int| is_magnitude(e, m)
}

/// At most one level is the magnitude of a given energy.
pub proof fn lemma_magnitude_unique(e: int, a: int, b: int)
    requires
        is_magnitude(e, a),
        is_magnitude(e, b),
    ensures
        a == b,
{
    if a < b {
        assert(9 * ((2 * a + 1) * (2 * a + 1)) <= 9 * ((2 * b - 1) * (2 * b - 1)))
            by (nonlinear_arith)
            requires
                0 <= a < b,
        ;
    } else if b < a {
        assert(9 * ((2 * b + 1) * (2 * b + 1)) <= 9 * ((2 * a - 1) * (2 * a - 1)))
            by (nonlinear_arith)
            requires
                0 <= b < a,
        ;
    }
}

/// The pixel that edge detection writes at `(x, y)`: the gradient length as
/// an opaque gray inside the frame, transparent black on its one-pixel rim.
pub open spec fn edge_pixel(s: Seq<Rgba>, w: int, h: int, x: int, y: int) -> Rgba {
    if 1 <= x < w - 1 && 1 <= y < h - 1 {
        opaque_gray(magnitude(energy(s, w, x, y)) as u8)
    } else {
        transparent_black()
    }
}

/// Where the nine pixels round `(x, y)` have the same mean intensity, no
/// edge is found: the pixel written is opaque black.
pub proof fn lemma_uniform_neighbourhood(s: Seq<Rgba>, w: int, h: int, x: int, y: int)
    requires
        1 <= x < w - 1,
        1 <= y < h - 1,
        forall|dx: int, dy: int|
            -1 <= dx <= 1 && -1 <= dy <= 1 ==> #[trigger] tap(s, w, x + dx, y + dy) == tap(
                s,
                w,
                x,
                y,
            ),
    ensures
        gradient_x(s, w, x, y) == 0,
        gradient_y(s, w, x, y) == 0,
        magnitude(energy(s, w, x, y)) == 0,
        edge_pixel(s, w, h, x, y) == opaque_gray(0),
{
    let c = tap(s, w, x, y);
    assert(tap(s, w, x + (-1), y + (-1)) == c);
    assert(tap(s, w, x + 0, y + (-1)) == c);
    assert(tap(s, w, x + 1, y + (-1)) == c);
    assert(tap(s, w, x + (-1), y + 0) == c);
    assert(tap(s, w, x + 1, y + 0) == c);
    assert(tap(s, w, x + (-1), y + 1) == c);
    assert(tap(s, w, x + 0, y + 1) == c);
    assert(tap(s, w, x + 1, y + 1) == c);
    assert(gradient_x(s, w, x, y) == 0);
    assert(gradient_y(s, w, x, y) == 0);
    assert(energy(s, w, x, y) == 0);
    assert((2 * 0 + 1) * (2 * 0 + 1) == 1) by (nonlinear_arith);
    assert(is_magnitude(0, 0));
    lemma_magnitude_unique(0, 0, magnitude(0));
}

/// On the first and last column and row the pixel written is transparent
/// black, whatever the frame holds.
pub proof fn lemma_rim_is_blank(s: Seq<Rgba>, w: int, h: int, x: int, y: int)
    requires
        0 <= x < w,
        0 <= y < h,
        x == 0 || x == w - 1 || y == 0 || y == h - 1,
    ensures
        edge_pixel(s, w, h, x, y) == transparent_black(),
{
}

/// Computes [`magnitude`].
pub fn gradient_magnitude(e: u32) -> (m: u8)
    ensures
        m == magnitude(e as int),
        is_magnitude(e as int, m as int),
{
    let target: u64 = 4 * (e as u64);
    let mut m: u64 = 0;
    let mut settled = false;
    while m < 255 && !settled
        invariant
            0 <= m <= 255,
            target == 4 * e,
            m > 0 ==> 9 * ((2 * m - 1) * (2 * m - 1)) <= target,
            settled ==> m < 255 && target < 9 * ((2 * m + 1) * (2 * m + 1)),
        decreases 255 - m + if settled { 0int } else { 1int },
    {
        let side: u64 = 2 * m + 1;
        assert(side * side <= 511 * 511) by (nonlinear_arith)
            requires
                0 <= side <= 511,
        ;
        if 9 * (side * side) <= target {
            m += 1;
            assert(2 * m - 1 == side);
        } else {
            settled = true;
        }
    }
    proof {
        assert(is_magnitude(e as int, m as int));
        lemma_magnitude_unique(e as int, m as int, magnitude(e as int));
    }
    m as u8
}

/// Reads [`tap`] from a buffer.
fn tap_at(img: &PixelBuffer, x: u32, y: u32) -> (t: i32)
    requires
        img.wf(),
        img.contains(x as int, y as int),
    ensures
        t == tap(img.pixels@, img.width as int, x as int, y as int),
        0 <= t <= 765,
{
    let p = img.get_pixel(x, y);
    (p.r as i32) + (p.g as i32) + (p.b as i32)
}

/// Computes [`energy`] at a pixel that is not on the rim.
fn energy_at(img: &PixelBuffer, x: u32, y: u32) -> (e: u32)
    requires
        img.wf(),
        1 <= x < img.width - 1,
        1 <= y < img.height - 1,
    ensures
        e == energy(img.pixels@, img.width as int, x as int, y as int),
        e <= 2 * 3060 * 3060,
{
    let nw = tap_at(img, x - 1, y - 1);
    let n = tap_at(img, x, y - 1);
    let ne = tap_at(img, x + 1, y - 1);
    let west = tap_at(img, x - 1, y);
    let east = tap_at(img, x + 1, y);
    let sw = tap_at(img, x - 1, y + 1);
    let south = tap_at(img, x, y + 1);
    let se = tap_at(img, x + 1, y + 1);
    let gx: i32 = -nw + ne - 2 * west + 2 * east - sw + se;
    let gy: i32 = -nw - 2 * n - ne + sw + 2 * south + se;
    assert(gx * gx <= 3060 * 3060) by (nonlinear_arith)
        requires
            -3060 <= gx <= 3060,
    ;
    assert(gy * gy <= 3060 * 3060) by (nonlinear_arith)
        requires
            -3060 <= gy <= 3060,
    ;
    assert(0 <= gx * gx) by (nonlinear_arith);
    assert(0 <= gy * gy) by (nonlinear_arith);
    (gx * gx + gy * gy) as u32
}

/// Sobel edge detection. The frame is replaced by one of the same size in
/// which each pixel off the rim is the local gradient length as an opaque
/// gray, and each pixel on the rim is transparent black.
pub fn edge_detect(img: &mut PixelBuffer)
    requires
        old(img).wf(),
    ensures
        final(img).wf(),
        final(img).width == old(img).width,
        final(img).height == old(img).height,
        forall|x: int, y: int|
            old(img).contains(x, y) ==> #[trigger] final(img).at(x, y) == edge_pixel(
                old(img).pixels@,
                old(img).width as int,
                old(img).height as int,
                x,
                y,
            ),
{
    let (width, height) = img.dimensions();
    let ghost w = width as int;
    let ghost h = height as int;
    let mut out: Vec<Rgba> = Vec::new();
    let mut y: u32 = 0;
    while y < height
        invariant
            y <= height,
            img.wf(),
            img.width == width,
            img.height == height,
            w == width,
            h == height,
            *img == *old(img),
            out@.len() == y * w,
            forall|px: int, py: int|
                0 <= px < w && 0 <= py < y ==> out@[#[trigger] pixel_index(w, px, py)]
                    == edge_pixel(img.pixels@, w, h, px, py),
        decreases height - y,
    {
        let mut x: u32 = 0;
        while x < width
            invariant
                x <= width,
                y < height,
                img.wf(),
                img.width == width,
                img.height == height,
                w == width,
                h == height,
                *img == *old(img),
                out@.len() == y * w + x,
                forall|px: int, py: int|
                    0 <= px < w && 0 <= py < y ==> out@[#[trigger] pixel_index(w, px, py)]
                        == edge_pixel(img.pixels@, w, h, px, py),
                forall|px: int|
                    0 <= px < x ==> out@[#[trigger] pixel_index(w, px, y as int)] == edge_pixel(
                        img.pixels@,
                        w,
                        h,
                        px,
                        y as int,
                    ),
            decreases width - x,
        {
            let p = if 1 <= x && x < width - 1 && 1 <= y && y < height - 1 {
                let m = gradient_magnitude(energy_at(img, x, y));
                Rgba { r: m, g: m, b: m, a: 255 }
            } else {
                Rgba { r: 0, g: 0, b: 0, a: 0 }
            };
            let ghost prev = out@;
            out.push(p);
            proof {
                assert forall|px: int, py: int| 0 <= px < w && 0 <= py < y implies out@[#[trigger] pixel_index(
                    w,
                    px,
                    py,
                )] == edge_pixel(img.pixels@, w, h, px, py) by {
                    lemma_pixel_index_bounds(w, y as int, px, py);
                    assert(out@[pixel_index(w, px, py)] == prev[pixel_index(w, px, py)]);
                }
            }
            x += 1;
        }
        proof {
            assert((y + 1) * w == y * w + w) by (nonlinear_arith);
        }
        y += 1;
    }
    proof {
        assert forall|px: int, py: int| old(img).contains(px, py) implies out@[pixel_index(
            w,
            px,
            py,
        )] == edge_pixel(old(img).pixels@, w, h, px, py) by {
            assert(out@[pixel_index(w, px, py)] == edge_pixel(img.pixels@, w, h, px, py));
        }
        assert(height * w == w * h) by (nonlinear_arith)
            requires
                h == height,
        ;
    }
    img.pixels = out;
}

} // verus!
