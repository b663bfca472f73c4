//! Error-diffusion dithering to one bit per pixel.

use vstd::prelude::*;
use crate::color::{luma, pixel_luma};
use crate::pixel::{
    lemma_index_coordinates, lemma_pixel_index_bounds, pixel_index, saturate, PixelBuffer, Rgba,
};

verus! {

/// Sixteenths of the error handed to the pixel on the right.
pub const WEIGHT_RIGHT: i32 = 7;

/// Sixteenths of the error handed to the pixel below and to the left.
pub const WEIGHT_BELOW_LEFT: i32 = 3;

/// Sixteenths of the error handed to the pixel below.
pub const WEIGHT_BELOW: i32 = 5;

/// Sixteenths of the error handed to the pixel below and to the right.
pub const WEIGHT_BELOW_RIGHT: i32 = 1;

/// The unit in which the four weights are counted.
pub const WEIGHT_UNIT: i32 = 16;

/// The one-bit level that a brightness is rounded to.
pub open spec fn quantized(l: int) -> int {
    if l > 128 {
        255
    } else {
        0
    }
}

/// What rounding a pixel to one bit loses: brightness minus chosen level.
pub open spec fn quantization_error(p: Rgba) -> int {
    luma(p) - quantized(luma(p))
}

/// The pixel written at a visited position: its one-bit level on the three
/// colour channels, alpha kept.
pub open spec fn thresholded(p: Rgba) -> Rgba {
    let q = quantized(luma(p)) as u8;
    Rgba { r: q, g: q, b: q, a: p.a }
}

/// A neighbour after it has taken `weight` sixteenths of `error`: the share
/// is added to its first channel, the fraction dropped, the sum saturated and
/// written to the three colour channels. Alpha is kept.
pub open spec fn corrected(p: Rgba, error: int, weight: int) -> Rgba {
    let v = saturate((WEIGHT_UNIT * p.r + error * weight) / (WEIGHT_UNIT as int)) as u8;
    Rgba { r: v, g: v, b: v, a: p.a }
}

/// The pixels after the neighbour at `(x, y)` has taken its share, or the
/// same pixels when `(x, y)` is outside the frame.
pub open spec fn spread(
    s: Seq<Rgba>,
    w: int,
    h: int,
    x: int,
    y: int,
    error: int,
    weight: int,
) -> Seq<Rgba> {
    if 0 <= x < w && 0 <= y < h {
        let i = pixel_index(w, x, y);
        s.update(i, corrected(s[i], error, weight))
    } else {
        s
    }
}

/// One visit: the pixel at row-major position `i` is rounded to one bit and
/// its error is handed to the four neighbours not yet visited.
pub open spec fn dither_step(s: Seq<Rgba>, w: int, h: int, i: int) -> Seq<Rgba> {
    let x = i % w;
    let y = i / w;
    let e = quantization_error(s[i]);
    let s0 = s.update(i, thresholded(s[i]));
    let s1 = spread(s0, w, h, x + 1, y, e, WEIGHT_RIGHT as int);
    let s2 = spread(s1, w, h, x - 1, y + 1, e, WEIGHT_BELOW_LEFT as int);
    let s3 = spread(s2, w, h, x, y + 1, e, WEIGHT_BELOW as int);
    spread(s3, w, h, x + 1, y + 1, e, WEIGHT_BELOW_RIGHT as int)
}

/// The pixels after the first `k` positions have been visited in raster
/// order, each visit seeing what the earlier ones left.
pub open spec fn dithered(s: Seq<Rgba>, w: int, h: int, k: nat) -> Seq<Rgba>
    decreases k,
{
    if k == 0 {
        s
    } else {
        dither_step(dithered(s, w, h, (k - 1) as nat), w, h, k - 1)
    }
}

/// A pixel whose three colour channels are all 0 or all 255.
pub open spec fn is_black_or_white(p: Rgba) -> bool {
    (p.r == 0 && p.g == 0 && p.b == 0) || (p.r == 255 && p.g == 255 && p.b == 255)
}

/// The four shares of an error add up to the whole error: nothing is lost
/// and nothing is made up when it is handed on.
pub proof fn lemma_weights_conserve_error(error: int)
    ensures
        WEIGHT_RIGHT + WEIGHT_BELOW_LEFT + WEIGHT_BELOW + WEIGHT_BELOW_RIGHT == WEIGHT_UNIT,
        error * WEIGHT_RIGHT + error * WEIGHT_BELOW_LEFT + error * WEIGHT_BELOW + error
            * WEIGHT_BELOW_RIGHT == error * WEIGHT_UNIT,
{
}

/// A frame made of pure black and pure white pixels is a fixed point: every
/// visit finds an error of zero and leaves the frame as it was.
pub proof fn lemma_black_and_white_unchanged(s: Seq<Rgba>, w: int, h: int, k: nat)
    requires
        0 < w,
        0 <= h,
        s.len() == w * h,
        k <= s.len(),
        forall|i: int| 0 <= i < s.len() ==> is_black_or_white(#[trigger] s[i]),
    ensures
        dithered(s, w, h, k) == s,
        forall|i: int| 0 <= i < s.len() ==> quantization_error(#[trigger] s[i]) == 0,
    decreases k,
{
    assert forall|i: int| 0 <= i < s.len() implies quantization_error(#[trigger] s[i]) == 0 by {
        assert(is_black_or_white(s[i]));
    }
    if k > 0 {
        lemma_black_and_white_unchanged(s, w, h, (k - 1) as nat);
        let i = k - 1;
        lemma_index_coordinates(w, h, i);
        let x = i % w;
        let y = i / w;
        assert(is_black_or_white(s[i]));
        let s0 = s.update(i, thresholded(s[i]));
        assert(s0 =~= s);
        lemma_fixed_neighbour(s, w, h, x + 1, y, 7);
        lemma_fixed_neighbour(s, w, h, x - 1, y + 1, 3);
        lemma_fixed_neighbour(s, w, h, x, y + 1, 5);
        lemma_fixed_neighbour(s, w, h, x + 1, y + 1, 1);
    }
}

/// A black or white neighbour that is handed no error stays as it is.
proof fn lemma_fixed_neighbour(s: Seq<Rgba>, w: int, h: int, x: int, y: int, weight: int)
    requires
        0 < w,
        0 <= h,
        s.len() == w * h,
        forall|i: int| 0 <= i < s.len() ==> is_black_or_white(#[trigger] s[i]),
    ensures
        spread(s, w, h, x, y, 0, weight) == s,
{
    if 0 <= x < w && 0 <= y < h {
        lemma_pixel_index_bounds(w, h, x, y);
        let i = pixel_index(w, x, y);
        assert(is_black_or_white(s[i]));
        assert(0 * weight == 0);
        assert(corrected(s[i], 0, weight) == s[i]);
        assert(s.update(i, s[i]) =~= s);
    }
}

/// Hands `weight` sixteenths of `error` to the pixel at `(x, y)`.
fn diffuse(img: &mut PixelBuffer, x: u32, y: u32, error: i32, weight: i32)
    requires
        old(img).wf(),
        old(img).contains(x as int, y as int),
        -255 <= error <= 255,
        0 <= weight <= 16,
    ensures
        final(img).wf(),
        final(img).width == old(img).width,
        final(img).height == old(img).height,
        final(img).pixels@ == spread(
            old(img).pixels@,
            old(img).width as int,
            old(img).height as int,
            x as int,
            y as int,
            error as int,
            weight as int,
        ),
{
    let p = img.get_pixel(x, y);
    assert(-255 * 16 <= error * weight <= 255 * 16) by (nonlinear_arith)
        requires
            -255 <= error <= 255,
            0 <= weight <= 16,
    ;
    let total: i32 = 16 * (p.r as i32) + error * weight;
    let v: u8 = if total < 0 {
        0
    } else {
        let floor: u32 = (total as u32) / 16;
        if floor > 255 {
            255
        } else {
            floor as u8
        }
    };
    img.put_pixel(x, y, Rgba { r: v, g: v, b: v, a: p.a });
}

/// Floyd-Steinberg dithering to one bit per pixel, in place. Pixels are
/// visited row by row from the top, left to right within a row, and every
/// visit reads what the earlier visits wrote.
pub fn fs_dither(img: &mut PixelBuffer)
    requires
        old(img).wf(),
    ensures
        final(img).wf(),
        final(img).width == old(img).width,
        final(img).height == old(img).height,
        final(img).pixels@ == dithered(
            old(img).pixels@,
            old(img).width as int,
            old(img).height as int,
            old(img).pixels@.len(),
        ),
{
    let (width, height) = img.dimensions();
    if width == 0 {
        assert(width * height == 0) by (nonlinear_arith)
            requires
                width == 0,
        ;
        return ;
    }
    let ghost w = width as int;
    let ghost h = height as int;
    let ghost start = img.pixels@;
    let mut y: u32 = 0;
    while y < height
        invariant
            0 < width,
            y <= height,
            img.wf(),
            img.width == width,
            img.height == height,
            w == width,
            h == height,
            start == old(img).pixels@,
            start.len() == w * h,
            img.pixels@ == dithered(start, w, h, (y * w) as nat),
        decreases height - y,
    {
        let mut x: u32 = 0;
        while x < width
            invariant
                0 < width,
                x <= width,
                y < height,
                img.wf(),
                img.width == width,
                img.height == height,
                w == width,
                h == height,
                start.len() == w * h,
                img.pixels@ == dithered(start, w, h, (y * w + x) as nat),
            decreases width - x,
        {
            proof {
                lemma_pixel_index_bounds(w, h, x as int, y as int);
            }
            let ghost i = pixel_index(w, x as int, y as int);
            let ghost before = img.pixels@;
            let p = img.get_pixel(x, y);
            let l = pixel_luma(p);
            let q: u8 = if l > 128 {
                255
            } else {
                0
            };
            let error: i32 = (l as i32) - (q as i32);
            img.put_pixel(x, y, Rgba { r: q, g: q, b: q, a: p.a });
            if x + 1 < width {
                diffuse(img, x + 1, y, error, WEIGHT_RIGHT);
            }
            if y + 1 < height {
                if x > 0 {
                    diffuse(img, x - 1, y + 1, error, WEIGHT_BELOW_LEFT);
                }
                diffuse(img, x, y + 1, error, WEIGHT_BELOW);
                if x + 1 < width {
                    diffuse(img, x + 1, y + 1, error, WEIGHT_BELOW_RIGHT);
                }
            }
            proof {
                assert(img.pixels@ == dither_step(before, w, h, i));
                assert(dithered(start, w, h, (i + 1) as nat) == dither_step(
                    dithered(start, w, h, i as nat),
                    w,
                    h,
                    i,
                ));
            }
            x += 1;
        }
        proof {
            assert((y + 1) * w == y * w + w) by (nonlinear_arith);
        }
        y += 1;
    }
    proof {
        assert(height * w == w * h) by (nonlinear_arith)
            requires
                h == height,
        ;
    }
}

} // verus!
