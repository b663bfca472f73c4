//! Interpolation ratios as exact fractions, and the blending of a frame
//! with a generated colour field.

use vstd::prelude::*;
use crate::pixel::{lemma_pixel_index_bounds, pixel_index, PixelBuffer, Rgba};

verus! {

/// How many millionths make one. Initial ratios and their adjustments are
/// given in millionths.
pub const RATIO_UNIT: i64 = 1_000_000;

/// The largest ratio a frame may get, 0.999, in millionths.
pub const RATIO_CEILING: i64 = 999_000;

/// The weight of the source pixel in a blend, as the exact fraction
/// `num / den`.
#[derive(Clone, Copy, Debug, PartialEq, Eq, Structural)]
pub struct Ratio {
    pub num: u64,
    pub den: u64,
}

impl Ratio {
    /// A ratio is a fraction between 0 and 0.999, both included.
    pub open spec fn wf(&self) -> bool {
        &&& self.den > 0
        &&& 1000 * self.num <= 999 * self.den
    }

    /// Whether this fraction is at most `other`.
    pub open spec fn le(&self, other: Ratio) -> bool {
        self.num * other.den <= other.num * self.den
    }

    /// Whether both fractions stand for the same number.
    pub open spec fn same_value(&self, other: Ratio) -> bool {
        self.num * other.den == other.num * self.den
    }
}

/// `v` forced into `[lo, hi]`: first cut down to `hi`, then raised to `lo`.
pub open spec fn clamp_between(v: int, lo: int, hi: int) -> int {
    let cut = if v > hi {
        hi
    } else {
        v
    };
    if cut < lo {
        lo
    } else {
        cut
    }
}

/// Numerator of the ratio of frame `index` out of `total` frames over the
/// denominator `1_000_000 * total`: `init + adjust * index / total`, held
/// between 0 and 0.999.
pub open spec fn ratio_numerator(init: int, adjust: int, index: int, total: int) -> int {
    clamp_between(init * total + adjust * index, 0, 999_000 * total)
}

/// The ratio of frame `index` out of `total` frames.
pub open spec fn ratio_of_frame(init: int, adjust: int, index: int, total: int) -> Ratio {
    Ratio {
        num: ratio_numerator(init, adjust, index, total) as u64,
        den: (1_000_000 * total) as u64,
    }
}

/// The numerator of a frame's ratio is never negative and never more than
/// 0.999 of the denominator.
pub proof fn lemma_ratio_numerator_range(init: int, adjust: int, index: int, total: int)
    requires
        0 < total,
    ensures
        0 <= ratio_numerator(init, adjust, index, total) <= 999_000 * total,
        1000 * ratio_numerator(init, adjust, index, total) <= 999 * (1_000_000 * total),
{
}

/// Every frame's ratio lies between 0 and 0.999.
pub proof fn lemma_ratio_clamped(init: int, adjust: int, index: int, total: int)
    requires
        0 < total <= u32::MAX,
    ensures
        ratio_of_frame(init, adjust, index, total).wf(),
        ratio_of_frame(init, adjust, index, total).num == ratio_numerator(
            init,
            adjust,
            index,
            total,
        ),
{
    lemma_ratio_numerator_range(init, adjust, index, total);
}

/// With a positive adjustment a later frame never gets a smaller ratio.
pub proof fn lemma_ratio_monotone(init: int, adjust: int, first: int, second: int, total: int)
    requires
        0 < total <= u32::MAX,
        adjust > 0,
        0 <= first <= second,
    ensures
        ratio_numerator(init, adjust, first, total) <= ratio_numerator(
            init,
            adjust,
            second,
            total,
        ),
        ratio_of_frame(init, adjust, first, total).le(ratio_of_frame(init, adjust, second, total)),
{
    assert(adjust * first <= adjust * second) by (nonlinear_arith)
        requires
            adjust > 0,
            first <= second,
    ;
    lemma_ratio_clamped(init, adjust, first, total);
    lemma_ratio_clamped(init, adjust, second, total);
    let a = ratio_numerator(init, adjust, first, total);
    let b = ratio_numerator(init, adjust, second, total);
    let d = 1_000_000 * total;
    assert(a * d <= b * d) by (nonlinear_arith)
        requires
            a <= b,
            0 < d,
    ;
}

/// The ratio of frame 0 is the initial ratio held between 0 and 0.999,
/// whatever the adjustment is.
pub proof fn lemma_ratio_at_zero(init: int, adjust: int, total: int)
    requires
        0 < total <= u32::MAX,
    ensures
        ratio_numerator(init, adjust, 0, total) == clamp_between(init, 0, 999_000) * total,
        ratio_of_frame(init, adjust, 0, total).same_value(
            Ratio { num: clamp_between(init, 0, 999_000) as u64, den: 1_000_000 },
        ),
{
    assert(adjust * 0 == 0);
    let c = clamp_between(init, 0, 999_000);
    if init > 999_000 {
        assert(init * total > 999_000 * total) by (nonlinear_arith)
            requires
                init > 999_000,
                total > 0,
        ;
    } else if init < 0 {
        assert(init * total < 0) by (nonlinear_arith)
            requires
                init < 0,
                total > 0,
        ;
        assert(0 * total == 0);
    } else {
        assert(0 <= init * total <= 999_000 * total) by (nonlinear_arith)
            requires
                0 <= init <= 999_000,
                total > 0,
        ;
    }
    assert(ratio_numerator(init, adjust, 0, total) == c * total);
    lemma_ratio_clamped(init, adjust, 0, total);
    assert((c * total) * 1_000_000 == c * (1_000_000 * total)) by (nonlinear_arith);
}

/// Computes the ratio of frame `index` out of `total` frames from an initial
/// ratio and an adjustment, both in millionths.
pub fn frame_ratio(init: i64, adjust: i64, index: u32, total: u32) -> (r: Ratio)
    requires
        total > 0,
    ensures
        r == ratio_of_frame(init as int, adjust as int, index as int, total as int),
        r.wf(),
        r.den == 1_000_000 * total,
        r.num == ratio_numerator(init as int, adjust as int, index as int, total as int),
{
    proof {
        lemma_ratio_clamped(init as int, adjust as int, index as int, total as int);
        assert(-0x8000_0000_0000_0000 * 0x1_0000_0000 <= init * total <= 0x8000_0000_0000_0000
            * 0x1_0000_0000) by (nonlinear_arith)
            requires
                -0x8000_0000_0000_0000 <= init < 0x8000_0000_0000_0000,
                0 <= total < 0x1_0000_0000,
        ;
        assert(-0x8000_0000_0000_0000 * 0x1_0000_0000 <= adjust * index <= 0x8000_0000_0000_0000
            * 0x1_0000_0000) by (nonlinear_arith)
            requires
                -0x8000_0000_0000_0000 <= adjust < 0x8000_0000_0000_0000,
                0 <= index < 0x1_0000_0000,
        ;
    }
    let raw: i128 = (init as i128) * (total as i128) + (adjust as i128) * (index as i128);
    let ceiling: i128 = 999_000i128 * (total as i128);
    let mut held: i128 = raw;
    if held > ceiling {
        held = ceiling;
    }
    if held < 0 {
        held = 0;
    }
    Ratio { num: held as u64, den: 1_000_000u64 * (total as u64) }
}

/// `source * ratio + generated * (1 - ratio)` rounded to the nearest
/// integer, halves going up.
pub open spec fn blend(source: int, generated: int, r: Ratio) -> int {
    (2 * (source * r.num + generated * (r.den - r.num)) + r.den) / (2 * r.den)
}

/// The blend of two channel values is a channel value.
pub proof fn lemma_blend_range(source: int, generated: int, r: Ratio)
    requires
        r.wf(),
        0 <= source <= 255,
        0 <= generated <= 255,
    ensures
        0 <= blend(source, generated, r) <= 255,
        0 <= source * r.num + generated * (r.den - r.num) <= 255 * r.den,
{
    let n = r.num as int;
    let d = r.den as int;
    let m = d - n;
    assert(0 <= n <= d);
    assert(0 <= source * n <= 255 * n) by (nonlinear_arith)
        requires
            0 <= source <= 255,
            0 <= n,
    ;
    assert(0 <= generated * m <= 255 * m) by (nonlinear_arith)
        requires
            0 <= generated <= 255,
            0 <= m,
    ;
    let top = 2 * (source * n + generated * m) + d;
    assert(0 <= top <= 511 * d);
    assert(top / (2 * d) <= 255) by (nonlinear_arith)
        requires
            0 <= top <= 511 * d,
            d > 0,
    ;
    assert(0 <= top / (2 * d)) by (nonlinear_arith)
        requires
            0 <= top,
            d > 0,
    ;
}

/// Computes [`blend`].
pub fn blend_channel(source: u8, generated: u8, r: Ratio) -> (out: u8)
    requires
        r.wf(),
    ensures
        out == blend(source as int, generated as int, r),
{
    proof {
        lemma_blend_range(source as int, generated as int, r);
        assert(source * r.num <= 255 * 0xffff_ffff_ffff_ffff) by (nonlinear_arith)
            requires
                0 <= source <= 255,
                0 <= r.num <= 0xffff_ffff_ffff_ffff,
        ;
        assert(generated * (r.den - r.num) <= 255 * 0xffff_ffff_ffff_ffff) by (nonlinear_arith)
            requires
                0 <= generated <= 255,
                0 <= r.den - r.num <= 0xffff_ffff_ffff_ffff,
        ;
    }
    let num: u128 = r.num as u128;
    let den: u128 = r.den as u128;
    let mix: u128 = (source as u128) * num + (generated as u128) * (den - num);
    ((2 * mix + den) / (2 * den)) as u8
}

/// A pixel blended with three generated colour levels; the result is opaque.
pub open spec fn blended(p: Rgba, generated: (u8, u8, u8), r: Ratio) -> Rgba {
    Rgba {
        r: blend(p.r as int, generated.0 as int, r) as u8,
        g: blend(p.g as int, generated.1 as int, r) as u8,
        b: blend(p.b as int, generated.2 as int, r) as u8,
        a: 255,
    }
}

/// Whether `after` is `before` blended with levels that `generator` can
/// return for `(x, y)`.
pub open spec fn is_generated_blend<G: Fn(u32, u32) -> (u8, u8, u8)>(
    generator: G,
    x: u32,
    y: u32,
    before: Rgba,
    after: Rgba,
    r: Ratio,
) -> bool {
    exists|levels: (u8, u8, u8)|
        call_ensures(generator, (x, y), levels) && after == blended(before, levels, r)
}

/// Blends every pixel with the colour that `generator` gives for its
/// coordinates. The generator is asked once per pixel, row by row.
pub fn gen_interp<G: Fn(u32, u32) -> (u8, u8, u8)>(img: &mut PixelBuffer, r: Ratio, generator: &G)
    requires
        old(img).wf(),
        r.wf(),
        forall|x: u32, y: u32|
            old(img).contains(x as int, y as int) ==> call_requires(*generator, (x, y)),
    ensures
        final(img).wf(),
        final(img).width == old(img).width,
        final(img).height == old(img).height,
        forall|x: u32, y: u32|
            old(img).contains(x as int, y as int) ==> is_generated_blend(
                *generator,
                x,
                y,
                old(img).at(x as int, y as int),
                #[trigger] final(img).at(x as int, y as int),
                r,
            ),
{
    let (width, height) = img.dimensions();
    let ghost w = width as int;
    let ghost h = height as int;
    let ghost start = img.pixels@;
    let mut y: u32 = 0;
    while y < height
        invariant
            y <= height,
            img.wf(),
            r.wf(),
            img.width == width,
            img.height == height,
            w == width,
            h == height,
            start == old(img).pixels@,
            old(img).width == width,
            old(img).height == height,
            start.len() == w * h,
            forall|x: u32, y: u32|
                old(img).contains(x as int, y as int) ==> call_requires(*generator, (x, y)),
            forall|px: u32, py: u32|
                0 <= px < w && 0 <= py < y ==> is_generated_blend(
                    *generator,
                    px,
                    py,
                    start[pixel_index(w, px as int, py as int)],
                    #[trigger] img.pixels@[pixel_index(w, px as int, py as int)],
                    r,
                ),
            forall|px: int, py: int|
                0 <= px < w && y <= py < h ==> img.pixels@[#[trigger] pixel_index(w, px, py)]
                    == start[pixel_index(w, px, py)],
        decreases height - y,
    {
        let mut x: u32 = 0;
        while x < width
            invariant
                x <= width,
                y < height,
                img.wf(),
                r.wf(),
                img.width == width,
                img.height == height,
                w == width,
                h == height,
                start == old(img).pixels@,
                old(img).width == width,
                old(img).height == height,
                start.len() == w * h,
                forall|x: u32, y: u32|
                    old(img).contains(x as int, y as int) ==> call_requires(*generator, (x, y)),
                forall|px: u32, py: u32|
                    0 <= px < w && 0 <= py < y ==> is_generated_blend(
                        *generator,
                        px,
                        py,
                        start[pixel_index(w, px as int, py as int)],
                        #[trigger] img.pixels@[pixel_index(w, px as int, py as int)],
                        r,
                    ),
                forall|px: u32|
                    0 <= px < x ==> is_generated_blend(
                        *generator,
                        px,
                        y,
                        start[pixel_index(w, px as int, y as int)],
                        #[trigger] img.pixels@[pixel_index(w, px as int, y as int)],
                        r,
                    ),
                forall|px: int|
                    x <= px < w ==> img.pixels@[#[trigger] pixel_index(w, px, y as int)]
                        == start[pixel_index(w, px, y as int)],
                forall|px: int, py: int|
                    0 <= px < w && y < py < h ==> img.pixels@[#[trigger] pixel_index(w, px, py)]
                        == start[pixel_index(w, px, py)],
            decreases width - x,
        {
            let ghost prev = img.pixels@;
            let p = img.get_pixel(x, y);
            assert(old(img).contains(x as int, y as int));
            let levels = generator(x, y);
            let out = Rgba {
                r: blend_channel(p.r, levels.0, r),
                g: blend_channel(p.g, levels.1, r),
                b: blend_channel(p.b, levels.2, r),
                a: 255,
            };
            img.put_pixel(x, y, out);
            proof {
                let i = pixel_index(w, x as int, y as int);
                lemma_pixel_index_bounds(w, h, x as int, y as int);
                assert(p == start[i]);
                assert(out == blended(start[i], levels, r));
                assert(is_generated_blend(*generator, x, y, start[i], img.pixels@[i], r));
                assert forall|px: u32, py: u32| 0 <= px < w && 0 <= py < y implies is_generated_blend(
                    *generator,
                    px,
                    py,
                    start[pixel_index(w, px as int, py as int)],
                    #[trigger] img.pixels@[pixel_index(w, px as int, py as int)],
                    r,
                ) by {
                    lemma_pixel_index_bounds(w, h, px as int, py as int);
                    assert(img.pixels@[pixel_index(w, px as int, py as int)] == prev[pixel_index(
                        w,
                        px as int,
                        py as int,
                    )]);
                }
                assert forall|px: u32| 0 <= px < x + 1 implies is_generated_blend(
                    *generator,
                    px,
                    y,
                    start[pixel_index(w, px as int, y as int)],
                    #[trigger] img.pixels@[pixel_index(w, px as int, y as int)],
                    r,
                ) by {
                    lemma_pixel_index_bounds(w, h, px as int, y as int);
                    if px < x {
                        assert(img.pixels@[pixel_index(w, px as int, y as int)] == prev[pixel_index(
                            w,
                            px as int,
                            y as int,
                        )]);
                    }
                }
                assert forall|px: int| x + 1 <= px < w implies img.pixels@[#[trigger] pixel_index(
                    w,
                    px,
                    y as int,
                )] == start[pixel_index(w, px, y as int)] by {
                    lemma_pixel_index_bounds(w, h, px, y as int);
                }
                assert forall|px: int, py: int| 0 <= px < w && y < py < h implies img.pixels@[#[trigger] pixel_index(
                    w,
                    px,
                    py,
                )] == start[pixel_index(w, px, py)] by {
                    lemma_pixel_index_bounds(w, h, px, py);
                }
            }
            x += 1;
        }
        y += 1;
    }
}

} // verus!
