//! Per-pixel colour operators: inversion, grayscale and channel scaling.

use vstd::prelude::*;
use crate::pixel::{saturate, PixelBuffer, Rgba};

verus! {

/// Perceptual brightness of a pixel: `0.299 R + 0.587 G + 0.114 B`, with the
/// fraction dropped. The weights are held in thousandths so that the value is
/// exact.
pub open spec fn luma(p: Rgba) -> int {
    (299 * p.r + 587 * p.g + 114 * p.b) / 1000
}

/// Brightness never leaves the range of one channel.
pub proof fn lemma_luma_range(p: Rgba)
    ensures
        0 <= luma(p) <= 255,
{
}

/// Computes [`luma`].
pub fn pixel_luma(p: Rgba) -> (l: u8)
    ensures
        l == luma(p),
{
    let sum: u32 = 299u32 * (p.r as u32) + 587u32 * (p.g as u32) + 114u32 * (p.b as u32);
    (sum / 1000u32) as u8
}

/// Which source channel the inverted green is taken from.
#[derive(Clone, Copy, Debug, PartialEq, Eq, Structural)]
pub enum InvertMode {
    /// Every colour channel is inverted on its own.
    PerChannel,
    /// Green is written as the inverted blue, as some older pipelines did.
    GreenFromBlue,
}

/// The inverse of a pixel under the given mode; alpha is kept.
pub open spec fn inverted(p: Rgba, mode: InvertMode) -> Rgba {
    Rgba {
        r: (255 - p.r) as u8,
        g: match mode {
            InvertMode::PerChannel => (255 - p.g) as u8,
            InvertMode::GreenFromBlue => (255 - p.b) as u8,
        },
        b: (255 - p.b) as u8,
        a: p.a,
    }
}

/// The gray pixel of the same brightness and alpha.
pub open spec fn grayed(p: Rgba) -> Rgba {
    Rgba { r: luma(p) as u8, g: luma(p) as u8, b: luma(p) as u8, a: p.a }
}

/// The three colour channels of the gray pixel are all the brightness of
/// the pixel it was made from, and its alpha is that pixel's alpha.
pub proof fn lemma_grayed_channels(p: Rgba)
    ensures
        grayed(p).r == luma(p),
        grayed(p).g == luma(p),
        grayed(p).b == luma(p),
        grayed(p).a == p.a,
{
    lemma_luma_range(p);
}

/// A non-negative scale factor in steps of 1/65536.
#[derive(Clone, Copy, Debug, PartialEq, Eq, Structural)]
pub struct Scale {
    pub raw: u32,
}

/// Number of raw steps that make the factor one.
pub const SCALE_ONE: u32 = 65536;

/// One channel times a factor, fraction dropped, then saturated to eight bits.
pub open spec fn scaled(c: u8, s: Scale) -> int {
    saturate((c * s.raw) / 65536)
}

/// A pixel with each colour channel scaled by its own factor; alpha is kept.
pub open spec fn filtered(p: Rgba, r: Scale, g: Scale, b: Scale) -> Rgba {
    Rgba { r: scaled(p.r, r) as u8, g: scaled(p.g, g) as u8, b: scaled(p.b, b) as u8, a: p.a }
}

/// Computes [`scaled`].
pub fn scale_channel(c: u8, s: Scale) -> (out: u8)
    ensures
        out == scaled(c, s),
{
    assert(c * s.raw <= 255 * 0xffff_ffff) by (nonlinear_arith)
        requires
            c <= 255,
            s.raw <= 0xffff_ffff,
    ;
    let wide: u64 = (c as u64) * (s.raw as u64) / 65536u64;
    if wide > 255 {
        255
    } else {
        wide as u8
    }
}

/// Replaces every pixel by its inverse.
pub fn color_invert(img: &mut PixelBuffer, mode: InvertMode)
    requires
        old(img).wf(),
    ensures
        final(img).wf(),
        final(img).width == old(img).width,
        final(img).height == old(img).height,
        forall|i: int|
            0 <= i < old(img).pixels@.len() ==> final(img).pixels@[i] == inverted(
                old(img).pixels@[i],
                mode,
            ),
{
    let n = img.pixels.len();
    let mut i: usize = 0;
    while i < n
        invariant
            i <= n,
            n == img.pixels@.len(),
            img.pixels@.len() == old(img).pixels@.len(),
            img.width == old(img).width,
            img.height == old(img).height,
            forall|k: int| 0 <= k < i ==> img.pixels@[k] == inverted(old(img).pixels@[k], mode),
            forall|k: int| i <= k < n ==> img.pixels@[k] == old(img).pixels@[k],
        decreases n - i,
    {
        let p = img.pixels[i];
        let g: u8 = match mode {
            InvertMode::PerChannel => 255 - p.g,
            InvertMode::GreenFromBlue => 255 - p.b,
        };
        img.pixels.set(i, Rgba { r: 255 - p.r, g, b: 255 - p.b, a: p.a });
        i += 1;
    }
}

/// Replaces every pixel by the gray pixel of the same brightness.
pub fn color_grayscale(img: &mut PixelBuffer)
    requires
        old(img).wf(),
    ensures
        final(img).wf(),
        final(img).width == old(img).width,
        final(img).height == old(img).height,
        forall|i: int|
            0 <= i < old(img).pixels@.len() ==> #[trigger] final(img).pixels@[i] == grayed(
                old(img).pixels@[i],
            ),
        forall|i: int|
            0 <= i < old(img).pixels@.len() ==> {
                let before = old(img).pixels@[i];
                let after = #[trigger] final(img).pixels@[i];
                &&& after.r == luma(before)
                &&& after.g == luma(before)
                &&& after.b == luma(before)
                &&& after.a == before.a
            },
{
    let n = img.pixels.len();
    let mut i: usize = 0;
    while i < n
        invariant
            i <= n,
            n == img.pixels@.len(),
            img.pixels@.len() == old(img).pixels@.len(),
            img.width == old(img).width,
            img.height == old(img).height,
            forall|k: int| 0 <= k < i ==> img.pixels@[k] == grayed(old(img).pixels@[k]),
            forall|k: int| i <= k < n ==> img.pixels@[k] == old(img).pixels@[k],
        decreases n - i,
    {
        let p = img.pixels[i];
        let l = pixel_luma(p);
        img.pixels.set(i, Rgba { r: l, g: l, b: l, a: p.a });
        i += 1;
    }
}

/// Scales the three colour channels of every pixel, each by its own factor.
pub fn color_filter(img: &mut PixelBuffer, r: Scale, g: Scale, b: Scale)
    requires
        old(img).wf(),
    ensures
        final(img).wf(),
        final(img).width == old(img).width,
        final(img).height == old(img).height,
        forall|i: int|
            0 <= i < old(img).pixels@.len() ==> final(img).pixels@[i] == filtered(
                old(img).pixels@[i],
                r,
                g,
                b,
            ),
{
    let n = img.pixels.len();
    let mut i: usize = 0;
    while i < n
        invariant
            i <= n,
            n == img.pixels@.len(),
            img.pixels@.len() == old(img).pixels@.len(),
            img.width == old(img).width,
            img.height == old(img).height,
            forall|k: int| 0 <= k < i ==> img.pixels@[k] == filtered(old(img).pixels@[k], r, g, b),
            forall|k: int| i <= k < n ==> img.pixels@[k] == old(img).pixels@[k],
        decreases n - i,
    {
        let p = img.pixels[i];
        let out = Rgba {
            r: scale_channel(p.r, r),
            g: scale_channel(p.g, g),
            b: scale_channel(p.b, b),
            a: p.a,
        };
        img.pixels.set(i, out);
        i += 1;
    }
}

} // verus!
