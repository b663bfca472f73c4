//! Effects as values, and pipelines of effects run on one frame.

use vstd::prelude::*;
use crate::blend::{gen_interp, is_generated_blend, Ratio};
use crate::block::{block_transformed, discrete_cosine, discrete_sine, is_square, TransformKind};
use crate::color::{
    color_filter, color_grayscale, color_invert, filtered, grayed, inverted, InvertMode, Scale,
};
use crate::dither::{dithered, fs_dither};
use crate::edge::{edge_detect, edge_pixel};
use crate::pixel::{pixel_index, PixelBuffer, Rgba};

verus! {

/// One step of a pipeline. `G` is the type of the colour generators that
/// the blending steps carry: any function from pixel coordinates to three
/// colour levels.
pub enum Effect<G> {
    /// Inverts the colour channels.
    ColorInvert(InvertMode),
    /// Replaces every pixel by the gray of the same brightness.
    ColorGrayscale,
    /// Scales red, green and blue, each by its own factor.
    ColorFilter(Scale, Scale, Scale),
    /// Sobel edge detection.
    EdgeDetect,
    /// Cosine transform of blocks of the given side.
    DiscreteCosine(u32),
    /// Sine transform of blocks of the given side.
    DiscreteSine(u32),
    /// Floyd-Steinberg dithering to one bit.
    FsDither,
    /// Blends the frame with a generated colour field at the given ratio.
    GenInterp(Ratio, G),
}

/// Whether `kernel` takes every block of side `n` for the transform `kind`
/// and hands back a block of the same side.
pub open spec fn kernel_ready<K: Fn(TransformKind, Vec<Vec<u8>>) -> Vec<Vec<u8>>>(
    kernel: K,
    kind: TransformKind,
    n: int,
) -> bool {
    &&& forall|input: Vec<Vec<u8>>| is_square(input, n) ==> call_requires(kernel, (kind, input))
    &&& forall|input: Vec<Vec<u8>>, output: Vec<Vec<u8>>|
        is_square(input, n) && call_ensures(kernel, (kind, input), output) ==> is_square(output, n)
}

/// The effect that is run in a frame: with `Some` ratio, a blending step
/// takes that ratio in place of its own; every other step is as it is.
pub open spec fn effective<G>(effect: Effect<G>, frame_ratio: Option<Ratio>) -> Effect<G> {
    match effect {
        Effect::GenInterp(own, g) => match frame_ratio {
            Some(r) => Effect::GenInterp(r, g),
            None => Effect::GenInterp(own, g),
        },
        other => other,
    }
}

/// What an effect needs before it can run on a frame of the given size: a
/// positive block side and a kernel that is ready for it, or a valid ratio
/// and a generator that can be asked about every pixel.
pub open spec fn effect_ready<
    G: Fn(u32, u32) -> (u8, u8, u8),
    K: Fn(TransformKind, Vec<Vec<u8>>) -> Vec<Vec<u8>>,
>(effect: Effect<G>, kernel: K, w: int, h: int) -> bool {
    match effect {
        Effect::DiscreteCosine(n) => n > 0 && kernel_ready(kernel, TransformKind::Cosine, n as int),
        Effect::DiscreteSine(n) => n > 0 && kernel_ready(kernel, TransformKind::Sine, n as int),
        Effect::GenInterp(r, g) => r.wf() && forall|x: u32, y: u32|
            0 <= x < w && 0 <= y < h ==> #[trigger] call_requires(g, (x, y)),
        _ => true,
    }
}

/// Whether `after` is what `effect` makes of the frame `before`, both of
/// width `w` and height `h`.
pub open spec fn effect_result<
    G: Fn(u32, u32) -> (u8, u8, u8),
    K: Fn(TransformKind, Vec<Vec<u8>>) -> Vec<Vec<u8>>,
>(effect: Effect<G>, kernel: K, before: Seq<Rgba>, after: Seq<Rgba>, w: int, h: int) -> bool {
    &&& after.len() == before.len()
    &&& match effect {
        Effect::ColorInvert(mode) => forall|i: int|
            0 <= i < before.len() ==> #[trigger] after[i] == inverted(before[i], mode),
        Effect::ColorGrayscale => forall|i: int|
            0 <= i < before.len() ==> #[trigger] after[i] == grayed(before[i]),
        Effect::ColorFilter(r, g, b) => forall|i: int|
            0 <= i < before.len() ==> #[trigger] after[i] == filtered(before[i], r, g, b),
        Effect::EdgeDetect => forall|x: int, y: int|
            0 <= x < w && 0 <= y < h ==> after[#[trigger] pixel_index(w, x, y)] == edge_pixel(
                before,
                w,
                h,
                x,
                y,
            ),
        Effect::DiscreteCosine(n) => forall|c: int, r: int|
            0 <= c && c * n < w && 0 <= r && r * n < h ==> #[trigger] block_transformed(
                kernel,
                TransformKind::Cosine,
                before,
                after,
                w,
                h,
                c,
                r,
                n as int,
            ),
        Effect::DiscreteSine(n) => forall|c: int, r: int|
            0 <= c && c * n < w && 0 <= r && r * n < h ==> #[trigger] block_transformed(
                kernel,
                TransformKind::Sine,
                before,
                after,
                w,
                h,
                c,
                r,
                n as int,
            ),
        Effect::FsDither => after == dithered(before, w, h, before.len()),
        Effect::GenInterp(ratio, g) => forall|x: u32, y: u32|
            0 <= x < w && 0 <= y < h ==> is_generated_blend(
                g,
                x,
                y,
                before[pixel_index(w, x as int, y as int)],
                #[trigger] after[pixel_index(w, x as int, y as int)],
                ratio,
            ),
    }
}

/// Whether every effect of a pipeline is ready for a frame of the given
/// size.
pub open spec fn pipeline_ready<
    G: Fn(u32, u32) -> (u8, u8, u8),
    K: Fn(TransformKind, Vec<Vec<u8>>) -> Vec<Vec<u8>>,
>(effects: Seq<Effect<G>>, frame_ratio: Option<Ratio>, kernel: K, w: int, h: int) -> bool {
    forall|k: int|
        0 <= k < effects.len() ==> effect_ready(
            effective(#[trigger] effects[k], frame_ratio),
            kernel,
            w,
            h,
        )
}

/// Whether stage `k + 1` is what effect `k` makes of stage `k`.
pub open spec fn stage_follows<
    G: Fn(u32, u32) -> (u8, u8, u8),
    K: Fn(TransformKind, Vec<Vec<u8>>) -> Vec<Vec<u8>>,
>(
    effects: Seq<Effect<G>>,
    frame_ratio: Option<Ratio>,
    kernel: K,
    stages: Seq<Seq<Rgba>>,
    w: int,
    h: int,
    k: int,
) -> bool {
    effect_result(effective(effects[k], frame_ratio), kernel, stages[k], stages[k + 1], w, h)
}

/// Whether `stages` lists the frame before the first effect and after each
/// effect in turn, every effect run on what the one before it left.
pub open spec fn is_run<
    G: Fn(u32, u32) -> (u8, u8, u8),
    K: Fn(TransformKind, Vec<Vec<u8>>) -> Vec<Vec<u8>>,
>(
    effects: Seq<Effect<G>>,
    frame_ratio: Option<Ratio>,
    kernel: K,
    stages: Seq<Seq<Rgba>>,
    w: int,
    h: int,
) -> bool {
    &&& stages.len() == effects.len() + 1
    &&& forall|k: int|
        0 <= k < effects.len() ==> #[trigger] stage_follows(
            effects,
            frame_ratio,
            kernel,
            stages,
            w,
            h,
            k,
        )
}

/// Whether `after` can come out of the effects run one after the other on
/// `before`.
pub open spec fn pipeline_result<
    G: Fn(u32, u32) -> (u8, u8, u8),
    K: Fn(TransformKind, Vec<Vec<u8>>) -> Vec<Vec<u8>>,
>(
    effects: Seq<Effect<G>>,
    frame_ratio: Option<Ratio>,
    kernel: K,
    before: Seq<Rgba>,
    after: Seq<Rgba>,
    w: int,
    h: int,
) -> bool {
    exists|stages: Seq<Seq<Rgba>>|
        #[trigger] is_run(effects, frame_ratio, kernel, stages, w, h) && stages.first() == before
            && stages.last() == after
}

impl<G: Fn(u32, u32) -> (u8, u8, u8)> Effect<G> {
    /// Runs this effect on a frame. Block transforms hand their blocks to
    /// `kernel`; with `Some` frame ratio a blending step uses it in place
    /// of its own.
    pub fn apply_with<K: Fn(TransformKind, Vec<Vec<u8>>) -> Vec<Vec<u8>>>(
        &self,
        img: &mut PixelBuffer,
        frame_ratio: Option<Ratio>,
        kernel: &K,
    )
        requires
            old(img).wf(),
            effect_ready(
                effective(*self, frame_ratio),
                *kernel,
                old(img).width as int,
                old(img).height as int,
            ),
        ensures
            final(img).wf(),
            final(img).width == old(img).width,
            final(img).height == old(img).height,
            effect_result(
                effective(*self, frame_ratio),
                *kernel,
                old(img).pixels@,
                final(img).pixels@,
                old(img).width as int,
                old(img).height as int,
            ),
    {
        let ghost before = img.pixels@;
        let ghost w = img.width as int;
        let ghost h = img.height as int;
        match self {
            Effect::ColorInvert(mode) => {
                color_invert(img, *mode);
            },
            Effect::ColorGrayscale => {
                color_grayscale(img);
            },
            Effect::ColorFilter(r, g, b) => {
                color_filter(img, *r, *g, *b);
            },
            Effect::EdgeDetect => {
                edge_detect(img);
                assert forall|x: int, y: int| 0 <= x < w && 0 <= y < h implies img.pixels@[#[trigger] pixel_index(
                    w,
                    x,
                    y,
                )] == edge_pixel(before, w, h, x, y) by {
                    assert(img.at(x, y) == edge_pixel(before, w, h, x, y));
                }
            },
            Effect::DiscreteCosine(n) => {
                discrete_cosine(img, *n, kernel);
            },
            Effect::DiscreteSine(n) => {
                discrete_sine(img, *n, kernel);
            },
            Effect::FsDither => {
                fs_dither(img);
            },
            Effect::GenInterp(own, g) => {
                let ratio = match frame_ratio {
                    Some(r) => r,
                    None => *own,
                };
                let ghost run = effective(*self, frame_ratio);
                assert forall|x: u32, y: u32| old(img).contains(x as int, y as int) implies call_requires(
                    *g,
                    (x, y),
                ) by {
                    assert(call_requires(run->GenInterp_1, (x, y)));
                }
                gen_interp(img, ratio, g);
                assert forall|x: u32, y: u32| 0 <= x < w && 0 <= y < h implies is_generated_blend(
                    *g,
                    x,
                    y,
                    before[pixel_index(w, x as int, y as int)],
                    #[trigger] img.pixels@[pixel_index(w, x as int, y as int)],
                    ratio,
                ) by {
                    assert(old(img).contains(x as int, y as int));
                    assert(is_generated_blend(
                        *g,
                        x,
                        y,
                        old(img).at(x as int, y as int),
                        img.at(x as int, y as int),
                        ratio,
                    ));
                }
            },
        }
    }

    /// Runs this effect on a frame, a blending step at its own ratio.
    pub fn apply<K: Fn(TransformKind, Vec<Vec<u8>>) -> Vec<Vec<u8>>>(
        &self,
        img: &mut PixelBuffer,
        kernel: &K,
    )
        requires
            old(img).wf(),
            effect_ready(*self, *kernel, old(img).width as int, old(img).height as int),
        ensures
            final(img).wf(),
            final(img).width == old(img).width,
            final(img).height == old(img).height,
            effect_result(
                *self,
                *kernel,
                old(img).pixels@,
                final(img).pixels@,
                old(img).width as int,
                old(img).height as int,
            ),
    {
        assert(effective(*self, None) == *self);
        self.apply_with(img, None, kernel)
    }
}

/// Runs the effects on one frame in the order of the list, each on what the
/// one before it left. Every blending step uses `frame_ratio`, whatever its
/// own ratio is; the other effects are the same for every frame.
pub fn apply_effects<
    G: Fn(u32, u32) -> (u8, u8, u8),
    K: Fn(TransformKind, Vec<Vec<u8>>) -> Vec<Vec<u8>>,
>(img: &mut PixelBuffer, effects: &Vec<Effect<G>>, frame_ratio: Ratio, kernel: &K)
    requires
        old(img).wf(),
        pipeline_ready(
            effects@,
            Some(frame_ratio),
            *kernel,
            old(img).width as int,
            old(img).height as int,
        ),
    ensures
        final(img).wf(),
        final(img).width == old(img).width,
        final(img).height == old(img).height,
        pipeline_result(
            effects@,
            Some(frame_ratio),
            *kernel,
            old(img).pixels@,
            final(img).pixels@,
            old(img).width as int,
            old(img).height as int,
        ),
{
    let ghost start = img.pixels@;
    let ghost w = img.width as int;
    let ghost h = img.height as int;
    let ghost fr = Some(frame_ratio);
    let ghost mut stages: Seq<Seq<Rgba>> = seq![start];
    let count = effects.len();
    let mut k: usize = 0;
    while k < count
        invariant
            k <= count,
            count == effects@.len(),
            img.wf(),
            img.width == old(img).width,
            img.height == old(img).height,
            w == img.width,
            h == img.height,
            fr == Some(frame_ratio),
            pipeline_ready(effects@, fr, *kernel, w, h),
            stages.len() == k + 1,
            stages[0] == start,
            stages[k as int] == img.pixels@,
            forall|j: int|
                0 <= j < k ==> #[trigger] stage_follows(effects@, fr, *kernel, stages, w, h, j),
        decreases count - k,
    {
        let ghost earlier = stages;
        effects[k].apply_with(img, Some(frame_ratio), kernel);
        proof {
            stages = earlier.push(img.pixels@);
            assert forall|j: int| 0 <= j < k + 1 implies #[trigger] stage_follows(
                effects@,
                fr,
                *kernel,
                stages,
                w,
                h,
                j,
            ) by {
                if j < k {
                    assert(stage_follows(effects@, fr, *kernel, earlier, w, h, j));
                    assert(stages[j] == earlier[j]);
                    assert(stages[j + 1] == earlier[j + 1]);
                }
            }
        }
        k += 1;
    }
    proof {
        assert(is_run(effects@, fr, *kernel, stages, w, h));
        assert(stages.first() == start && stages.last() == img.pixels@);
    }
}

} // verus!
