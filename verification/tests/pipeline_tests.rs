use frame_fx::blend::{frame_ratio, Ratio};
use frame_fx::block::TransformKind;
use frame_fx::color::{InvertMode, Scale};
use frame_fx::effect::{apply_effects, Effect};
use frame_fx::frames::{frame_steps, plan_frames, stale_files, FrameStep};
use frame_fx::pixel::{PixelBuffer, Rgba};

type Generator = fn(u32, u32) -> (u8, u8, u8);

fn no_kernel(_kind: TransformKind, block: Vec<Vec<u8>>) -> Vec<Vec<u8>> {
    block
}

fn product(x: u32, y: u32) -> (u8, u8, u8) {
    let level = (x * y).min(255) as u8;
    (level, level, level)
}

fn clip_names() -> Vec<String> {
    let mut names = Vec::new();
    let mut n: u32 = 0;
    while n < 10 {
        names.push(format!("clip_{:04}.png", n));
        n += 1;
    }
    names
}

fn frame(seed: u8) -> PixelBuffer {
    let mut pixels = Vec::new();
    let mut i: u8 = 0;
    while i < 6 {
        pixels.push(Rgba { r: seed.wrapping_mul(3).wrapping_add(i), g: seed, b: i * 40, a: 200 + i });
        i += 1;
    }
    PixelBuffer::from_pixels(3, 2, pixels).unwrap()
}

#[test]
fn ten_frames_inverted() {
    let names = clip_names();
    let effects: Vec<Effect<Generator>> = vec![Effect::ColorInvert(InvertMode::PerChannel)];
    let steps = frame_steps(&names, "clip", "png", 500_000, 0);
    assert_eq!(steps.len(), 10);
    let mut directory = names.clone();
    let mut k: usize = 0;
    while k < steps.len() {
        match &steps[k] {
            FrameStep::Process(plan, output) => {
                assert_eq!(plan.position, k);
                assert_eq!(plan.index, k as u32);
                assert_eq!(*output, format!("clip_fx_{:04}.png", k));
                let source = frame(k as u8);
                let mut img = source.duplicate();
                apply_effects(&mut img, &effects, plan.ratio, &no_kernel);
                let mut i: usize = 0;
                while i < 6 {
                    let p = source.pixels[i];
                    assert_eq!(
                        img.pixels[i],
                        Rgba { r: 255 - p.r, g: 255 - p.g, b: 255 - p.b, a: p.a }
                    );
                    i += 1;
                }
                directory.push(output.clone());
            }
            FrameStep::Skip(_) => panic!("every name carries a frame number"),
        }
        k += 1;
    }
    // the ten sources go, the ten processed frames stay
    assert_eq!(stale_files(&directory), vec![0, 1, 2, 3, 4, 5, 6, 7, 8, 9]);
    let mut n: usize = 0;
    while n < 10 {
        assert_eq!(directory[10 + n], format!("clip_fx_{:04}.png", n));
        n += 1;
    }
}

#[test]
fn ten_frames_blended_at_a_growing_ratio() {
    let names = clip_names();
    let plans = plan_frames(&names, 500_000, 500_000);
    assert_eq!(plans.len(), 10);
    assert_eq!(plans[0].ratio, Ratio { num: 5_000_000, den: 10_000_000 });
    assert_eq!(plans[9].ratio, Ratio { num: 9_500_000, den: 10_000_000 });
    assert_eq!(plans[9].ratio, frame_ratio(500_000, 500_000, 9, 10));
    let effects: Vec<Effect<Generator>> =
        vec![Effect::GenInterp(Ratio { num: 1, den: 2 }, product)];
    let source = PixelBuffer::from_pixels(3, 2, vec![Rgba { r: 100, g: 40, b: 0, a: 7 }; 6]).unwrap();

    let mut first = source.duplicate();
    apply_effects(&mut first, &effects, plans[0].ratio, &no_kernel);
    // generated levels are 0 except at (1,1) = 1 and (2,1) = 2
    assert_eq!(first.get_pixel(0, 0), Rgba { r: 50, g: 20, b: 0, a: 255 });
    assert_eq!(first.get_pixel(2, 1), Rgba { r: 51, g: 21, b: 1, a: 255 });

    let mut last = source.duplicate();
    apply_effects(&mut last, &effects, plans[9].ratio, &no_kernel);
    // 100 * 0.95 = 95, 40 * 0.95 = 38; at (2,1): + 2 * 0.05 = 0.1
    assert_eq!(last.get_pixel(0, 0), Rgba { r: 95, g: 38, b: 0, a: 255 });
    assert_eq!(last.get_pixel(2, 1), Rgba { r: 95, g: 38, b: 0, a: 255 });
}

#[test]
fn effect_uses_its_own_ratio_when_run_alone() {
    let effect: Effect<Generator> = Effect::GenInterp(Ratio { num: 1, den: 4 }, product);
    let mut img = PixelBuffer::from_pixels(1, 1, vec![Rgba { r: 100, g: 40, b: 0, a: 7 }]).unwrap();
    effect.apply(&mut img, &no_kernel);
    assert_eq!(img.pixels, vec![Rgba { r: 25, g: 10, b: 0, a: 255 }]);
    let mut img = PixelBuffer::from_pixels(1, 1, vec![Rgba { r: 100, g: 40, b: 0, a: 7 }]).unwrap();
    effect.apply_with(&mut img, Some(Ratio { num: 1, den: 2 }), &no_kernel);
    assert_eq!(img.pixels, vec![Rgba { r: 50, g: 20, b: 0, a: 255 }]);
}

#[test]
fn effects_run_in_list_order() {
    let half = Scale { raw: 32768 };
    let one = Scale { raw: 65536 };
    let start = vec![Rgba { r: 200, g: 100, b: 50, a: 9 }];
    let first: Vec<Effect<Generator>> =
        vec![Effect::ColorInvert(InvertMode::PerChannel), Effect::ColorFilter(half, one, one)];
    let second: Vec<Effect<Generator>> =
        vec![Effect::ColorFilter(half, one, one), Effect::ColorInvert(InvertMode::PerChannel)];
    let ratio = Ratio { num: 0, den: 1 };
    let mut img = PixelBuffer::from_pixels(1, 1, start.clone()).unwrap();
    apply_effects(&mut img, &first, ratio, &no_kernel);
    assert_eq!(img.pixels, vec![Rgba { r: 27, g: 155, b: 205, a: 9 }]);
    let mut img = PixelBuffer::from_pixels(1, 1, start).unwrap();
    apply_effects(&mut img, &second, ratio, &no_kernel);
    assert_eq!(img.pixels, vec![Rgba { r: 155, g: 155, b: 205, a: 9 }]);
}

#[test]
fn every_kind_of_effect_runs() {
    let one = Scale { raw: 65536 };
    let effects: Vec<Effect<Generator>> = vec![
        Effect::ColorGrayscale,
        Effect::ColorFilter(one, one, one),
        Effect::DiscreteCosine(2),
        Effect::DiscreteSine(3),
        Effect::FsDither,
        Effect::EdgeDetect,
    ];
    let mut img = PixelBuffer::from_pixels(3, 3, vec![Rgba { r: 255, g: 255, b: 255, a: 1 }; 9])
        .unwrap();
    apply_effects(&mut img, &effects, Ratio { num: 0, den: 1 }, &no_kernel);
    // white stays white until edge detection, which finds nothing in it
    let blank = Rgba { r: 0, g: 0, b: 0, a: 0 };
    let mut expect = vec![blank; 9];
    expect[4] = Rgba { r: 0, g: 0, b: 0, a: 255 };
    assert_eq!(img.pixels, expect);
}

#[test]
fn empty_pipeline_leaves_the_frame() {
    let effects: Vec<Effect<Generator>> = Vec::new();
    let source = frame(5);
    let mut img = source.duplicate();
    apply_effects(&mut img, &effects, Ratio { num: 0, den: 1 }, &no_kernel);
    assert_eq!(img.pixels, source.pixels);
}
