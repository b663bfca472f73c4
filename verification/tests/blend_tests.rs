use frame_fx::blend::{blend_channel, frame_ratio, gen_interp, Ratio, RATIO_CEILING, RATIO_UNIT};
use frame_fx::pixel::{PixelBuffer, Rgba};

fn as_float(r: Ratio) -> f64 {
    r.num as f64 / r.den as f64
}

#[test]
fn ratio_constants() {
    assert_eq!(RATIO_UNIT, 1_000_000);
    assert_eq!(RATIO_CEILING, 999_000);
}

#[test]
fn ratio_of_first_frame_is_initial_ratio() {
    let r = frame_ratio(500_000, 500_000, 0, 10);
    assert_eq!(r, Ratio { num: 5_000_000, den: 10_000_000 });
    assert_eq!(as_float(r), 0.5);
}

#[test]
fn ratio_of_ninth_frame_of_ten() {
    let r = frame_ratio(500_000, 500_000, 9, 10);
    assert_eq!(r, Ratio { num: 9_500_000, den: 10_000_000 });
    assert_eq!(as_float(r), 0.95);
}

#[test]
fn ratio_is_cut_at_the_ceiling() {
    let r = frame_ratio(900_000, 500_000, 9, 10);
    assert_eq!(r, Ratio { num: 9_990_000, den: 10_000_000 });
    assert_eq!(as_float(r), 0.999);
    let r = frame_ratio(i64::MAX, i64::MAX, u32::MAX, u32::MAX);
    assert_eq!(r.num * 1000, r.den * 999);
    let r = frame_ratio(2_000_000, 0, 0, 3);
    assert_eq!(r, Ratio { num: 2_997_000, den: 3_000_000 });
}

#[test]
fn ratio_is_raised_to_zero() {
    let r = frame_ratio(-100_000, 10_000, 3, 10);
    assert_eq!(r, Ratio { num: 0, den: 10_000_000 });
    let r = frame_ratio(i64::MIN, i64::MIN, u32::MAX, 1);
    assert_eq!(r, Ratio { num: 0, den: 1_000_000 });
    let r = frame_ratio(500_000, -450_000, 20, 10);
    assert_eq!(r, Ratio { num: 0, den: 10_000_000 });
}

#[test]
fn ratio_grows_with_the_index() {
    let mut last: u64 = 0;
    let mut n: u32 = 0;
    while n < 40 {
        let r = frame_ratio(100_000, 450_000, n, 10);
        assert_eq!(r.den, 10_000_000);
        assert!(r.num >= last);
        assert!(r.num * 1000 <= r.den * 999);
        last = r.num;
        n += 1;
    }
    assert_eq!(last, 9_990_000);
}

#[test]
fn ratio_with_frame_number_past_the_count() {
    // a frame number may be larger than the number of files
    let r = frame_ratio(0, 100_000, 20, 10);
    assert_eq!(r, Ratio { num: 2_000_000, den: 10_000_000 });
}

#[test]
fn blend_rounds_to_nearest() {
    let half = Ratio { num: 1, den: 2 };
    assert_eq!(blend_channel(100, 200, half), 150);
    assert_eq!(blend_channel(1, 0, half), 1);
    assert_eq!(blend_channel(0, 1, half), 1);
    assert_eq!(blend_channel(255, 255, half), 255);
    let third = Ratio { num: 1, den: 3 };
    // 10 / 3 + 2 * 40 / 3 = 30
    assert_eq!(blend_channel(10, 40, third), 30);
    // 1 / 3 = 0.33
    assert_eq!(blend_channel(1, 0, third), 0);
    // 2 / 3 = 0.67
    assert_eq!(blend_channel(2, 0, third), 1);
}

#[test]
fn blend_at_the_ends() {
    let none = Ratio { num: 0, den: 7 };
    assert_eq!(blend_channel(13, 200, none), 200);
    let most = Ratio { num: 999, den: 1000 };
    // 13 * 0.999 + 200 * 0.001 = 13.187
    assert_eq!(blend_channel(13, 200, most), 13);
    let wide = Ratio { num: u64::MAX / 2, den: u64::MAX };
    assert_eq!(blend_channel(255, 255, wide), 255);
}

#[test]
fn gen_interp_blends_with_the_generated_colour() {
    let start = vec![
        Rgba { r: 100, g: 100, b: 100, a: 3 },
        Rgba { r: 0, g: 50, b: 255, a: 4 },
        Rgba { r: 10, g: 20, b: 30, a: 5 },
        Rgba { r: 200, g: 0, b: 0, a: 6 },
    ];
    let mut buf = PixelBuffer::from_pixels(2, 2, start).unwrap();
    let generator = |x: u32, y: u32| -> (u8, u8, u8) { ((x * 100) as u8, (y * 50) as u8, 200) };
    gen_interp(&mut buf, Ratio { num: 1, den: 2 }, &generator);
    assert_eq!(
        buf.pixels,
        vec![
            Rgba { r: 50, g: 50, b: 150, a: 255 },
            Rgba { r: 50, g: 25, b: 228, a: 255 },
            Rgba { r: 5, g: 35, b: 115, a: 255 },
            Rgba { r: 150, g: 25, b: 100, a: 255 },
        ]
    );
}

#[test]
fn gen_interp_asks_once_per_pixel_in_raster_order() {
    let mut buf = PixelBuffer::new(3, 2).unwrap();
    let seen = std::cell::RefCell::new(Vec::new());
    let generator = |x: u32, y: u32| -> (u8, u8, u8) {
        seen.borrow_mut().push((x, y));
        (0, 0, 0)
    };
    gen_interp(&mut buf, Ratio { num: 0, den: 1 }, &generator);
    assert_eq!(*seen.borrow(), vec![(0, 0), (1, 0), (2, 0), (0, 1), (1, 1), (2, 1)]);
}
