use frame_fx::color::{
    color_filter, color_grayscale, color_invert, pixel_luma, scale_channel, InvertMode, Scale,
};
use frame_fx::pixel::{PixelBuffer, Rgba};

fn px(r: u8, g: u8, b: u8, a: u8) -> Rgba {
    Rgba { r, g, b, a }
}

#[test]
fn new_buffer_is_transparent_black() {
    let buf = PixelBuffer::new(3, 2).unwrap();
    assert_eq!(buf.dimensions(), (3, 2));
    assert_eq!(buf.pixels.len(), 6);
    assert!(buf.pixels.iter().all(|p| *p == px(0, 0, 0, 0)));
}

#[test]
fn from_pixels_checks_the_length() {
    assert!(PixelBuffer::from_pixels(2, 2, vec![px(1, 2, 3, 4); 3]).is_none());
    let buf = PixelBuffer::from_pixels(2, 2, vec![px(1, 2, 3, 4); 4]).unwrap();
    assert_eq!(buf.get_pixel(1, 1), px(1, 2, 3, 4));
}

#[test]
fn put_pixel_touches_one_cell() {
    let mut buf = PixelBuffer::new(3, 2).unwrap();
    buf.put_pixel(2, 1, px(9, 8, 7, 6));
    assert_eq!(buf.pixels[5], px(9, 8, 7, 6));
    assert_eq!(buf.get_pixel(2, 1), px(9, 8, 7, 6));
    assert_eq!(buf.get_pixel(1, 1), px(0, 0, 0, 0));
    assert_eq!(buf.offset(2, 1), 5);
}

#[test]
fn duplicate_copies_everything() {
    let buf = PixelBuffer::from_pixels(2, 1, vec![px(1, 2, 3, 4), px(5, 6, 7, 8)]).unwrap();
    let copy = buf.duplicate();
    assert_eq!(copy.dimensions(), (2, 1));
    assert_eq!(copy.pixels, buf.pixels);
}

#[test]
fn invert_per_channel() {
    let mut buf = PixelBuffer::from_pixels(2, 1, vec![px(0, 10, 200, 77), px(255, 255, 255, 0)])
        .unwrap();
    color_invert(&mut buf, InvertMode::PerChannel);
    assert_eq!(buf.pixels, vec![px(255, 245, 55, 77), px(0, 0, 0, 0)]);
}

#[test]
fn invert_green_from_blue() {
    let mut buf = PixelBuffer::from_pixels(1, 1, vec![px(0, 10, 200, 77)]).unwrap();
    color_invert(&mut buf, InvertMode::GreenFromBlue);
    assert_eq!(buf.pixels, vec![px(255, 55, 55, 77)]);
}

#[test]
fn invert_twice_is_identity() {
    let start = vec![px(1, 2, 3, 4), px(250, 128, 0, 255)];
    let mut buf = PixelBuffer::from_pixels(1, 2, start.clone()).unwrap();
    color_invert(&mut buf, InvertMode::PerChannel);
    color_invert(&mut buf, InvertMode::PerChannel);
    assert_eq!(buf.pixels, start);
}

#[test]
fn luma_drops_the_fraction() {
    assert_eq!(pixel_luma(px(100, 150, 200, 0)), 140);
    assert_eq!(pixel_luma(px(255, 255, 255, 0)), 255);
    assert_eq!(pixel_luma(px(0, 0, 0, 0)), 0);
    // 0.299 * 1 + 0.587 * 1 + 0.114 * 2 = 1.114
    assert_eq!(pixel_luma(px(1, 1, 2, 0)), 1);
    // 0.299 * 3 = 0.897
    assert_eq!(pixel_luma(px(3, 0, 0, 0)), 0);
    assert_eq!(pixel_luma(px(255, 0, 0, 0)), 76);
    assert_eq!(pixel_luma(px(0, 255, 0, 0)), 149);
    assert_eq!(pixel_luma(px(0, 0, 255, 0)), 29);
}

#[test]
fn grayscale_sets_three_channels_to_luma() {
    let mut buf = PixelBuffer::from_pixels(
        3,
        1,
        vec![px(100, 150, 200, 9), px(255, 0, 0, 255), px(12, 34, 56, 0)],
    )
    .unwrap();
    color_grayscale(&mut buf);
    assert_eq!(buf.pixels, vec![px(140, 140, 140, 9), px(76, 76, 76, 255), px(29, 29, 29, 0)]);
}

#[test]
fn grayscale_law_on_a_sweep() {
    let mut r: u32 = 0;
    while r < 256 {
        let mut g: u32 = 0;
        while g < 256 {
            let p = px(r as u8, g as u8, ((r * 7 + g * 3) % 256) as u8, 1);
            let expect = ((299 * (p.r as u32) + 587 * (p.g as u32) + 114 * (p.b as u32)) / 1000) as u8;
            let mut buf = PixelBuffer::from_pixels(1, 1, vec![p]).unwrap();
            color_grayscale(&mut buf);
            assert_eq!(buf.pixels[0], px(expect, expect, expect, 1));
            g += 17;
        }
        r += 17;
    }
}

#[test]
fn scale_channel_truncates_and_saturates() {
    let half = Scale { raw: 32768 };
    let one = Scale { raw: 65536 };
    let double = Scale { raw: 131072 };
    let zero = Scale { raw: 0 };
    assert_eq!(scale_channel(201, half), 100);
    assert_eq!(scale_channel(201, one), 201);
    assert_eq!(scale_channel(100, double), 200);
    assert_eq!(scale_channel(200, double), 255);
    assert_eq!(scale_channel(255, Scale { raw: u32::MAX }), 255);
    assert_eq!(scale_channel(255, zero), 0);
}

#[test]
fn color_filter_scales_each_channel() {
    let mut buf = PixelBuffer::from_pixels(1, 1, vec![px(201, 100, 200, 42)]).unwrap();
    color_filter(&mut buf, Scale { raw: 32768 }, Scale { raw: 65536 }, Scale { raw: 131072 });
    assert_eq!(buf.pixels, vec![px(100, 100, 255, 42)]);
}
