use frame_fx::dither::{
    fs_dither, WEIGHT_BELOW, WEIGHT_BELOW_LEFT, WEIGHT_BELOW_RIGHT, WEIGHT_RIGHT, WEIGHT_UNIT,
};
use frame_fx::pixel::{PixelBuffer, Rgba};

fn gray(level: u8, a: u8) -> Rgba {
    Rgba { r: level, g: level, b: level, a }
}

#[test]
fn weights_sum_to_one() {
    assert_eq!(WEIGHT_RIGHT + WEIGHT_BELOW_LEFT + WEIGHT_BELOW + WEIGHT_BELOW_RIGHT, WEIGHT_UNIT);
    assert_eq!((WEIGHT_RIGHT, WEIGHT_BELOW_LEFT, WEIGHT_BELOW, WEIGHT_BELOW_RIGHT), (7, 3, 5, 1));
}

#[test]
fn white_frame_is_unchanged() {
    let start = vec![gray(255, 10); 12];
    let mut buf = PixelBuffer::from_pixels(4, 3, start.clone()).unwrap();
    fs_dither(&mut buf);
    assert_eq!(buf.pixels, start);
}

#[test]
fn black_frame_is_unchanged() {
    let start = vec![gray(0, 255); 12];
    let mut buf = PixelBuffer::from_pixels(3, 4, start.clone()).unwrap();
    fs_dither(&mut buf);
    assert_eq!(buf.pixels, start);
}

#[test]
fn black_and_white_mix_is_unchanged() {
    let start = vec![gray(0, 1), gray(255, 2), gray(255, 3), gray(0, 4), gray(0, 5), gray(255, 6)];
    let mut buf = PixelBuffer::from_pixels(3, 2, start.clone()).unwrap();
    fs_dither(&mut buf);
    assert_eq!(buf.pixels, start);
}

#[test]
fn threshold_is_above_128() {
    let mut buf = PixelBuffer::from_pixels(1, 1, vec![gray(128, 7)]).unwrap();
    fs_dither(&mut buf);
    assert_eq!(buf.pixels, vec![gray(0, 7)]);
    let mut buf = PixelBuffer::from_pixels(1, 1, vec![gray(129, 7)]).unwrap();
    fs_dither(&mut buf);
    assert_eq!(buf.pixels, vec![gray(255, 7)]);
}

#[test]
fn error_moves_to_the_right() {
    // 100 -> 0 with error 100; the neighbour becomes 100 + 43.75 -> 143 -> 255
    let mut buf = PixelBuffer::from_pixels(2, 1, vec![gray(100, 1), gray(100, 2)]).unwrap();
    fs_dither(&mut buf);
    assert_eq!(buf.pixels, vec![gray(0, 1), gray(255, 2)]);
}

#[test]
fn error_moves_through_a_two_by_two_frame() {
    let mut buf = PixelBuffer::from_pixels(
        2,
        2,
        vec![gray(200, 1), gray(100, 2), gray(100, 3), gray(100, 4)],
    )
    .unwrap();
    fs_dither(&mut buf);
    assert_eq!(buf.pixels, vec![gray(255, 1), gray(0, 2), gray(0, 3), gray(255, 4)]);
}

#[test]
fn negative_sums_stop_at_zero() {
    // 200 -> 255 with error -55; the neighbour 10 - 24.06 stops at 0
    let mut buf = PixelBuffer::from_pixels(2, 1, vec![gray(200, 1), gray(10, 2)]).unwrap();
    fs_dither(&mut buf);
    assert_eq!(buf.pixels, vec![gray(255, 1), gray(0, 2)]);
}

#[test]
fn neighbour_takes_error_on_its_first_channel() {
    // the neighbour's green and blue are overwritten by the corrected red
    let first = Rgba { r: 0, g: 0, b: 0, a: 1 };
    let second = Rgba { r: 255, g: 0, b: 0, a: 2 };
    let mut buf = PixelBuffer::from_pixels(2, 1, vec![first, second]).unwrap();
    fs_dither(&mut buf);
    assert_eq!(buf.pixels, vec![gray(0, 1), gray(255, 2)]);
}

#[test]
fn column_frame_passes_error_down() {
    // 100 -> 0, error 100; below gets 100 + 31.25 -> 131 -> 255
    let mut buf = PixelBuffer::from_pixels(1, 2, vec![gray(100, 1), gray(100, 2)]).unwrap();
    fs_dither(&mut buf);
    assert_eq!(buf.pixels, vec![gray(0, 1), gray(255, 2)]);
}

#[test]
fn empty_frame_stays_empty() {
    let mut buf = PixelBuffer::new(0, 3).unwrap();
    fs_dither(&mut buf);
    assert_eq!(buf.pixels.len(), 0);
    assert_eq!(buf.dimensions(), (0, 3));
}
