use frame_fx::block::{
    block_transform, discrete_cosine, discrete_sine, extract_block, store_block, TransformKind,
};
use frame_fx::pixel::{PixelBuffer, Rgba};

fn ramp(width: u32, height: u32) -> PixelBuffer {
    let mut pixels = Vec::new();
    let mut i: u32 = 0;
    while i < width * height {
        pixels.push(Rgba { r: (i + 1) as u8, g: 0, b: 77, a: 9 });
        i += 1;
    }
    PixelBuffer::from_pixels(width, height, pixels).unwrap()
}

fn opaque(level: u8) -> Rgba {
    Rgba { r: level, g: level, b: level, a: 255 }
}

fn coefficients(kind: TransformKind, block: &Vec<Vec<u8>>) -> Vec<Vec<f64>> {
    let n = block.len();
    let pi = std::f64::consts::PI;
    let mut out = vec![vec![0.0f64; n]; n];
    for u in 0..n {
        for v in 0..n {
            let mut sum = 0.0f64;
            for i in 0..n {
                for j in 0..n {
                    let f = block[i][j] as f64 / 255.0;
                    sum += match kind {
                        TransformKind::Cosine => {
                            let cu = if u == 0 { 1.0 / 2.0f64.sqrt() } else { 1.0 };
                            let cv = if v == 0 { 1.0 / 2.0f64.sqrt() } else { 1.0 };
                            cu * cv
                                * f
                                * ((2.0 * i as f64 + 1.0) * u as f64 * pi / (2.0 * n as f64)).cos()
                                * ((2.0 * j as f64 + 1.0) * v as f64 * pi / (2.0 * n as f64)).cos()
                        }
                        TransformKind::Sine => {
                            f * ((i as f64 + 0.5) * u as f64 * pi / n as f64).sin()
                                * ((j as f64 + 0.5) * v as f64 * pi / n as f64).sin()
                        }
                    };
                }
            }
            out[u][v] = sum * (2.0 / (n as f64).sqrt());
        }
    }
    out
}

fn float_kernel(kind: TransformKind, block: Vec<Vec<u8>>) -> Vec<Vec<u8>> {
    coefficients(kind, &block)
        .iter()
        .map(|row| row.iter().map(|c| (c.clamp(0.0, 1.0) * 255.0) as u8).collect())
        .collect()
}

fn identity_kernel(_kind: TransformKind, block: Vec<Vec<u8>>) -> Vec<Vec<u8>> {
    block
}

#[test]
fn extract_block_inside_the_frame() {
    let img = ramp(4, 3);
    assert_eq!(extract_block(&img, 1, 1, 2), vec![vec![6, 7], vec![10, 11]]);
    assert_eq!(extract_block(&img, 0, 0, 1), vec![vec![1]]);
}

#[test]
fn extract_block_pads_with_zero() {
    let img = ramp(4, 3);
    assert_eq!(extract_block(&img, 3, 2, 2), vec![vec![12, 0], vec![0, 0]]);
    assert_eq!(extract_block(&img, 2, 0, 3), vec![vec![3, 4, 0], vec![7, 8, 0], vec![11, 12, 0]]);
    assert_eq!(extract_block(&img, 9, 9, 2), vec![vec![0, 0], vec![0, 0]]);
    assert_eq!(extract_block(&img, u32::MAX, u32::MAX, 2), vec![vec![0, 0], vec![0, 0]]);
    let empty: Vec<Vec<u8>> = Vec::new();
    assert_eq!(extract_block(&img, 0, 0, 0), empty);
}

#[test]
fn store_block_writes_opaque_grays() {
    let mut img = ramp(4, 3);
    let before = img.pixels.clone();
    store_block(&mut img, &vec![vec![50, 60], vec![70, 80]], 1, 1, 2);
    let mut i: usize = 0;
    while i < 12 {
        let expect = match i {
            5 => opaque(50),
            6 => opaque(60),
            9 => opaque(70),
            10 => opaque(80),
            _ => before[i],
        };
        assert_eq!(img.pixels[i], expect);
        i += 1;
    }
}

#[test]
fn store_block_drops_cells_beyond_the_frame() {
    let mut img = ramp(4, 3);
    let before = img.pixels.clone();
    store_block(&mut img, &vec![vec![50, 60], vec![70, 80]], 3, 2, 2);
    let mut i: usize = 0;
    while i < 12 {
        let expect = if i == 11 { opaque(50) } else { before[i] };
        assert_eq!(img.pixels[i], expect);
        i += 1;
    }
    store_block(&mut img, &vec![vec![1, 2], vec![3, 4]], 7, 7, 2);
    assert_eq!(img.pixels[11], opaque(50));
}

#[test]
fn identity_kernel_shows_the_first_channel() {
    let mut img = ramp(5, 3);
    let before = img.pixels.clone();
    block_transform(&mut img, TransformKind::Cosine, 2, &identity_kernel);
    assert_eq!(img.dimensions(), (5, 3));
    let mut i: usize = 0;
    while i < 15 {
        assert_eq!(img.pixels[i], opaque(before[i].r));
        i += 1;
    }
}

#[test]
fn blocks_are_visited_row_by_row() {
    let mut img = ramp(5, 3);
    let seen = std::cell::RefCell::new(Vec::new());
    let kernel = |kind: TransformKind, block: Vec<Vec<u8>>| -> Vec<Vec<u8>> {
        seen.borrow_mut().push((kind, block[0][0]));
        block
    };
    block_transform(&mut img, TransformKind::Sine, 2, &kernel);
    assert_eq!(
        *seen.borrow(),
        vec![
            (TransformKind::Sine, 1),
            (TransformKind::Sine, 3),
            (TransformKind::Sine, 5),
            (TransformKind::Sine, 11),
            (TransformKind::Sine, 13),
            (TransformKind::Sine, 15),
        ]
    );
}

#[test]
fn blocks_are_read_from_the_frame_as_it_was() {
    // a kernel that moves each level one cell to the right within its block
    let mut img = ramp(4, 2);
    let kernel = |_kind: TransformKind, block: Vec<Vec<u8>>| -> Vec<Vec<u8>> {
        block.iter().map(|row| vec![row[1], row[0]]).collect()
    };
    block_transform(&mut img, TransformKind::Cosine, 2, &kernel);
    let levels: Vec<u8> = img.pixels.iter().map(|p| p.r).collect();
    assert_eq!(levels, vec![2, 1, 4, 3, 6, 5, 8, 7]);
}

#[test]
fn uniform_block_has_all_energy_in_the_first_coefficient() {
    let block = vec![vec![51u8; 4]; 4];
    let dct = coefficients(TransformKind::Cosine, &block);
    // N^1.5 * f = 8 * 0.2
    assert!((dct[0][0] - 1.6).abs() < 1e-9);
    for u in 0..4 {
        for v in 0..4 {
            if (u, v) != (0, 0) {
                assert!(dct[u][v].abs() < 1e-9);
            }
        }
    }
}

#[test]
fn cosine_transform_of_a_uniform_frame() {
    // 2 by 2 blocks of level 51: the first coefficient is 2^1.5 * 0.2 = 0.5657
    let mut img =
        PixelBuffer::from_pixels(4, 2, vec![Rgba { r: 51, g: 1, b: 2, a: 3 }; 8]).unwrap();
    discrete_cosine(&mut img, 2, &float_kernel);
    let levels: Vec<u8> = img.pixels.iter().map(|p| p.r).collect();
    assert_eq!(levels, vec![144, 0, 144, 0, 0, 0, 0, 0]);
    assert!(img.pixels.iter().all(|p| p.r == p.g && p.g == p.b && p.a == 255));
}

#[test]
fn sine_transform_has_an_empty_first_row_and_column() {
    let mut img =
        PixelBuffer::from_pixels(2, 2, vec![Rgba { r: 255, g: 1, b: 2, a: 3 }; 4]).unwrap();
    discrete_sine(&mut img, 2, &float_kernel);
    // sin(0) = 0 for u = 0 or v = 0; F(1,1) = sqrt(2) * 4 * sin(pi/4)^2... clamped to 1
    let levels: Vec<u8> = img.pixels.iter().map(|p| p.r).collect();
    assert_eq!(levels, vec![0, 0, 0, 255]);
}
