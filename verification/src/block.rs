//! The block engine: cutting a frame into square blocks, handing each to a
//! transform kernel and writing the result back.

use vstd::prelude::*;
use vstd::arithmetic::div_mod::lemma_fundamental_div_mod_converse;
use crate::pixel::{lemma_pixel_index_bounds, opaque_gray, pixel_index, PixelBuffer, Rgba};

verus! {

/// The two frequency transforms that a block can be put through.
#[derive(Clone, Copy, Debug, PartialEq, Eq, Structural)]
pub enum TransformKind {
    /// The discrete cosine transform.
    Cosine,
    /// The discrete sine transform.
    Sine,
}

/// A block is a list of `n` rows of `n` levels each.
pub open spec fn is_square(block: Vec<Vec<u8>>, n: int) -> bool {
    &&& block@.len() == n
    &&& forall|i: int| 0 <= i < n ==> (#[trigger] block@[i])@.len() == n
}

/// The sample that a block takes at `(x, y)`: the first channel of the
/// pixel there, or 0 where the block reaches beyond the frame.
pub open spec fn sample_at(s: Seq<Rgba>, w: int, h: int, x: int, y: int) -> u8 {
    if 0 <= x < w && 0 <= y < h {
        s[pixel_index(w, x, y)].r
    } else {
        0
    }
}

/// Whether `block` holds the samples of the `n` by `n` square whose top left
/// corner is `(x, y)`, row by row.
pub open spec fn is_block_of(
    block: Vec<Vec<u8>>,
    s: Seq<Rgba>,
    w: int,
    h: int,
    x: int,
    y: int,
    n: int,
) -> bool {
    &&& is_square(block, n)
    &&& forall|i: int, j: int|
        0 <= i < n && 0 <= j < n ==> #[trigger] block@[i]@[j] == sample_at(s, w, h, x + j, y + i)
}

/// Whether `(px, py)` lies in the `n` by `n` square whose top left corner is
/// `(x, y)`.
pub open spec fn in_square(px: int, py: int, x: int, y: int, n: int) -> bool {
    x <= px < x + n && y <= py < y + n
}

/// Whether the part of the frame under the square at `(x, y)` shows the
/// levels of `block` as opaque grays.
pub open spec fn shows_block(
    s: Seq<Rgba>,
    w: int,
    h: int,
    x: int,
    y: int,
    n: int,
    block: Vec<Vec<u8>>,
) -> bool {
    forall|px: int, py: int|
        0 <= px < w && 0 <= py < h && in_square(px, py, x, y, n) ==> s[#[trigger] pixel_index(
            w,
            px,
            py,
        )] == opaque_gray(block@[py - y]@[px - x])
}

/// Whether the block in block column `c` and block row `r` of `after` shows
/// what `kernel` can return for the samples of that block in `before`.
pub open spec fn block_transformed<K: Fn(TransformKind, Vec<Vec<u8>>) -> Vec<Vec<u8>>>(
    kernel: K,
    kind: TransformKind,
    before: Seq<Rgba>,
    after: Seq<Rgba>,
    w: int,
    h: int,
    c: int,
    r: int,
    n: int,
) -> bool {
    exists|input: Vec<Vec<u8>>, output: Vec<Vec<u8>>|
        is_block_of(input, before, w, h, c * n, r * n, n) && #[trigger] call_ensures(
            kernel,
            (kind, input),
            output,
        ) && shows_block(after, w, h, c * n, r * n, n, output)
}

/// A coordinate inside the `c`-th stretch of length `n` has `c` as its
/// quotient by `n`.
proof fn lemma_stretch(p: int, c: int, n: int)
    requires
        0 < n,
        c * n <= p < c * n + n,
    ensures
        p / n == c,
{
    lemma_fundamental_div_mod_converse(p, n, c, p - c * n);
}

/// Copies the samples of the square at `(x, y)` out of the frame. Samples
/// beyond the right or bottom edge are 0.
pub fn extract_block(img: &PixelBuffer, x: u32, y: u32, block_size: u32) -> (block: Vec<Vec<u8>>)
    requires
        img.wf(),
    ensures
        is_block_of(
            block,
            img.pixels@,
            img.width as int,
            img.height as int,
            x as int,
            y as int,
            block_size as int,
        ),
{
    let ghost s = img.pixels@;
    let ghost w = img.width as int;
    let ghost h = img.height as int;
    let mut block: Vec<Vec<u8>> = Vec::new();
    let mut i: u32 = 0;
    while i < block_size
        invariant
            i <= block_size,
            img.wf(),
            s == img.pixels@,
            w == img.width,
            h == img.height,
            block@.len() == i,
            forall|r: int| 0 <= r < i ==> (#[trigger] block@[r])@.len() == block_size,
            forall|r: int, c: int|
                0 <= r < i && 0 <= c < block_size ==> #[trigger] block@[r]@[c] == sample_at(
                    s,
                    w,
                    h,
                    x + c,
                    y + r,
                ),
        decreases block_size - i,
    {
        let mut row: Vec<u8> = Vec::new();
        let mut j: u32 = 0;
        while j < block_size
            invariant
                j <= block_size,
                i < block_size,
                img.wf(),
                s == img.pixels@,
                w == img.width,
                h == img.height,
                row@.len() == j,
                forall|c: int| 0 <= c < j ==> #[trigger] row@[c] == sample_at(s, w, h, x + c, y + i),
            decreases block_size - j,
        {
            let px: u64 = (x as u64) + (j as u64);
            let py: u64 = (y as u64) + (i as u64);
            let v: u8 = if px < img.width as u64 && py < img.height as u64 {
                img.get_pixel(px as u32, py as u32).r
            } else {
                0
            };
            row.push(v);
            j += 1;
        }
        block.push(row);
        i += 1;
    }
    block
}

/// Writes the levels of `block` over the square at `(x, y)` as opaque grays.
/// Cells beyond the right or bottom edge are dropped; pixels outside the
/// square are left alone.
pub fn store_block(img: &mut PixelBuffer, block: &Vec<Vec<u8>>, x: u32, y: u32, block_size: u32)
    requires
        old(img).wf(),
        is_square(*block, block_size as int),
    ensures
        final(img).wf(),
        final(img).width == old(img).width,
        final(img).height == old(img).height,
        shows_block(
            final(img).pixels@,
            old(img).width as int,
            old(img).height as int,
            x as int,
            y as int,
            block_size as int,
            *block,
        ),
        forall|px: int, py: int|
            old(img).contains(px, py) && !in_square(px, py, x as int, y as int, block_size as int)
                ==> final(img).pixels@[#[trigger] pixel_index(old(img).width as int, px, py)]
                == old(img).pixels@[pixel_index(old(img).width as int, px, py)],
{
    let ghost start = img.pixels@;
    let ghost w = img.width as int;
    let ghost h = img.height as int;
    let ghost n = block_size as int;
    let mut i: u32 = 0;
    while i < block_size
        invariant
            i <= block_size,
            n == block_size,
            img.wf(),
            img.width == old(img).width,
            img.height == old(img).height,
            w == img.width,
            h == img.height,
            start == old(img).pixels@,
            is_square(*block, n),
            forall|px: int, py: int|
                0 <= px < w && 0 <= py < h && in_square(px, py, x as int, y as int, n) && py < y
                    + i ==> img.pixels@[#[trigger] pixel_index(w, px, py)] == opaque_gray(
                    block@[py - y]@[px - x],
                ),
            forall|px: int, py: int|
                0 <= px < w && 0 <= py < h && !(in_square(px, py, x as int, y as int, n) && py < y
                    + i) ==> img.pixels@[#[trigger] pixel_index(w, px, py)] == start[pixel_index(
                    w,
                    px,
                    py,
                )],
        decreases block_size - i,
    {
        let mut j: u32 = 0;
        while j < block_size
            invariant
                j <= block_size,
                i < block_size,
                n == block_size,
                img.wf(),
                img.width == old(img).width,
                img.height == old(img).height,
                w == img.width,
                h == img.height,
                start == old(img).pixels@,
                is_square(*block, n),
                forall|px: int, py: int|
                    0 <= px < w && 0 <= py < h && in_square(px, py, x as int, y as int, n) && (py
                        < y + i || (py == y + i && px < x + j)) ==> img.pixels@[#[trigger] pixel_index(
                        w,
                        px,
                        py,
                    )] == opaque_gray(block@[py - y]@[px - x]),
                forall|px: int, py: int|
                    0 <= px < w && 0 <= py < h && !(in_square(px, py, x as int, y as int, n) && (py
                        < y + i || (py == y + i && px < x + j))) ==> img.pixels@[#[trigger] pixel_index(
                        w,
                        px,
                        py,
                    )] == start[pixel_index(w, px, py)],
            decreases block_size - j,
        {
            let px: u64 = (x as u64) + (j as u64);
            let py: u64 = (y as u64) + (i as u64);
            if px < img.width as u64 && py < img.height as u64 {
                let ghost prev = img.pixels@;
                assert(block@[i as int]@.len() == n);
                let level = block[i as usize][j as usize];
                img.put_pixel(
                    px as u32,
                    py as u32,
                    Rgba { r: level, g: level, b: level, a: 255 },
                );
                proof {
                    lemma_pixel_index_bounds(w, h, px as int, py as int);
                    let here = pixel_index(w, px as int, py as int);
                    assert forall|qx: int, qy: int| 0 <= qx < w && 0 <= qy < h implies 0
                        <= #[trigger] pixel_index(w, qx, qy) < prev.len() && (pixel_index(
                        w,
                        qx,
                        qy,
                    ) == here <==> (qx == px && qy == py)) by {
                        lemma_pixel_index_bounds(w, h, qx, qy);
                    }
                    assert(img.pixels@[here] == opaque_gray(block@[py - y]@[px - x]));
                }
            }
            j += 1;
        }
        i += 1;
    }
}

/// Puts every block of the frame through `kernel`. The frame is cut into
/// squares of side `block_size`, starting at the top left corner and going
/// row by row; squares on the right and bottom edge may reach beyond the
/// frame. Each block is read from the frame as it was on entry.
pub fn block_transform<K: Fn(TransformKind, Vec<Vec<u8>>) -> Vec<Vec<u8>>>(
    img: &mut PixelBuffer,
    kind: TransformKind,
    block_size: u32,
    kernel: &K,
)
    requires
        old(img).wf(),
        block_size > 0,
        forall|input: Vec<Vec<u8>>|
            is_square(input, block_size as int) ==> call_requires(*kernel, (kind, input)),
        forall|input: Vec<Vec<u8>>, output: Vec<Vec<u8>>|
            is_square(input, block_size as int) && call_ensures(*kernel, (kind, input), output)
                ==> is_square(output, block_size as int),
    ensures
        final(img).wf(),
        final(img).width == old(img).width,
        final(img).height == old(img).height,
        forall|c: int, r: int|
            0 <= c && c * block_size < old(img).width && 0 <= r && r * block_size < old(
                img,
            ).height ==> #[trigger] block_transformed(
                *kernel,
                kind,
                old(img).pixels@,
                final(img).pixels@,
                old(img).width as int,
                old(img).height as int,
                c,
                r,
                block_size as int,
            ),
{
    let (width, height) = img.dimensions();
    let ghost w = width as int;
    let ghost h = height as int;
    let ghost n = block_size as int;
    let ghost start = img.pixels@;
    let mut out = img.duplicate();
    let mut y: u64 = 0;
    let ghost mut r: int = 0;
    while y < height as u64
        invariant
            n == block_size,
            n > 0,
            w == width,
            h == height,
            img.wf(),
            img.width == width,
            img.height == height,
            img.pixels@ == start,
            out.wf(),
            out.width == width,
            out.height == height,
            0 <= r,
            y == r * n,
            y < h + n,
            forall|input: Vec<Vec<u8>>| is_square(input, n) ==> call_requires(*kernel, (kind, input)),
            forall|input: Vec<Vec<u8>>, output: Vec<Vec<u8>>|
                is_square(input, n) && call_ensures(*kernel, (kind, input), output) ==> is_square(
                    output,
                    n,
                ),
            forall|cc: int, rr: int|
                0 <= cc && cc * n < w && 0 <= rr < r ==> #[trigger] block_transformed(
                    *kernel,
                    kind,
                    start,
                    out.pixels@,
                    w,
                    h,
                    cc,
                    rr,
                    n,
                ),
        decreases h + n - y,
    {
        let mut x: u64 = 0;
        let ghost mut c: int = 0;
        while x < width as u64
            invariant
                n == block_size,
                n > 0,
                w == width,
                h == height,
                img.wf(),
                img.width == width,
                img.height == height,
                img.pixels@ == start,
                out.wf(),
                out.width == width,
                out.height == height,
                0 <= r,
                y == r * n,
                y < h,
                0 <= c,
                x == c * n,
                x < w + n,
                forall|input: Vec<Vec<u8>>|
                    is_square(input, n) ==> call_requires(*kernel, (kind, input)),
                forall|input: Vec<Vec<u8>>, output: Vec<Vec<u8>>|
                    is_square(input, n) && call_ensures(*kernel, (kind, input), output)
                        ==> is_square(output, n),
                forall|cc: int, rr: int|
                    0 <= cc && cc * n < w && 0 <= rr && (rr < r || (rr == r && cc < c))
                        ==> #[trigger] block_transformed(
                        *kernel,
                        kind,
                        start,
                        out.pixels@,
                        w,
                        h,
                        cc,
                        rr,
                        n,
                    ),
            decreases w + n - x,
        {
            let block = extract_block(img, x as u32, y as u32, block_size);
            let ghost input = block;
            let output = kernel(kind, block);
            let ghost prev = out.pixels@;
            store_block(&mut out, &output, x as u32, y as u32, block_size);
            proof {
                assert(block_transformed(*kernel, kind, start, out.pixels@, w, h, c, r, n)) by {
                    assert(is_block_of(input, start, w, h, c * n, r * n, n));
                    assert(shows_block(out.pixels@, w, h, c * n, r * n, n, output));
                }
                assert forall|cc: int, rr: int|
                    0 <= cc && cc * n < w && 0 <= rr && (rr < r || (rr == r && cc < c))
                    implies #[trigger] block_transformed(
                    *kernel,
                    kind,
                    start,
                    out.pixels@,
                    w,
                    h,
                    cc,
                    rr,
                    n,
                ) by {
                    assert(block_transformed(*kernel, kind, start, prev, w, h, cc, rr, n));
                    let (a, b) = choose|a: Vec<Vec<u8>>, b: Vec<Vec<u8>>|
                        is_block_of(a, start, w, h, cc * n, rr * n, n) && #[trigger] call_ensures(
                            *kernel,
                            (kind, a),
                            b,
                        ) && shows_block(prev, w, h, cc * n, rr * n, n, b);
                    assert forall|px: int, py: int|
                        0 <= px < w && 0 <= py < h && in_square(
                            px,
                            py,
                            cc * n,
                            rr * n,
                            n,
                        ) implies out.pixels@[#[trigger] pixel_index(w, px, py)] == opaque_gray(
                        b@[py - rr * n]@[px - cc * n],
                    ) by {
                        lemma_stretch(px, cc, n);
                        lemma_stretch(py, rr, n);
                        if in_square(px, py, x as int, y as int, n) {
                            lemma_stretch(px, c, n);
                            lemma_stretch(py, r, n);
                        }
                    }
                    assert(shows_block(out.pixels@, w, h, cc * n, rr * n, n, b));
                }
                assert((c + 1) * n == c * n + n) by (nonlinear_arith);
            }
            x += block_size as u64;
            proof {
                c = c + 1;
            }
        }
        proof {
            assert forall|cc: int, rr: int| 0 <= cc && cc * n < w && 0 <= rr < r + 1
                implies #[trigger] block_transformed(
                *kernel,
                kind,
                start,
                out.pixels@,
                w,
                h,
                cc,
                rr,
                n,
            ) by {
                if rr == r {
                    assert(cc < c) by (nonlinear_arith)
                        requires
                            cc * n < w,
                            w <= c * n,
                            n > 0,
                    ;
                }
            }
            assert((r + 1) * n == r * n + n) by (nonlinear_arith);
        }
        y += block_size as u64;
        proof {
            r = r + 1;
        }
    }
    proof {
        assert forall|cc: int, rr: int|
            0 <= cc && cc * n < w && 0 <= rr && rr * n < h
            implies #[trigger] block_transformed(
            *kernel,
            kind,
            start,
            out.pixels@,
            w,
            h,
            cc,
            rr,
            n,
        ) by {
            assert(rr < r) by (nonlinear_arith)
                requires
                    rr * n < h,
                    h <= r * n,
                    n > 0,
            ;
        }
    }
    *img = out;
}


/// The cosine transform of every block of side `block_size`.
pub fn discrete_cosine<K: Fn(TransformKind, Vec<Vec<u8>>) -> Vec<Vec<u8>>>(
    img: &mut PixelBuffer,
    block_size: u32,
    kernel: &K,
)
    requires
        old(img).wf(),
        block_size > 0,
        forall|input: Vec<Vec<u8>>|
            is_square(input, block_size as int) ==> call_requires(
                *kernel,
                (TransformKind::Cosine, input),
            ),
        forall|input: Vec<Vec<u8>>, output: Vec<Vec<u8>>|
            is_square(input, block_size as int) && call_ensures(
                *kernel,
                (TransformKind::Cosine, input),
                output,
            ) ==> is_square(output, block_size as int),
    ensures
        final(img).wf(),
        final(img).width == old(img).width,
        final(img).height == old(img).height,
        forall|c: int, r: int|
            0 <= c && c * block_size < old(img).width && 0 <= r && r * block_size < old(
                img,
            ).height ==> #[trigger] block_transformed(
                *kernel,
                TransformKind::Cosine,
                old(img).pixels@,
                final(img).pixels@,
                old(img).width as int,
                old(img).height as int,
                c,
                r,
                block_size as int,
            ),
{
    block_transform(img, TransformKind::Cosine, block_size, kernel)
}

/// The sine transform of every block of side `block_size`.
pub fn discrete_sine<K: Fn(TransformKind, Vec<Vec<u8>>) -> Vec<Vec<u8>>>(
    img: &mut PixelBuffer,
    block_size: u32,
    kernel: &K,
)
    requires
        old(img).wf(),
        block_size > 0,
        forall|input: Vec<Vec<u8>>|
            is_square(input, block_size as int) ==> call_requires(
                *kernel,
                (TransformKind::Sine, input),
            ),
        forall|input: Vec<Vec<u8>>, output: Vec<Vec<u8>>|
            is_square(input, block_size as int) && call_ensures(
                *kernel,
                (TransformKind::Sine, input),
                output,
            ) ==> is_square(output, block_size as int),
    ensures
        final(img).wf(),
        final(img).width == old(img).width,
        final(img).height == old(img).height,
        forall|c: int, r: int|
            0 <= c && c * block_size < old(img).width && 0 <= r && r * block_size < old(
                img,
            ).height ==> #[trigger] block_transformed(
                *kernel,
                TransformKind::Sine,
                old(img).pixels@,
                final(img).pixels@,
                old(img).width as int,
                old(img).height as int,
                c,
                r,
                block_size as int,
            ),
{
    block_transform(img, TransformKind::Sine, block_size, kernel)
}

} // verus!
