//! Ordered (pattern) dithering with Bayer threshold matrices.
//!
//! The threshold matrix is the standard recursive Bayer construction:
//! `B2 = [[0,2],[3,1]]`, and `B(2n)[y][x] = 4 * B(n)[y mod n][x mod n] +
//! B2[y div n][x div n]`. An entry `t` of an `n x n` matrix is centered and
//! scaled to the signed channel offset `(2t + 1 - n^2) * 23 / (2 n^2)`
//! (truncating division), where `23` is the fixed dither strength of 0.09 of
//! the channel range, rounded. The offset perturbs a pixel's channels before
//! quantization; only the quantization decision is affected, the stored
//! output is the chosen palette color.
use vstd::prelude::*;

use crate::buffer::{lemma_raster_index, PixelBuffer};
use crate::color::{nearest_idx, Rgb};
use crate::mapper::ColorMapper;
use crate::progress::{n_pct_events, pct_event, pct_events, pct_hundredths, ProgressEvent};

verus! {

/// The side length of the threshold matrix: 2, 4 or 8.
#[derive(Clone, Copy, PartialEq, Eq, Structural, Debug)]
pub enum MatrixSize {
    Two,
    Four,
    Eight,
}

impl MatrixSize {
    pub open spec fn val(self) -> int {
        match self {
            MatrixSize::Two => 2,
            MatrixSize::Four => 4,
            MatrixSize::Eight => 8,
        }
    }

    pub fn val_exec(self) -> (n: u32)
        ensures
            n as int == self.val(),
    {
        match self {
            MatrixSize::Two => 2,
            MatrixSize::Four => 4,
            MatrixSize::Eight => 8,
        }
    }
}

/// The base 2x2 Bayer matrix.
pub open spec fn bayer2(x: int, y: int) -> int {
    if y == 0 {
        if x == 0 {
            0
        } else {
            2
        }
    } else {
        if x == 0 {
            3
        } else {
            1
        }
    }
}

/// The 4x4 Bayer matrix, one recursion step up from 2x2.
pub open spec fn bayer4(x: int, y: int) -> int {
    4 * bayer2(x % 2, y % 2) + bayer2(x / 2, y / 2)
}

/// The Bayer matrix entry at (x, y), for 0 <= x, y < size.
pub open spec fn bayer(size: MatrixSize, x: int, y: int) -> int {
    match size {
        MatrixSize::Two => bayer2(x, y),
        MatrixSize::Four => bayer4(x, y),
        MatrixSize::Eight => 4 * bayer4(x % 4, y % 4) + bayer2(x / 4, y / 4),
    }
}

/// Truncating (toward-zero) signed division, for a positive divisor.
pub open spec fn trunc_div(a: int, b: int) -> int
    recommends
        b > 0,
{
    if a >= 0 {
        a / b
    } else {
        -((-a) / b)
    }
}

/// The signed channel offset applied to the pixel at column x, row y.
pub open spec fn offset_spec(size: MatrixSize, x: int, y: int) -> int {
    let n = size.val();
    let t = bayer(size, x % n, y % n);
    trunc_div((2 * t + 1 - n * n) * 23, 2 * (n * n))
}

/// Bayer entries lie in [0, size^2).
pub proof fn lemma_bayer_range(size: MatrixSize, x: int, y: int)
    requires
        0 <= x < size.val(),
        0 <= y < size.val(),
    ensures
        0 <= bayer(size, x, y) < size.val() * size.val(),
{
}

/// Offsets are small: they never exceed the dither strength.
pub proof fn lemma_offset_bound(size: MatrixSize, x: int, y: int)
    ensures
        -23 <= offset_spec(size, x, y) <= 23,
{
    let n = size.val();
    let xm = x % n;
    let ym = y % n;
    vstd::arithmetic::div_mod::lemma_mod_division_less_than_divisor(x, n);
    vstd::arithmetic::div_mod::lemma_mod_division_less_than_divisor(y, n);
    lemma_bayer_range(size, xm, ym);
    let t = bayer(size, xm, ym);
    let a = 2 * t + 1 - n * n;
    assert(-23 <= trunc_div(a * 23, 2 * (n * n)) <= 23) by (nonlinear_arith)
        requires
            -(n * n) < a < n * n,
            n * n >= 4,
    ;
}

/// The Bayer entry at (x, y) of the 2x2 matrix.
fn bayer2_exec(x: u32, y: u32) -> (t: u32)
    requires
        x < 2,
        y < 2,
    ensures
        t as int == bayer2(x as int, y as int),
{
    if y == 0 {
        if x == 0 {
            0
        } else {
            2
        }
    } else {
        if x == 0 {
            3
        } else {
            1
        }
    }
}

/// The Bayer entry at (x, y) of the size x size matrix.
fn bayer_exec(size: MatrixSize, x: u32, y: u32) -> (t: u32)
    requires
        x < size.val(),
        y < size.val(),
    ensures
        t as int == bayer(size, x as int, y as int),
        t < size.val() * size.val(),
{
    proof {
        lemma_bayer_range(size, x as int, y as int);
    }
    match size {
        MatrixSize::Two => bayer2_exec(x, y),
        MatrixSize::Four => 4 * bayer2_exec(x % 2, y % 2) + bayer2_exec(x / 2, y / 2),
        MatrixSize::Eight => {
            let inner = 4 * bayer2_exec((x % 4) % 2, (y % 4) % 2) + bayer2_exec(
                (x % 4) / 2,
                (y % 4) / 2,
            );
            4 * inner + bayer2_exec(x / 4, y / 4)
        },
    }
}

/// The signed channel offset for the pixel at column x, row y.
pub fn matrix_offset(size: MatrixSize, x: u32, y: u32) -> (r: i32)
    ensures
        r as int == offset_spec(size, x as int, y as int),
        -23 <= r <= 23,
{
    proof {
        lemma_offset_bound(size, x as int, y as int);
    }
    let n = size.val_exec();
    let t = bayer_exec(size, x % n, y % n);
    let num: u32 = 2 * t + 1;
    let nn: u32 = n * n;
    if num >= nn {
        (((num - nn) * 23) / (2 * nn)) as i32
    } else {
        -((((nn - num) * 23) / (2 * nn)) as i32)
    }
}

/// Clamps `c + d` into the valid channel range.
pub open spec fn clamp255(v: int) -> u8 {
    if v < 0 {
        0
    } else if v > 255 {
        255
    } else {
        v as u8
    }
}

/// Adds a signed delta to a channel, clamping into the valid range.
pub fn clamp_add(c: u8, d: i32) -> (r: u8)
    requires
        -4000 <= d <= 4000,
    ensures
        r == clamp255(c as int + d as int),
{
    let v: i32 = c as i32 + d;
    if v < 0 {
        0
    } else if v > 255 {
        255
    } else {
        v as u8
    }
}

/// The pixel with every channel moved by `d`, clamped.
pub open spec fn perturb(c: Rgb, d: int) -> Rgb {
    Rgb { r: clamp255(c.r + d), g: clamp255(c.g + d), b: clamp255(c.b + d) }
}

/// What ordered dithering produces: each pixel is the palette entry nearest
/// to the pixel perturbed by its position's matrix offset.
pub open spec fn ordered_spec(buf: Seq<Rgb>, pal: Seq<Rgb>, w: int, size: MatrixSize) -> Seq<Rgb>
    recommends
        w >= 1,
        pal.len() >= 1,
{
    Seq::new(
        buf.len(),
        |k: int| pal[nearest_idx(pal, perturb(buf[k], offset_spec(size, k % w, k / w)))],
    )
}

/// Ordered dithering: perturb each pixel by the threshold matrix entry at
/// (x mod size, y mod size), quantize the perturbed value, and store the
/// chosen palette color. Emits a percentage event every 1000th pixel.
pub fn dither(image: &mut PixelBuffer, size: MatrixSize, mapper: &mut ColorMapper) -> (events: Vec<
    ProgressEvent,
>)
    requires
        old(image).wf(),
        old(mapper).wf(),
    ensures
        final(image).wf(),
        final(image).width == old(image).width,
        final(image).height == old(image).height,
        final(mapper).wf(),
        final(mapper).palette() == old(mapper).palette(),
        final(image).pixels@ == ordered_spec(
            old(image).pixels@,
            old(mapper).palette(),
            old(image).width as int,
            size,
        ),
        events@ == pct_events(old(image).pixels@.len() as int),
{
    let ghost orig = image.pixels@;
    let ghost pal = mapper.palette();
    let ghost w0 = image.width;
    let ghost h0 = image.height;
    let total = image.pixels.len();
    let mut events: Vec<ProgressEvent> = Vec::new();
    if total == 0 {
        assert(image.pixels@ =~= ordered_spec(orig, pal, w0 as int, size));
        assert(events@ =~= pct_events(0));
        return events;
    }
    let w = image.width as usize;
    let h = image.height as usize;
    assert(w >= 1 && h >= 1) by (nonlinear_arith)
        requires
            total == w * h,
            total > 0,
    ;
    let mut i: usize = 0;
    let mut x: usize = 0;
    let mut y: usize = 0;
    while i < total
        invariant
            total == image.pixels@.len(),
            orig.len() == total,
            total == w * h,
            w >= 1,
            image.width == w0,
            image.height == h0,
            w == w0 as int,
            h == h0 as int,
            image.wf(),
            mapper.wf(),
            mapper.palette() == pal,
            pal.len() >= 1,
            i == y * w + x,
            x < w,
            y < h || (y == h && x == 0),
            i <= total,
            forall|k: int|
                0 <= k < i ==> image.pixels@[k] == pal[nearest_idx(
                    pal,
                    perturb(orig[k], offset_spec(size, k % (w as int), k / (w as int))),
                )],
            forall|k: int| i <= k < total ==> image.pixels@[k] == orig[k],
            events@ == pct_events(total as int).take(n_pct_events(i as int)),
        decreases total - i,
    {
        proof {
            assert(y < h) by (nonlinear_arith)
                requires
                    i == y * w + x,
                    x < w,
                    i < total,
                    total == w * h,
                    w >= 1,
                    y == h ==> x == 0,
            ;
            lemma_raster_index(w as int, h as int, x as int, y as int);
        }
        if i % 1000 == 0 {
            let p = pct_hundredths(i, total);
            events.push(
                ProgressEvent {
                    stage: crate::progress::Stage::Dither,
                    message: crate::progress::ProgressMessage::Percent(p),
                },
            );
            proof {
                let n_old = n_pct_events(i as int);
                assert(i as int == 1000 * (i as int / 1000));
                assert(n_pct_events(i as int + 1) == n_old + 1);
                assert(pct_events(total as int)[n_old as int] == pct_event(i as int, total as int));
                assert(events@ =~= pct_events(total as int).take(n_pct_events(i as int + 1)));
            }
        } else {
            proof {
                assert(n_pct_events(i as int + 1) == n_pct_events(i as int));
            }
        }
        let off = matrix_offset(size, x as u32, y as u32);
        let px = image.pixels[i];
        let mut pert = Rgb {
            r: clamp_add(px.r, off),
            g: clamp_add(px.g, off),
            b: clamp_add(px.b, off),
        };
        mapper.map_color(&mut pert);
        image.pixels.set(i, pert);
        i += 1;
        x += 1;
        if x == w {
            x = 0;
            y += 1;
            proof {
                assert((y as int) * (w as int) == (y as int - 1) * (w as int) + w as int)
                    by (nonlinear_arith);
                assert(y <= h) by (nonlinear_arith)
                    requires
                        i == y * w && i <= w * h && w >= 1 && y >= 0 && h >= 0,
                ;
            }
        }
    }
    proof {
        assert(y == h && x == 0) by (nonlinear_arith)
            requires
                i == y * w + x,
                x < w,
                i == total,
                total == w * h,
                w >= 1,
                y < h || (y == h && x == 0),
        ;
        assert(image.pixels@ =~= ordered_spec(orig, pal, w as int, size));
        assert(n_pct_events(total as int) == pct_events(total as int).len());
        assert(events@ =~= pct_events(total as int));
    }
    events
}

} // verus!
