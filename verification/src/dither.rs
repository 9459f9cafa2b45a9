//! The dithering strategies and their dispatcher.
//!
//! All three strategies traverse the buffer in raster order and store only
//! exact palette entries; they differ in what they feed the color mapper and
//! in what they propagate. Floyd-Steinberg error diffusion quantizes each
//! pixel, then spreads the per-channel quantization error over the
//! not-yet-processed neighbors with coefficients 7/16 (right), 3/16
//! (below-left), 5/16 (below) and 1/16 (below-right), clamping each channel
//! after each addition (sixteenths are divided truncating toward zero).
use vstd::prelude::*;

use crate::buffer::{lemma_raster_index, PixelBuffer};
use crate::color::{lemma_nearest_idx_is_nearest, nearest_idx, Rgb};
use crate::mapper::ColorMapper;
use crate::pattern::{clamp255, clamp_add, ordered_spec, trunc_div, MatrixSize};
use crate::progress::{
    n_pct_events, pct_event, pct_events, pct_hundredths, ProgressEvent, ProgressMessage, Stage,
};
use crate::Error;

verus! {

/// The closed set of dithering modes, chosen once per transform.
#[derive(Clone, Copy, PartialEq, Eq, Structural, Debug)]
pub enum DitherMethod {
    NoDither,
    FloydSteinberg,
    Pattern2x2,
    Pattern4x4,
    Pattern8x8,
}

/// The mode a mode-identifier string denotes, if any.
pub open spec fn mode_of(s: Seq<char>) -> Option<DitherMethod> {
    if s == "none"@ {
        Option::Some(DitherMethod::NoDither)
    } else if s == "floyd-steinberg"@ {
        Option::Some(DitherMethod::FloydSteinberg)
    } else if s == "pattern-2x2"@ {
        Option::Some(DitherMethod::Pattern2x2)
    } else if s == "pattern-4x4"@ {
        Option::Some(DitherMethod::Pattern4x4)
    } else if s == "pattern-8x8"@ {
        Option::Some(DitherMethod::Pattern8x8)
    } else {
        Option::None
    }
}

/// Compares two strings by contents.
pub fn str_eq(a: &str, b: &str) -> (r: bool)
    ensures
        r == (a@ == b@),
{
    let la = a.unicode_len();
    let lb = b.unicode_len();
    if la != lb {
        proof {
            if a@ == b@ {
                assert(a@.len() == b@.len());
            }
        }
        return false;
    }
    let mut i: usize = 0;
    while i < la
        invariant
            la == a@.len(),
            lb == b@.len(),
            la == lb,
            i <= la,
            forall|k: int| 0 <= k < i ==> a@[k] == b@[k],
        decreases la - i,
    {
        let ca = a.get_char(i);
        let cb = b.get_char(i);
        if ca != cb {
            proof {
                if a@ == b@ {
                    assert(a@[i as int] == b@[i as int]);
                }
            }
            return false;
        }
        i += 1;
    }
    proof {
        assert(a@ =~= b@);
    }
    true
}

impl DitherMethod {
    /// Parses a mode-identifier string. Exactly the five recognized values
    /// parse; anything else fails with `UnsupportedDitherMode`.
    pub fn from_str(s: &str) -> (r: Result<DitherMethod, Error>)
        ensures
            r == match mode_of(s@) {
                Option::Some(m) => Result::<DitherMethod, Error>::Ok(m),
                Option::None => Result::<DitherMethod, Error>::Err(Error::UnsupportedDitherMode),
            },
    {
        if str_eq(s, "none") {
            Ok(DitherMethod::NoDither)
        } else if str_eq(s, "floyd-steinberg") {
            Ok(DitherMethod::FloydSteinberg)
        } else if str_eq(s, "pattern-2x2") {
            Ok(DitherMethod::Pattern2x2)
        } else if str_eq(s, "pattern-4x4") {
            Ok(DitherMethod::Pattern4x4)
        } else if str_eq(s, "pattern-8x8") {
            Ok(DitherMethod::Pattern8x8)
        } else {
            Err(Error::UnsupportedDitherMode)
        }
    }
}

/// What the no-dither pass produces: each pixel mapped, independently, to
/// its nearest palette entry.
pub open spec fn no_dither_spec(buf: Seq<Rgb>, pal: Seq<Rgb>) -> Seq<Rgb>
    recommends
        pal.len() >= 1,
{
    Seq::new(buf.len(), |k: int| pal[nearest_idx(pal, buf[k])])
}

/// No dithering: map every pixel in raster order, emitting a percentage
/// event every 1000th pixel.
pub fn simple_color_pick(image: &mut PixelBuffer, mapper: &mut ColorMapper) -> (events: Vec<
    ProgressEvent,
>)
    requires
        old(image).wf(),
        old(mapper).wf(),
    ensures
        final(image).wf(),
        final(image).width == old(image).width,
        final(image).height == old(image).height,
        final(mapper).wf(),
        final(mapper).palette() == old(mapper).palette(),
        final(image).pixels@ == no_dither_spec(old(image).pixels@, old(mapper).palette()),
        events@ == pct_events(old(image).pixels@.len() as int),
{
    let ghost orig = image.pixels@;
    let ghost pal = mapper.palette();
    let total = image.pixels.len();
    let mut events: Vec<ProgressEvent> = Vec::new();
    let mut i: usize = 0;
    while i < total
        invariant
            total == image.pixels@.len(),
            orig.len() == total,
            image.width == old(image).width,
            image.height == old(image).height,
            image.wf(),
            mapper.wf(),
            mapper.palette() == pal,
            pal.len() >= 1,
            i <= total,
            forall|k: int| 0 <= k < i ==> image.pixels@[k] == pal[nearest_idx(pal, orig[k])],
            forall|k: int| i <= k < total ==> image.pixels@[k] == orig[k],
            events@ == pct_events(total as int).take(n_pct_events(i as int)),
        decreases total - i,
    {
        if i % 1000 == 0 {
            let p = pct_hundredths(i, total);
            events.push(ProgressEvent { stage: Stage::Dither, message: ProgressMessage::Percent(p) });
            proof {
                let n_old = n_pct_events(i as int);
                assert(i as int == 1000 * (i as int / 1000));
                assert(n_pct_events(i as int + 1) == n_old + 1);
                assert(pct_events(total as int)[n_old as int] == pct_event(i as int, total as int));
                assert(events@ =~= pct_events(total as int).take(n_pct_events(i as int + 1)));
            }
        } else {
            proof {
                assert(n_pct_events(i as int + 1) == n_pct_events(i as int));
            }
        }
        let mut px = image.pixels[i];
        mapper.map_color(&mut px);
        image.pixels.set(i, px);
        i += 1;
    }
    proof {
        assert(image.pixels@ =~= no_dither_spec(orig, pal));
        assert(n_pct_events(total as int) == pct_events(total as int).len());
        assert(events@ =~= pct_events(total as int));
    }
    events
}

/// One neighbor update of error diffusion: add `f/16` of each channel error
/// to the pixel at `j`, clamped.
pub open spec fn diffuse(s: Seq<Rgb>, j: int, er: int, eg: int, eb: int, f: int) -> Seq<Rgb>
    recommends
        0 <= j < s.len(),
{
    s.update(
        j,
        Rgb {
            r: clamp255(s[j].r + trunc_div(er * f, 16)),
            g: clamp255(s[j].g + trunc_div(eg * f, 16)),
            b: clamp255(s[j].b + trunc_div(eb * f, 16)),
        },
    )
}

/// One step of Floyd-Steinberg at raster index `i`: quantize the pixel and
/// diffuse the quantization error into the in-range not-yet-processed
/// neighbors.
pub open spec fn fs_step(s: Seq<Rgb>, pal: Seq<Rgb>, w: int, i: int) -> Seq<Rgb>
    recommends
        0 <= i < s.len(),
        w >= 1,
        pal.len() >= 1,
{
    let len = s.len() as int;
    let c = s[i];
    let out = pal[nearest_idx(pal, c)];
    let er = c.r - out.r;
    let eg = c.g - out.g;
    let eb = c.b - out.b;
    let x = i % w;
    let s0 = s.update(i, out);
    let s1 = if x + 1 < w && i + 1 < len {
        diffuse(s0, i + 1, er, eg, eb, 7)
    } else {
        s0
    };
    let s2 = if x >= 1 && i + w < len {
        diffuse(s1, i + w - 1, er, eg, eb, 3)
    } else {
        s1
    };
    let s3 = if i + w < len {
        diffuse(s2, i + w, er, eg, eb, 5)
    } else {
        s2
    };
    if x + 1 < w && i + w + 1 < len {
        diffuse(s3, i + w + 1, er, eg, eb, 1)
    } else {
        s3
    }
}

/// The buffer after the first `n` Floyd-Steinberg steps.
pub open spec fn fs_upto(buf: Seq<Rgb>, pal: Seq<Rgb>, w: int, n: int) -> Seq<Rgb>
    decreases n,
{
    if n <= 0 {
        buf
    } else {
        fs_step(fs_upto(buf, pal, w, n - 1), pal, w, n - 1)
    }
}

/// What Floyd-Steinberg error diffusion produces.
pub open spec fn fs_spec(buf: Seq<Rgb>, pal: Seq<Rgb>, w: int) -> Seq<Rgb>
    recommends
        w >= 1,
        pal.len() >= 1,
{
    fs_upto(buf, pal, w, buf.len() as int)
}

/// The two events the error-diffusion pass emits: one before it starts, one
/// after it completes.
pub open spec fn fs_events() -> Seq<ProgressEvent> {
    seq![
        ProgressEvent { stage: Stage::Dither, message: ProgressMessage::Processing },
        ProgressEvent { stage: Stage::Dither, message: ProgressMessage::Processed },
    ]
}

/// One step preserves the buffer's length.
pub proof fn lemma_fs_step_len(s: Seq<Rgb>, pal: Seq<Rgb>, w: int, i: int)
    requires
        0 <= i < s.len(),
        w >= 1,
    ensures
        fs_step(s, pal, w, i).len() == s.len(),
{
    let len = s.len() as int;
    let c = s[i];
    let out = pal[nearest_idx(pal, c)];
    let er = c.r - out.r;
    let eg = c.g - out.g;
    let eb = c.b - out.b;
    let x = i % w;
    let s0 = s.update(i, out);
    assert(s0.len() == s.len());
    let s1 = if x + 1 < w && i + 1 < len {
        diffuse(s0, i + 1, er, eg, eb, 7)
    } else {
        s0
    };
    assert(s1.len() == s.len());
    let s2 = if x >= 1 && i + w < len {
        diffuse(s1, i + w - 1, er, eg, eb, 3)
    } else {
        s1
    };
    assert(s2.len() == s.len());
    let s3 = if i + w < len {
        diffuse(s2, i + w, er, eg, eb, 5)
    } else {
        s2
    };
    assert(s3.len() == s.len());
    assert(fs_step(s, pal, w, i) == if x + 1 < w && i + w + 1 < len {
        diffuse(s3, i + w + 1, er, eg, eb, 1)
    } else {
        s3
    });
}

pub proof fn lemma_fs_upto_len(buf: Seq<Rgb>, pal: Seq<Rgb>, w: int, n: int)
    requires
        n <= buf.len(),
        w >= 1,
    ensures
        fs_upto(buf, pal, w, n).len() == buf.len(),
    decreases n,
{
    if n > 0 {
        lemma_fs_upto_len(buf, pal, w, n - 1);
        lemma_fs_step_len(fs_upto(buf, pal, w, n - 1), pal, w, n - 1);
    }
}

/// A step rewrites index `i` to the chosen palette entry and leaves every
/// earlier index untouched: all diffused error lands on later pixels.
pub proof fn lemma_fs_step_frame(s: Seq<Rgb>, pal: Seq<Rgb>, w: int, i: int)
    requires
        0 <= i < s.len(),
        w >= 1,
        pal.len() >= 1,
    ensures
        fs_step(s, pal, w, i).len() == s.len(),
        fs_step(s, pal, w, i)[i] == pal[nearest_idx(pal, s[i])],
        forall|k: int| 0 <= k < i ==> fs_step(s, pal, w, i)[k] == s[k],
{
    let x = i % w;
    vstd::arithmetic::div_mod::lemma_mod_division_less_than_divisor(i, w);
    assert(x >= 1 ==> w >= 2);
}

/// After `n` steps, each processed pixel holds the palette entry chosen for
/// the value it had when its own step ran.
pub proof fn lemma_fs_stable(buf: Seq<Rgb>, pal: Seq<Rgb>, w: int, n: int)
    requires
        w >= 1,
        pal.len() >= 1,
        0 <= n <= buf.len(),
    ensures
        forall|k: int|
            0 <= k < n ==> fs_upto(buf, pal, w, n)[k] == pal[nearest_idx(
                pal,
                fs_upto(buf, pal, w, k)[k],
            )],
    decreases n,
{
    if n > 0 {
        lemma_fs_stable(buf, pal, w, n - 1);
        lemma_fs_upto_len(buf, pal, w, n - 1);
        lemma_fs_step_frame(fs_upto(buf, pal, w, n - 1), pal, w, n - 1);
    }
}

/// Law: palette closure for error diffusion — every processed pixel of the
/// output is an exact member of the palette.
pub proof fn lemma_fs_palette_closure(buf: Seq<Rgb>, pal: Seq<Rgb>, w: int)
    requires
        w >= 1,
        pal.len() >= 1,
    ensures
        fs_spec(buf, pal, w).len() == buf.len(),
        forall|k: int| 0 <= k < buf.len() ==> pal.contains(#[trigger] fs_spec(buf, pal, w)[k]),
{
    lemma_fs_upto_len(buf, pal, w, buf.len() as int);
    lemma_fs_stable(buf, pal, w, buf.len() as int);
    assert forall|k: int| 0 <= k < buf.len() implies pal.contains(
        #[trigger] fs_spec(buf, pal, w)[k],
    ) by {
        lemma_nearest_idx_is_nearest(pal, fs_upto(buf, pal, w, k)[k]);
    }
}

/// The sum of the four error shares a step hands its neighbors.
pub open spec fn error_shares_sum(e: int) -> int {
    trunc_div(e * 7, 16) + trunc_div(e * 3, 16) + trunc_div(e * 5, 16) + trunc_div(e * 1, 16)
}

proof fn lemma_floor_shares(m: int)
    requires
        m >= 0,
    ensures
        m - 3 <= (m * 7) / 16 + (m * 3) / 16 + (m * 5) / 16 + (m * 1) / 16 <= m,
{
    vstd::arithmetic::div_mod::lemma_fundamental_div_mod(m * 7, 16);
    vstd::arithmetic::div_mod::lemma_fundamental_div_mod(m * 3, 16);
    vstd::arithmetic::div_mod::lemma_fundamental_div_mod(m * 5, 16);
    vstd::arithmetic::div_mod::lemma_fundamental_div_mod(m * 1, 16);
    vstd::arithmetic::div_mod::lemma_mod_division_less_than_divisor(m * 7, 16);
    vstd::arithmetic::div_mod::lemma_mod_division_less_than_divisor(m * 3, 16);
    vstd::arithmetic::div_mod::lemma_mod_division_less_than_divisor(m * 5, 16);
    vstd::arithmetic::div_mod::lemma_mod_division_less_than_divisor(m * 1, 16);
}

/// Law: full distribution up to rounding — the 7/16, 3/16, 5/16 and 1/16
/// shares a step diffuses sum to the whole per-channel quantization error,
/// except for at most 3 units lost to the truncation of sixteenths; the
/// distributed total never exceeds the error. (Shares falling outside the
/// grid, and clamping at a receiving channel, absorb error in the same way
/// at the edges.)
pub proof fn lemma_error_shares_sum(e: int)
    requires
        -255 <= e <= 255,
    ensures
        e >= 0 ==> e - 3 <= error_shares_sum(e) <= e,
        e <= 0 ==> e <= error_shares_sum(e) <= e + 3,
{
    if e >= 0 {
        lemma_floor_shares(e);
    } else {
        lemma_floor_shares(-e);
        assert(-(e * 7) == (-e) * 7);
        assert(-(e * 3) == (-e) * 3);
        assert(-(e * 5) == (-e) * 5);
        assert(-(e * 1) == (-e) * 1);
    }
}

/// Law: no leakage backward — once a pixel has been processed, later steps
/// never change it again; the whole diffused error of a step is distributed
/// over not-yet-processed pixels only.
pub proof fn lemma_fs_no_backward_diffusion(buf: Seq<Rgb>, pal: Seq<Rgb>, w: int, n: int, k: int)
    requires
        w >= 1,
        pal.len() >= 1,
        0 <= k < n <= buf.len(),
    ensures
        fs_upto(buf, pal, w, n)[k] == fs_upto(buf, pal, w, k + 1)[k],
{
    lemma_fs_stable(buf, pal, w, n);
    lemma_fs_stable(buf, pal, w, k + 1);
}

/// Floyd-Steinberg error diffusion over the whole buffer, in raster order.
/// Emits exactly two events: one before the pass and one after it.
pub fn floyd_steinberg_pick(image: &mut PixelBuffer, mapper: &mut ColorMapper) -> (events: Vec<
    ProgressEvent,
>)
    requires
        old(image).wf(),
        old(mapper).wf(),
    ensures
        final(image).wf(),
        final(image).width == old(image).width,
        final(image).height == old(image).height,
        final(mapper).wf(),
        final(mapper).palette() == old(mapper).palette(),
        final(image).pixels@ == fs_spec(
            old(image).pixels@,
            old(mapper).palette(),
            old(image).width as int,
        ),
        events@ == fs_events(),
{
    let ghost orig = image.pixels@;
    let ghost pal = mapper.palette();
    let total = image.pixels.len();
    let mut events: Vec<ProgressEvent> = Vec::new();
    events.push(ProgressEvent { stage: Stage::Dither, message: ProgressMessage::Processing });
    if total == 0 {
        events.push(ProgressEvent { stage: Stage::Dither, message: ProgressMessage::Processed });
        proof {
            assert(events@ =~= fs_events());
        }
        return events;
    }
    let w = image.width as usize;
    let h = image.height as usize;
    assert(w >= 1 && h >= 1) by (nonlinear_arith)
        requires
            total == w * h,
            total > 0,
    ;
    let mut i: usize = 0;
    let mut x: usize = 0;
    let mut y: usize = 0;
    while i < total
        invariant
            total == image.pixels@.len(),
            orig.len() == total,
            total == w * h,
            w >= 1,
            image.width == old(image).width,
            image.height == old(image).height,
            w == old(image).width as int,
            h == old(image).height as int,
            image.wf(),
            mapper.wf(),
            mapper.palette() == pal,
            pal.len() >= 1,
            i == y * w + x,
            x < w,
            y < h || (y == h && x == 0),
            i <= total,
            image.pixels@ == fs_upto(orig, pal, w as int, i as int),
            events@ == fs_events().take(1),
        decreases total - i,
    {
        proof {
            assert(y < h) by (nonlinear_arith)
                requires
                    i == y * w + x,
                    x < w,
                    i < total,
                    total == w * h,
                    w >= 1,
                    y == h ==> x == 0,
            ;
            lemma_raster_index(w as int, h as int, x as int, y as int);
            lemma_fs_upto_len(orig, pal, w as int, i as int);
        }
        let ghost prev = image.pixels@;
        let px = image.pixels[i];
        let mut mapped = px;
        mapper.map_color(&mut mapped);
        image.pixels.set(i, mapped);
        let er: i32 = px.r as i32 - mapped.r as i32;
        let eg: i32 = px.g as i32 - mapped.g as i32;
        let eb: i32 = px.b as i32 - mapped.b as i32;
        let remaining = total - i;
        let below = w < remaining;
        proof {
            assert(below == (i + w < total));
            assert(x + 1 < w ==> i + 1 < total) by (nonlinear_arith)
                requires
                    i == y * w + x,
                    x < w,
                    y < h,
                    total == w * h,
                    w >= 1,
            ;
            assert((x + 1 < w && i + w < total) ==> i + w + 1 < total) by (nonlinear_arith)
                requires
                    i == y * w + x,
                    x < w,
                    y < h,
                    total == w * h,
                    w >= 1,
            ;
            assert((x + 1 < w && i + w >= total) ==> !(i + w + 1 < total));
        }
        if x + 1 < w {
            diffuse_at(&mut image.pixels, i + 1, er, eg, eb, 7);
        }
        if x >= 1 && below {
            diffuse_at(&mut image.pixels, i + w - 1, er, eg, eb, 3);
        }
        if below {
            diffuse_at(&mut image.pixels, i + w, er, eg, eb, 5);
        }
        if x + 1 < w && below {
            diffuse_at(&mut image.pixels, i + w + 1, er, eg, eb, 1);
        }
        proof {
            assert(image.pixels@ == fs_step(prev, pal, w as int, i as int));
            assert(image.pixels@ == fs_upto(orig, pal, w as int, i as int + 1));
        }
        i += 1;
        x += 1;
        if x == w {
            x = 0;
            y += 1;
            proof {
                assert((y as int) * (w as int) == (y as int - 1) * (w as int) + w as int)
                    by (nonlinear_arith);
                assert(y <= h) by (nonlinear_arith)
                    requires
                        i == y * w && i <= w * h && w >= 1 && y >= 0 && h >= 0,
                ;
            }
        }
    }
    events.push(ProgressEvent { stage: Stage::Dither, message: ProgressMessage::Processed });
    proof {
        assert(events@ =~= fs_events());
    }
    events
}

/// Applies one error-diffusion update to the pixel at `j`.
fn diffuse_at(pixels: &mut Vec<Rgb>, j: usize, er: i32, eg: i32, eb: i32, f: i32)
    requires
        j < old(pixels)@.len(),
        -255 <= er <= 255,
        -255 <= eg <= 255,
        -255 <= eb <= 255,
        1 <= f <= 7,
    ensures
        final(pixels)@ == diffuse(old(pixels)@, j as int, er as int, eg as int, eb as int, f as int),
{
    let p = pixels[j];
    let np = Rgb {
        r: clamp_add(p.r, mul_div16(er, f)),
        g: clamp_add(p.g, mul_div16(eg, f)),
        b: clamp_add(p.b, mul_div16(eb, f)),
    };
    pixels.set(j, np);
}

/// `e * f / 16` with division truncating toward zero, as the error
/// coefficients are applied.
fn mul_div16(e: i32, f: i32) -> (r: i32)
    requires
        -255 <= e <= 255,
        1 <= f <= 7,
    ensures
        r as int == trunc_div(e as int * f as int, 16),
        -112 <= r <= 112,
{
    proof {
        assert(-1785 <= e as int * f as int <= 1785) by (nonlinear_arith)
            requires
                -255 <= e <= 255,
                1 <= f <= 7,
        ;
    }
    let prod: i32 = e * f;
    if prod >= 0 {
        let q: u32 = (prod as u32) / 16;
        assert(prod as u32 <= 1785);
        assert(q <= 111);
        q as i32
    } else {
        let m: u32 = (-prod) as u32;
        assert(m <= 1785);
        let q: u32 = m / 16;
        assert(q <= 111);
        -(q as i32)
    }
}

/// The buffer a given mode produces from a given input.
pub open spec fn dither_spec(mode: DitherMethod, buf: Seq<Rgb>, pal: Seq<Rgb>, w: int) -> Seq<Rgb>
    recommends
        w >= 1,
        pal.len() >= 1,
{
    match mode {
        DitherMethod::NoDither => no_dither_spec(buf, pal),
        DitherMethod::FloydSteinberg => fs_spec(buf, pal, w),
        DitherMethod::Pattern2x2 => ordered_spec(buf, pal, w, MatrixSize::Two),
        DitherMethod::Pattern4x4 => ordered_spec(buf, pal, w, MatrixSize::Four),
        DitherMethod::Pattern8x8 => ordered_spec(buf, pal, w, MatrixSize::Eight),
    }
}

/// The progress-event trace a given mode emits over `total` pixels.
pub open spec fn dither_events_spec(mode: DitherMethod, total: int) -> Seq<ProgressEvent> {
    match mode {
        DitherMethod::FloydSteinberg => fs_events(),
        _ => pct_events(total),
    }
}

/// Selects and runs the strategy for `dither_mode`; the buffer's dimensions
/// are preserved and its pixels become exactly what the mode's
/// specification says.
pub fn color_pick(image: &mut PixelBuffer, mapper: &mut ColorMapper, dither_mode: DitherMethod)
    -> (events: Vec<ProgressEvent>)
    requires
        old(image).wf(),
        old(mapper).wf(),
    ensures
        final(image).wf(),
        final(image).width == old(image).width,
        final(image).height == old(image).height,
        final(mapper).wf(),
        final(mapper).palette() == old(mapper).palette(),
        final(image).pixels@ == dither_spec(
            dither_mode,
            old(image).pixels@,
            old(mapper).palette(),
            old(image).width as int,
        ),
        events@ == dither_events_spec(dither_mode, old(image).pixels@.len() as int),
{
    match dither_mode {
        DitherMethod::NoDither => simple_color_pick(image, mapper),
        DitherMethod::FloydSteinberg => floyd_steinberg_pick(image, mapper),
        DitherMethod::Pattern2x2 => crate::pattern::dither(image, MatrixSize::Two, mapper),
        DitherMethod::Pattern4x4 => crate::pattern::dither(image, MatrixSize::Four, mapper),
        DitherMethod::Pattern8x8 => crate::pattern::dither(image, MatrixSize::Eight, mapper),
    }
}

/// Law: palette closure — for every mode, every pixel of the output is an
/// exact member of the input palette.
pub proof fn lemma_palette_closure(mode: DitherMethod, buf: Seq<Rgb>, pal: Seq<Rgb>, w: int)
    requires
        w >= 1,
        pal.len() >= 1,
    ensures
        dither_spec(mode, buf, pal, w).len() == buf.len(),
        forall|k: int|
            0 <= k < buf.len() ==> pal.contains(#[trigger] dither_spec(mode, buf, pal, w)[k]),
{
    match mode {
        DitherMethod::FloydSteinberg => {
            lemma_fs_palette_closure(buf, pal, w);
        },
        _ => {
            assert forall|k: int| 0 <= k < buf.len() implies pal.contains(
                #[trigger] dither_spec(mode, buf, pal, w)[k],
            ) by {
                match mode {
                    DitherMethod::NoDither => {
                        lemma_nearest_idx_is_nearest(pal, buf[k]);
                        assert(pal[nearest_idx(pal, buf[k])] == dither_spec(mode, buf, pal, w)[k]);
                    },
                    DitherMethod::Pattern2x2 | DitherMethod::Pattern4x4
                        | DitherMethod::Pattern8x8 => {
                        let size = match mode {
                            DitherMethod::Pattern2x2 => MatrixSize::Two,
                            DitherMethod::Pattern4x4 => MatrixSize::Four,
                            _ => MatrixSize::Eight,
                        };
                        let c = crate::pattern::perturb(
                            buf[k],
                            crate::pattern::offset_spec(size, k % w, k / w),
                        );
                        lemma_nearest_idx_is_nearest(pal, c);
                        assert(pal[nearest_idx(pal, c)] == dither_spec(mode, buf, pal, w)[k]);
                    },
                    _ => {},
                }
            }
        },
    }
}

/// Law: an already-quantized image is unchanged — if every pixel of the
/// buffer is a palette entry, the no-dither pass returns the buffer
/// exactly. The two distance hypotheses are inherent to the uninterpreted
/// perceptual metric: a color's distance key to itself is zero (the
/// distance wrapper guarantees it at every call), and no *distinct*
/// palette entry may sit at distance key zero from a pixel (perceptually
/// colliding distinct colors cannot be excluded from the metric's name
/// alone).
pub proof fn lemma_already_quantized_identity(buf: Seq<Rgb>, pal: Seq<Rgb>)
    requires
        pal.len() >= 1,
        forall|k: int|
            0 <= k < buf.len() ==> exists|i: int| 0 <= i < pal.len() && pal[i] == #[trigger] buf[k],
        forall|k: int| 0 <= k < buf.len() ==> crate::color::pdist(#[trigger] buf[k], buf[k]) == 0,
        forall|k: int, j: int|
            0 <= k < buf.len() && 0 <= j < pal.len() && crate::color::pdist(
                buf[k],
                #[trigger] pal[j],
            ) == 0 ==> pal[j] == #[trigger] buf[k],
    ensures
        no_dither_spec(buf, pal) == buf,
{
    assert forall|k: int| 0 <= k < buf.len() implies no_dither_spec(buf, pal)[k] == buf[k] by {
        let c = buf[k];
        lemma_nearest_idx_is_nearest(pal, c);
        let r = nearest_idx(pal, c);
        let i = choose|i: int| 0 <= i < pal.len() && pal[i] == c;
        assert(crate::color::pdist(c, pal[i]) == 0);
        assert(crate::color::pdist(c, pal[r]) <= crate::color::pdist(c, pal[i]));
    }
    assert(no_dither_spec(buf, pal) =~= buf);
}

/// Law: determinism — the output of every mode is a function of the input
/// buffer, the palette and the width alone, so running the same transform
/// twice on identical inputs yields identical outputs.
pub proof fn lemma_transform_deterministic(
    mode: DitherMethod,
    buf: Seq<Rgb>,
    pal: Seq<Rgb>,
    w: int,
    out1: Seq<Rgb>,
    out2: Seq<Rgb>,
)
    requires
        out1 == dither_spec(mode, buf, pal, w),
        out2 == dither_spec(mode, buf, pal, w),
    ensures
        out1 == out2,
{
}

} // verus!
