//! The end-to-end transform: decode, extract a palette, dither, encode.
//!
//! The image codec and the palette extractor are external collaborators,
//! reached through trusted wrappers; everything between them — mapping,
//! dithering, mode parsing, event tracing — is the verified engine. Decoding,
//! PNG encoding and palette extraction are deterministic functions of their
//! inputs, so their results carry names that let `process` pin its whole
//! result; like all floating-point library code, the extractor's exact
//! output is fixed per platform.
use vstd::prelude::*;

use std::io::Cursor;

use crate::buffer::PixelBuffer;
use crate::color::Rgb;
use crate::dither::{color_pick, dither_events_spec, dither_spec, mode_of, DitherMethod};
use crate::mapper::ColorMapper;
use crate::progress::{ProgressEvent, ProgressMessage, Stage};
use crate::Error;

verus! {

/// What the codec decodes a byte string to, if anything: width, height and
/// the raster-order pixels. Decoding is a function of the bytes alone.
pub uninterp spec fn decoded_image_of(bytes: Seq<u8>) -> Option<(u32, u32, Seq<Rgb>)>;

/// The PNG encoding of a pixel grid: a function of the dimensions and the
/// raster-order pixels alone.
pub uninterp spec fn png_of(width: u32, height: u32, pixels: Seq<Rgb>) -> Seq<u8>;

/// The palette the extractor computes from an image's raster-order pixels
/// for a given color count and quality: a function of those three alone
/// (the algorithm uses only vectors and stable sorts, no hashing and no
/// randomness).
pub uninterp spec fn extracted_palette_of(pixels: Seq<Rgb>, colors: u8, quality: u8) -> Seq<Rgb>;

/// Relies on image::load_from_memory and DynamicImage::to_rgb8: decoding
/// either fails, or deterministically yields an RGB8 buffer holding exactly
/// width * height pixels. A decodable PNG has dimensions between 1 and
/// 2^31 - 1 on each side (31-bit per the format, nonzero enforced by the
/// decoder).
#[verifier::external_body]
fn decode_rgb(bytes: &[u8]) -> (r: Result<PixelBuffer, Error>)
    ensures
        match r {
            Ok(b) => {
                &&& decoded_image_of(bytes@) == Some((b.width, b.height, b.pixels@))
                &&& b.wf()
                &&& 1 <= b.width <= 0x7fffffff
                &&& 1 <= b.height <= 0x7fffffff
            },
            Err(e) => decoded_image_of(bytes@) is None && e == Error::ImageDecode,
        },
{
    let img = match image::load_from_memory(bytes) {
        Ok(i) => i.to_rgb8(),
        Err(_) => {
            return Err(Error::ImageDecode);
        },
    };
    let (width, height) = img.dimensions();
    let pixels: Vec<Rgb> = img.pixels().map(|p| Rgb { r: p.0[0], g: p.0[1], b: p.0[2] }).collect();
    Ok(PixelBuffer { width, height, pixels })
}

/// Relies on image::RgbImage::from_raw and write_to: a buffer of
/// width * height RGB pixels, both dimensions in the encoder's accepted
/// range (nonzero and 31-bit), is re-assembled and deterministically
/// encoded as PNG without failing.
#[verifier::external_body]
fn encode_png(image: &PixelBuffer) -> (r: Vec<u8>)
    requires
        image.wf(),
        1 <= image.width <= 0x7fffffff,
        1 <= image.height <= 0x7fffffff,
    ensures
        r@ == png_of(image.width, image.height, image.pixels@),
{
    let raw: Vec<u8> = image.pixels.iter().flat_map(|p| [p.r, p.g, p.b]).collect();
    let img = image::RgbImage::from_raw(image.width, image.height, raw)
        .expect("dimensions match the pixel count");
    let mut out = Cursor::new(Vec::with_capacity(img.as_raw().len()));
    img.write_to(&mut out, image::ImageFormat::Png).expect("PNG encoding of a valid buffer");
    out.into_inner()
}

/// A pixel the extractor's white filter drops (every channel above 250).
pub open spec fn is_filtered_white(c: Rgb) -> bool {
    c.r > 250 && c.g > 250 && c.b > 250
}

/// The extractor samples the pixels at every index divisible by `quality`;
/// at least one sampled pixel must survive the white filter for a palette
/// to exist.
pub open spec fn has_usable_sample(pixels: Seq<Rgb>, quality: u8) -> bool {
    exists|k: int|
        0 <= k < pixels.len() && k % (quality as int) == 0 && !is_filtered_white(
            #[trigger] pixels[k],
        )
}

/// Relies on palette_extract::get_palette_with_options with RGB encoding
/// and the white-pixel filter. Within the stated bounds it terminates,
/// panics on no admitted input, and returns between 1 and colors + 1
/// entries (its second median-cut pass always runs one split before
/// checking its target). Excluded by `requires`, each a panic or
/// divergence in that crate's source: a zero quality never advances the
/// sampling index; fewer than two requested colors underflow the second
/// pass's target; an input whose sampled pixels are all filtered out
/// builds a degenerate box whose channel bounds overflow.
#[verifier::external_body]
fn extract_palette(image: &PixelBuffer, colors_to_extract: u8, extract_quality: u8) -> (r: Vec<Rgb>)
    requires
        colors_to_extract >= 2,
        extract_quality >= 1,
        has_usable_sample(image.pixels@, extract_quality),
    ensures
        r@ == extracted_palette_of(image.pixels@, colors_to_extract, extract_quality),
        1 <= r@.len() <= colors_to_extract as int + 1,
{
    let raw: Vec<u8> = image.pixels.iter().flat_map(|p| [p.r, p.g, p.b]).collect();
    let palette = palette_extract::get_palette_with_options(
        &raw,
        palette_extract::PixelEncoding::Rgb,
        palette_extract::Quality::new(extract_quality),
        palette_extract::MaxColors::new(colors_to_extract),
        palette_extract::PixelFilter::White,
    );
    palette.into_iter().map(|palette_extract::Color { r, g, b }| Rgb { r, g, b }).collect()
}

/// Decides whether any sampled pixel survives the extractor's white filter.
fn find_usable_sample(pixels: &Vec<Rgb>, quality: u8) -> (r: bool)
    requires
        quality >= 1,
    ensures
        r == has_usable_sample(pixels@, quality),
{
    let len = pixels.len();
    let step = quality as usize;
    let mut idx: usize = 0;
    while idx < len
        invariant
            1 <= step <= 255,
            step == quality,
            len == pixels@.len(),
            idx % step == 0,
            idx <= len,
            forall|k: int|
                0 <= k < idx && k % (step as int) == 0 ==> is_filtered_white(
                    #[trigger] pixels@[k],
                ),
        decreases len - idx,
    {
        let p = pixels[idx];
        if !(p.r > 250 && p.g > 250 && p.b > 250) {
            return true;
        }
        let rem = len - idx;
        if rem <= step {
            proof {
                assert forall|k: int|
                    0 <= k < pixels@.len() && k % (quality as int) == 0 implies is_filtered_white(
                    pixels@[k],
                ) by {
                    if k >= idx {
                        assert(k == idx) by (nonlinear_arith)
                            requires
                                k % (step as int) == 0,
                                (idx as int) % (step as int) == 0,
                                idx <= k < idx + step,
                                step >= 1,
                        ;
                    }
                }
            }
            return false;
        }
        let ghost prev_idx = idx as int;
        idx += step;
        proof {
            assert((idx as int) % (step as int) == 0) by (nonlinear_arith)
                requires
                    prev_idx % (step as int) == 0,
                    idx == prev_idx + step,
                    step >= 1,
            ;
            assert forall|k: int|
                0 <= k < idx && k % (step as int) == 0 implies is_filtered_white(
                pixels@[k],
            ) by {
                if k >= prev_idx {
                    assert(k == prev_idx) by (nonlinear_arith)
                        requires
                            k % (step as int) == 0,
                            prev_idx % (step as int) == 0,
                            prev_idx <= k < prev_idx + step,
                            step >= 1,
                    ;
                }
            }
        }
    }
    false
}

impl ColorMapper {
    /// Extracts a palette from a reference image and builds a mapper over
    /// it, with an empty cache. Fails with `EmptyPalette` exactly when
    /// every sampled pixel is filtered out as near-white, the one input the
    /// extractor cannot serve.
    pub fn build_from_image(image: &PixelBuffer, colors_to_extract: u8, extract_quality: u8) -> (r:
        Result<ColorMapper, Error>)
        requires
            colors_to_extract >= 2,
            extract_quality >= 1,
        ensures
            r is Ok <==> has_usable_sample(image.pixels@, extract_quality),
            r matches Ok(m) ==> {
                &&& m.wf()
                &&& m.palette() == extracted_palette_of(
                    image.pixels@,
                    colors_to_extract,
                    extract_quality,
                )
                &&& 1 <= m.palette().len() <= colors_to_extract as int + 1
                &&& m.cache_map() == Map::<u32, usize>::empty()
            },
            r matches Err(e) ==> e == Error::EmptyPalette,
    {
        if !find_usable_sample(&image.pixels, extract_quality) {
            return Err(Error::EmptyPalette);
        }
        let palette = extract_palette(image, colors_to_extract, extract_quality);
        Ok(ColorMapper::build(palette))
    }
}

/// The events `process` emits before the dithering pass starts.
pub open spec fn prelude_events() -> Seq<ProgressEvent> {
    seq![
        ProgressEvent { stage: Stage::ImageLoad, message: ProgressMessage::LoadingOriginal },
        ProgressEvent { stage: Stage::ImageLoad, message: ProgressMessage::LoadingColorSource },
        ProgressEvent { stage: Stage::ImageLoad, message: ProgressMessage::Loaded },
        ProgressEvent { stage: Stage::ExtractColor, message: ProgressMessage::ExtractingPalette },
        ProgressEvent { stage: Stage::ExtractColor, message: ProgressMessage::PaletteExtracted },
        ProgressEvent { stage: Stage::ExtractColor, message: ProgressMessage::MethodParsed },
    ]
}

/// What one whole transform returns: the checks, the dithered buffer, the
/// encoding and the event trace, as a function of the inputs.
pub open spec fn process_spec(
    orig: Seq<u8>,
    color: Seq<u8>,
    colors: u8,
    quality: u8,
    mode_s: Seq<char>,
) -> Result<(Seq<u8>, Seq<ProgressEvent>), Error> {
    match decoded_image_of(orig) {
        Option::None => Result::Err(Error::ImageDecode),
        Option::Some(d0) => match decoded_image_of(color) {
            Option::None => Result::Err(Error::ImageDecode),
            Option::Some(d1) => if !has_usable_sample(d1.2, quality) {
                Result::Err(Error::EmptyPalette)
            } else {
                match mode_of(mode_s) {
                    Option::None => Result::Err(Error::UnsupportedDitherMode),
                    Option::Some(m) => {
                        let pal = extracted_palette_of(d1.2, colors, quality);
                        let out = dither_spec(m, d0.2, pal, d0.0 as int);
                        Result::Ok(
                            (
                                png_of(d0.0, d0.1, out),
                                prelude_events() + dither_events_spec(m, d0.2.len() as int),
                            ),
                        )
                    },
                }
            },
        },
    }
}

/// One whole transform: decode the image to recolor and the color-source
/// image, extract a palette from the latter, parse the dithering mode,
/// dither, and encode the result as PNG. Returns exactly the encoded bytes
/// and the full progress-event trace that `process_spec` names, or the
/// error it names: a bad mode string fails with `UnsupportedDitherMode`
/// and an undecodable input with `ImageDecode`, in each case before any
/// pixel is processed.
pub fn process(
    original_image: Vec<u8>,
    color_image: Vec<u8>,
    colors_to_extract: u8,
    extract_quality: u8,
    dither_mode: &str,
) -> (r: Result<(Vec<u8>, Vec<ProgressEvent>), Error>)
    requires
        colors_to_extract >= 2,
        extract_quality >= 1,
    ensures
        r matches Ok(out) ==> {
            &&& process_spec(
                original_image@,
                color_image@,
                colors_to_extract,
                extract_quality,
                dither_mode@,
            ) matches Ok(s)
            &&& out.0@ == s.0
            &&& out.1@ == s.1
        },
        r matches Err(e) ==> process_spec(
            original_image@,
            color_image@,
            colors_to_extract,
            extract_quality,
            dither_mode@,
        ) == Result::<(Seq<u8>, Seq<ProgressEvent>), Error>::Err(e),
{
    let mut events: Vec<ProgressEvent> = Vec::new();
    events.push(
        ProgressEvent { stage: Stage::ImageLoad, message: ProgressMessage::LoadingOriginal },
    );
    let mut to_transform = match decode_rgb(original_image.as_slice()) {
        Ok(b) => b,
        Err(e) => {
            return Err(e);
        },
    };
    events.push(
        ProgressEvent { stage: Stage::ImageLoad, message: ProgressMessage::LoadingColorSource },
    );
    let color_source = match decode_rgb(color_image.as_slice()) {
        Ok(b) => b,
        Err(e) => {
            return Err(e);
        },
    };
    events.push(ProgressEvent { stage: Stage::ImageLoad, message: ProgressMessage::Loaded });
    events.push(
        ProgressEvent { stage: Stage::ExtractColor, message: ProgressMessage::ExtractingPalette },
    );
    let mut mapper = match ColorMapper::build_from_image(
        &color_source,
        colors_to_extract,
        extract_quality,
    ) {
        Ok(m) => m,
        Err(e) => {
            return Err(e);
        },
    };
    events.push(
        ProgressEvent { stage: Stage::ExtractColor, message: ProgressMessage::PaletteExtracted },
    );
    let mode = match DitherMethod::from_str(dither_mode) {
        Ok(m) => m,
        Err(e) => {
            return Err(e);
        },
    };
    events.push(
        ProgressEvent { stage: Stage::ExtractColor, message: ProgressMessage::MethodParsed },
    );
    let ghost prelude = events@;
    let mut dither_events = color_pick(&mut to_transform, &mut mapper, mode);
    events.append(&mut dither_events);
    let encoded = encode_png(&to_transform);
    proof {
        assert(prelude =~= prelude_events());
    }
    Ok((encoded, events))
}

} // verus!
