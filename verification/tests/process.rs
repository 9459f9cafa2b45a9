use std::io::Cursor;

use weird_flags::engine::process;
use weird_flags::progress::{ProgressMessage, Stage};
use weird_flags::Error;

fn png_bytes(width: u32, height: u32, f: impl Fn(u32, u32) -> [u8; 3]) -> Vec<u8> {
    let img = image::RgbImage::from_fn(width, height, |x, y| image::Rgb(f(x, y)));
    let mut out = Cursor::new(Vec::new());
    img.write_to(&mut out, image::ImageFormat::Png).unwrap();
    out.into_inner()
}

fn gradient_png() -> Vec<u8> {
    png_bytes(16, 12, |x, y| {
        let v = ((x + y * 16) * 255 / 191) as u8;
        [v, v / 2, 255 - v]
    })
}

fn two_color_png() -> Vec<u8> {
    png_bytes(8, 8, |x, _| if x < 4 { [10, 10, 10] } else { [200, 40, 40] })
}

#[test]
fn process_produces_a_png_with_the_same_dimensions() {
    for mode in ["none", "floyd-steinberg", "pattern-2x2", "pattern-4x4", "pattern-8x8"] {
        let out = process(gradient_png(), two_color_png(), 8, 5, mode)
            .expect("transform should succeed");
        let decoded = image::load_from_memory(&out.0).expect("output is a valid PNG").to_rgb8();
        assert_eq!(decoded.width(), 16);
        assert_eq!(decoded.height(), 12);
    }
}

#[test]
fn process_reports_the_prelude_then_dither_events() {
    let (_, events) = process(gradient_png(), two_color_png(), 4, 5, "floyd-steinberg").unwrap();
    let stages: Vec<Stage> = events.iter().map(|e| e.stage).collect();
    assert_eq!(
        &stages[..6],
        &[
            Stage::ImageLoad,
            Stage::ImageLoad,
            Stage::ImageLoad,
            Stage::ExtractColor,
            Stage::ExtractColor,
            Stage::ExtractColor,
        ]
    );
    assert_eq!(events[6].stage, Stage::Dither);
    assert_eq!(events[6].message, ProgressMessage::Processing);
    assert_eq!(events[7].message, ProgressMessage::Processed);
    assert_eq!(events.len(), 8);
}

#[test]
fn process_rejects_all_white_color_source() {
    let white = png_bytes(8, 8, |_, _| [255, 255, 255]);
    let r = process(gradient_png(), white, 8, 5, "none");
    assert_eq!(r.map(|_| ()), Err(Error::EmptyPalette));
}

#[test]
fn process_rejects_unknown_mode() {
    let r = process(gradient_png(), two_color_png(), 8, 5, "checkerboard");
    assert_eq!(r.map(|_| ()), Err(Error::UnsupportedDitherMode));
}

#[test]
fn process_rejects_invalid_image_bytes() {
    let r = process(vec![1, 2, 3, 4], two_color_png(), 8, 5, "none");
    assert_eq!(r.map(|_| ()), Err(Error::ImageDecode));
    let r2 = process(gradient_png(), Vec::new(), 8, 5, "none");
    assert_eq!(r2.map(|_| ()), Err(Error::ImageDecode));
}

#[test]
fn process_output_uses_only_extracted_colors() {
    // The color source has two dominant colors; the extractor may return a
    // handful, but every output pixel must come out of one transform's
    // palette: running the same transform twice must agree exactly.
    let a = process(gradient_png(), two_color_png(), 6, 3, "pattern-4x4").unwrap();
    let b = process(gradient_png(), two_color_png(), 6, 3, "pattern-4x4").unwrap();
    assert_eq!(a.0, b.0);
    assert_eq!(a.1, b.1);
}
