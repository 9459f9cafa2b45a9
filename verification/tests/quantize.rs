use weird_flags::buffer::PixelBuffer;
use weird_flags::color::Rgb;
use weird_flags::dither::{color_pick, floyd_steinberg_pick, simple_color_pick, DitherMethod};
use weird_flags::mapper::ColorMapper;
use weird_flags::pattern::MatrixSize;
use weird_flags::progress::{ProgressMessage, Stage};
use weird_flags::Error;

fn rgb(r: u8, g: u8, b: u8) -> Rgb {
    Rgb { r, g, b }
}

fn black_white() -> Vec<Rgb> {
    vec![rgb(0, 0, 0), rgb(255, 255, 255)]
}

fn uniform(width: u32, height: u32, c: Rgb) -> PixelBuffer {
    let n = (width * height) as usize;
    PixelBuffer::new(width, height, vec![c; n])
}

fn in_palette(c: Rgb, palette: &[Rgb]) -> bool {
    palette.iter().any(|p| *p == c)
}

#[test]
fn parse_recognizes_all_modes() {
    assert_eq!(DitherMethod::from_str("none"), Ok(DitherMethod::NoDither));
    assert_eq!(
        DitherMethod::from_str("floyd-steinberg"),
        Ok(DitherMethod::FloydSteinberg)
    );
    assert_eq!(
        DitherMethod::from_str("pattern-2x2"),
        Ok(DitherMethod::Pattern2x2)
    );
    assert_eq!(
        DitherMethod::from_str("pattern-4x4"),
        Ok(DitherMethod::Pattern4x4)
    );
    assert_eq!(
        DitherMethod::from_str("pattern-8x8"),
        Ok(DitherMethod::Pattern8x8)
    );
}

#[test]
fn parse_rejects_unknown_modes() {
    for s in ["", "bogus", "NONE", "floyd", "pattern-3x3", "none "] {
        assert_eq!(
            DitherMethod::from_str(s),
            Err(Error::UnsupportedDitherMode)
        );
    }
}

#[test]
fn exact_match_no_dither() {
    let mut mapper = ColorMapper::build(black_white());
    let mut c = rgb(10, 10, 10);
    mapper.map_color(&mut c);
    assert_eq!(c, rgb(0, 0, 0));
}

#[test]
fn palette_color_maps_to_itself() {
    let palette = vec![
        rgb(200, 30, 30),
        rgb(20, 180, 60),
        rgb(40, 40, 220),
        rgb(250, 250, 250),
        rgb(0, 0, 0),
    ];
    let mut mapper = ColorMapper::build(palette.clone());
    for p in &palette {
        let mut c = *p;
        mapper.map_color(&mut c);
        assert_eq!(c, *p);
    }
}

#[test]
fn cache_state_never_changes_the_result() {
    let palette = vec![rgb(10, 0, 0), rgb(0, 120, 7), rgb(99, 99, 99), rgb(255, 255, 0)];
    let mut fresh = ColorMapper::build(palette.clone());
    let mut warmed = ColorMapper::build(palette);
    // Pre-populate one mapper's cache with unrelated colors.
    for v in 0u8..=255 {
        warmed.index_of(&rgb(v, v / 2, 255 - v));
    }
    for v in 0u8..=255 {
        let c = rgb(255 - v, v, v / 3);
        assert_eq!(fresh.index_of(&c), warmed.index_of(&c));
    }
}

#[test]
fn index_of_is_cached_but_stable() {
    let mut mapper = ColorMapper::build(black_white());
    let c = rgb(77, 88, 99);
    let first = mapper.index_of(&c);
    let second = mapper.index_of(&c);
    assert_eq!(first, second);
}

#[test]
fn lookup_in_and_out_of_range() {
    let mapper = ColorMapper::build(black_white());
    assert_eq!(mapper.lookup(0), Some(rgb(0, 0, 0)));
    assert_eq!(mapper.lookup(1), Some(rgb(255, 255, 255)));
    assert_eq!(mapper.lookup(2), None);
    assert!(mapper.has_lookup());
}

#[test]
fn already_quantized_image_unchanged() {
    let palette = vec![rgb(0, 0, 0), rgb(255, 0, 0), rgb(255, 255, 255)];
    let pixels: Vec<Rgb> = (0..24).map(|i| palette[i % 3]).collect();
    let mut image = PixelBuffer::new(6, 4, pixels.clone());
    let mut mapper = ColorMapper::build(palette);
    simple_color_pick(&mut image, &mut mapper);
    assert_eq!(image.pixels, pixels);
    assert_eq!(image.width, 6);
    assert_eq!(image.height, 4);
}

fn gradient(width: u32, height: u32) -> PixelBuffer {
    let mut pixels = Vec::new();
    for y in 0..height {
        for x in 0..width {
            let v = ((x + y * width) * 255 / (width * height - 1)) as u8;
            pixels.push(rgb(v, v, v.wrapping_mul(2)));
        }
    }
    PixelBuffer::new(width, height, pixels)
}

#[test]
fn palette_closure_and_dimensions_for_every_mode() {
    let modes = [
        DitherMethod::NoDither,
        DitherMethod::FloydSteinberg,
        DitherMethod::Pattern2x2,
        DitherMethod::Pattern4x4,
        DitherMethod::Pattern8x8,
    ];
    let palette = vec![rgb(0, 0, 0), rgb(255, 255, 255), rgb(200, 40, 40), rgb(30, 60, 200)];
    for mode in modes {
        let mut image = gradient(9, 7);
        let mut mapper = ColorMapper::build(palette.clone());
        color_pick(&mut image, &mut mapper, mode);
        assert_eq!(image.width, 9);
        assert_eq!(image.height, 7);
        assert_eq!(image.pixels.len(), 63);
        for p in &image.pixels {
            assert!(in_palette(*p, &palette));
        }
    }
}

#[test]
fn transform_is_deterministic() {
    for mode in [
        DitherMethod::NoDither,
        DitherMethod::FloydSteinberg,
        DitherMethod::Pattern8x8,
    ] {
        let mut image1 = gradient(13, 5);
        let mut image2 = gradient(13, 5);
        let mut mapper1 = ColorMapper::build(black_white());
        let mut mapper2 = ColorMapper::build(black_white());
        let ev1 = color_pick(&mut image1, &mut mapper1, mode);
        let ev2 = color_pick(&mut image2, &mut mapper2, mode);
        assert_eq!(image1.pixels, image2.pixels);
        assert_eq!(ev1, ev2);
    }
}

#[test]
fn ordered_matrix_closure_and_brightness_monotone() {
    let mut white_counts = Vec::new();
    for level in [0u8, 64, 128, 192, 255] {
        let mut image = uniform(8, 8, rgb(level, level, level));
        let mut mapper = ColorMapper::build(black_white());
        weird_flags::pattern::dither(&mut image, MatrixSize::Four, &mut mapper);
        let mut whites = 0usize;
        for p in &image.pixels {
            assert!(*p == rgb(0, 0, 0) || *p == rgb(255, 255, 255));
            if *p == rgb(255, 255, 255) {
                whites += 1;
            }
        }
        white_counts.push(whites);
    }
    for pair in white_counts.windows(2) {
        assert!(pair[0] <= pair[1]);
    }
    assert_eq!(white_counts[0], 0);
    assert_eq!(white_counts[4], 64);
}

#[test]
fn error_diffusion_mid_gray_gives_a_mix() {
    let mut image = uniform(16, 16, rgb(128, 128, 128));
    let mut mapper = ColorMapper::build(black_white());
    floyd_steinberg_pick(&mut image, &mut mapper);
    let whites = image.pixels.iter().filter(|p| **p == rgb(255, 255, 255)).count();
    let blacks = image.pixels.iter().filter(|p| **p == rgb(0, 0, 0)).count();
    assert_eq!(whites + blacks, 256);
    assert!(whites > 0, "mid-gray dithered to solid black");
    assert!(blacks > 0, "mid-gray dithered to solid white");
}

#[test]
fn no_dither_progress_events() {
    let mut image = uniform(50, 50, rgb(1, 2, 3));
    let mut mapper = ColorMapper::build(black_white());
    let events = simple_color_pick(&mut image, &mut mapper);
    assert_eq!(events.len(), 3);
    // Indices 0, 1000, 2000 of 2500 pixels are exactly 0%, 40.00% and
    // 80.00%.
    let expected = [0u32, 4000, 8000];
    for (e, want) in events.iter().zip(expected) {
        assert_eq!(e.stage, Stage::Dither);
        assert_eq!(e.message, ProgressMessage::Percent(want));
    }
}

#[test]
fn progress_percentages_round_to_nearest_hundredth() {
    // 3000 pixels: indices 0, 1000, 2000 are 0%, 33.333..% and 66.666..%,
    // reported as 0, 33.33% and 66.67%.
    let mut image = uniform(60, 50, rgb(200, 200, 200));
    let mut mapper = ColorMapper::build(black_white());
    let events = simple_color_pick(&mut image, &mut mapper);
    let percents: Vec<ProgressMessage> = events.iter().map(|e| e.message).collect();
    assert_eq!(
        percents,
        vec![
            ProgressMessage::Percent(0),
            ProgressMessage::Percent(3333),
            ProgressMessage::Percent(6667),
        ]
    );
}

#[test]
fn build_from_image_extracts_or_reports_empty() {
    let colorful = uniform(4, 4, rgb(120, 10, 10));
    let m = ColorMapper::build_from_image(&colorful, 4, 1).expect("usable pixels exist");
    assert!(!m.palette_rgb.is_empty());

    let white = uniform(4, 4, rgb(255, 255, 255));
    assert!(ColorMapper::build_from_image(&white, 4, 1).is_err());

    // With quality 2 only even indices are sampled: a lone usable pixel at
    // an odd index is invisible to the extractor.
    let mut pixels = vec![rgb(252, 252, 252); 4];
    pixels[1] = rgb(0, 0, 0);
    let sparse = weird_flags::buffer::PixelBuffer::new(4, 1, pixels);
    assert!(ColorMapper::build_from_image(&sparse, 4, 2).is_err());
    let m2 = ColorMapper::build_from_image(&sparse, 4, 1).expect("index 1 is sampled");
    assert!(!m2.palette_rgb.is_empty());
}

#[test]
fn error_diffusion_progress_events() {
    let mut image = uniform(4, 4, rgb(9, 9, 9));
    let mut mapper = ColorMapper::build(black_white());
    let events = floyd_steinberg_pick(&mut image, &mut mapper);
    assert_eq!(events.len(), 2);
    assert_eq!(events[0].stage, Stage::Dither);
    assert_eq!(events[0].message, ProgressMessage::Processing);
    assert_eq!(events[1].stage, Stage::Dither);
    assert_eq!(events[1].message, ProgressMessage::Processed);
}

#[test]
fn single_column_image_diffuses_downward_only() {
    // width 1: no right, below-left or below-right neighbor ever exists.
    let mut image = uniform(1, 5, rgb(128, 128, 128));
    let mut mapper = ColorMapper::build(black_white());
    floyd_steinberg_pick(&mut image, &mut mapper);
    for p in &image.pixels {
        assert!(*p == rgb(0, 0, 0) || *p == rgb(255, 255, 255));
    }
}

#[test]
fn empty_buffer_is_a_no_op() {
    let mut image = PixelBuffer::new(0, 0, Vec::new());
    let mut mapper = ColorMapper::build(black_white());
    let events = color_pick(&mut image, &mut mapper, DitherMethod::NoDither);
    assert!(events.is_empty());
    assert!(image.pixels.is_empty());
}
