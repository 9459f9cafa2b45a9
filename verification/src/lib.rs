//! A color-quantization engine: it recolors an image so that every pixel uses
//! only colors drawn from a fixed palette, optionally applying a dithering
//! strategy (none, Floyd-Steinberg error diffusion, or ordered Bayer-matrix
//! dithering) so the reduced palette still approximates the original tones.
//!
//! Nearest-color decisions are made in the CAM02-UCS perceptual color space
//! (through the `kasi-kule` crate) rather than by raw RGB distance.
use vstd::prelude::*;

pub mod buffer;
pub mod color;
pub mod dither;
pub mod engine;
pub mod mapper;
pub mod pattern;
pub mod progress;

verus! {

/// The terminal failures one transform invocation can surface.
#[derive(Clone, Copy, PartialEq, Eq, Structural, Debug)]
pub enum Error {
    /// The input bytes are not a valid image; reported by the codec before
    /// any processing starts.
    ImageDecode,
    /// The dithering mode string is not one of the recognized values;
    /// reported before any pixel is touched.
    UnsupportedDitherMode,
    /// The color-source image has no usable pixel to extract a palette
    /// from (every sampled pixel is filtered out as near-white), so no
    /// non-empty palette exists; reported before any pixel is touched.
    EmptyPalette,
}

} // verus!
