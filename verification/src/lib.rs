//! Verified image dithering and color-quantization algorithms.
//!
//! The library converts a full-color raster image into a reduced-color or
//! monochrome representation: fixed two-color luminosity thresholding, random
//! dithering, ordered (Bayer matrix) dithering, error-diffusion dithering
//! (naive two-neighbor, palette-based, and Floyd–Steinberg), and
//! nearest-color palette mapping.
//!
//! All channel arithmetic is exact fixed-point integer arithmetic: perceptual
//! luminosity is kept scaled by 10000 (so a luminosity of 255 is 2550000) and
//! color distances are compared as squared Euclidean distances, which orders
//! colors exactly as the real-valued distance does.

pub mod bayer;
pub mod color;
pub mod diffusion;
pub mod palette;
pub mod raster;
mod rng;
pub mod threshold;
