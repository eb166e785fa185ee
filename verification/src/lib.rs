//! Verified image-processing routines: a Canny-style edge detector
//! (gradient sampling, non-maximum suppression, hysteresis thresholding),
//! intensity histograms, and per-pixel threshold and averaging passes.
//!
//! Decoding, encoding and filtering of image files stay outside this
//! library; it works on plain grids of byte samples.

pub mod grid;
pub mod gradient;
pub mod suppress;
pub mod hysteresis;
pub mod detect;
pub mod histogram;
pub mod pixel_ops;
