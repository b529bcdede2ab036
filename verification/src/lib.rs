//! Escape-time fractal renderer over exact fixed-point arithmetic.
//!
//! Every pixel of the output raster is pinned down by the contracts in this
//! crate: a pixel coordinate is mapped into the complex plane, the quadratic
//! recurrence `z -> z^2 + c` is iterated until escape or an iteration cap,
//! the raw count is renormalized into a smooth value by a binary-logarithm
//! approximation, and the smooth value is mapped to an 8-bit RGB color under
//! a grayscale or hue-based scheme. Real quantities are represented as
//! fixed-point integers (scale 2^20), so all of the arithmetic is exact and
//! verified; encoding the raster to an image file is left to callers.

pub mod color;
pub mod escape;
pub mod fixed;
pub mod render;
pub mod smooth;

pub use color::{ColorOption, Rgb};
pub use escape::PixelResult;
pub use render::Julia;
