//! A verified separable image resampling engine.
//!
//! The library resizes raster images by nearest-neighbor sampling, by
//! separable convolution with one of six reconstruction filters, or by
//! supersampling (nearest-neighbor reduction followed by convolution).
//! All arithmetic is exact integer or fixed-point arithmetic; filter taps
//! are quantized to signed 16-bit integers whose sum per destination
//! sample is exactly a power of two, and every weighted sum is proved to
//! stay inside its 32-bit accumulator before it is rounded and saturated
//! back into the pixel-component range.

pub mod coefficients;
pub mod convolution;
pub mod errors;
pub mod filters;
pub mod fixed;
pub mod image;
pub mod laws;
pub mod nearest;
pub mod pixels;
pub mod resizer;

pub use errors::{CropBoxError, DifferentTypesOfPixelsError, ImageBufferError, ImageRowsError};
pub use filters::FilterType;
pub use image::Image;
pub use pixels::PixelType;
pub use resizer::{CpuExtensions, ResizeAlg, Resizer};
