//! Error values returned by image construction, view cropping and resizing.

use vstd::prelude::*;

verus! {

/// Returned when an image is built from externally supplied rows.
#[derive(Clone, Copy, Debug, PartialEq, Eq, Structural)]
pub enum ImageRowsError {
    /// The number of rows does not match the image height.
    InvalidRowsCount,
    /// The byte size of a row does not match the image width.
    InvalidRowSize,
}

/// Returned when an image adopts an externally supplied buffer.
#[derive(Clone, Copy, Debug, PartialEq, Eq, Structural)]
pub enum ImageBufferError {
    /// The buffer is smaller than `width * height * bytes_per_pixel`.
    InvalidBufferSize,
    /// The buffer is not aligned as the pixel kind prefers.
    ///
    /// The engine reads and writes components bytewise, so every buffer
    /// is sufficiently aligned and this variant is never produced; it is
    /// part of the public error surface for callers that match on it.
    InvalidBufferAlignment,
}

/// Returned when a crop box does not lie inside its image.
#[derive(Clone, Copy, Debug, PartialEq, Eq, Structural)]
pub enum CropBoxError {
    /// The position of the crop box is outside the image boundaries.
    PositionIsOutOfImageBoundaries,
    /// The size of the crop box is outside the image boundaries.
    SizeIsOutOfImageBoundaries,
}

/// Returned by a resize whose source and destination pixel kinds differ.
#[derive(Clone, Copy, Debug, PartialEq, Eq, Structural)]
pub struct DifferentTypesOfPixelsError;

} // verus!
