//! The error type shared by every fallible operation of the encoder.

use vstd::prelude::*;

use crate::color::ColorType;

verus! {

/// Everything that can go wrong while building or encoding an image.
/// Each operation's contract states exactly which variant it returns and when.
#[derive(Debug)]
pub enum PngError {
    /// A dimension was 0 or exceeded the PNG limit of 32767.
    InvalidDimensions(u32, u32),
    /// The output sink failed; carries the sink's own message.
    Io(String),
    /// The compression service failed; carries its message.
    Compression(String),
    /// An operation that needs a specific color mode was called on another.
    ColorTypeError,
    /// An appended pixel's component count differs from the mode's
    /// bytes-per-pixel.
    ComponentCountMismatch { expected: usize, actual: usize, color_type: ColorType },
    /// A pixel was appended to an already full image.
    PixelCountMismatch { expected: usize, actual: usize, dimensions: (u32, u32) },
    /// The palette is malformed, too long, or missing at encode time.
    InvalidPalette(String),
    /// A stored pixel indexes past the end of the palette.
    InvalidPaletteEntry(u8),
}

} // verus!
