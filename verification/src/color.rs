//! The color model: supported pixel layouts, their IHDR format codes and
//! bytes-per-pixel, and component-count validation.

use vstd::prelude::*;

use crate::error::PngError;

verus! {

/// The pixel layouts the encoder supports. The variant fixes how many
/// component bytes one pixel holds and which format code goes into IHDR.
#[derive(Debug, Clone, Copy, PartialEq, Eq, Structural)]
pub enum ColorType {
    Grayscale,
    Rgb,
    GrayscaleAlpha,
    Rgba,
    Indexed,
}

impl ColorType {
    /// The format code stored in the IHDR chunk.
    pub open spec fn spec_png_header_code(self) -> u8 {
        match self {
            ColorType::Grayscale => 0,
            ColorType::Rgb => 2,
            ColorType::GrayscaleAlpha => 4,
            ColorType::Rgba => 6,
            ColorType::Indexed => 3,
        }
    }

    /// How many component bytes one pixel of this mode holds.
    pub open spec fn spec_bytes_per_pixel(self) -> usize {
        match self {
            ColorType::Grayscale => 1,
            ColorType::Rgb => 3,
            ColorType::GrayscaleAlpha => 2,
            ColorType::Rgba => 4,
            ColorType::Indexed => 1,
        }
    }

    pub fn png_header_code(&self) -> (code: u8)
        ensures
            code == self.spec_png_header_code(),
    {
        match self {
            ColorType::Grayscale => 0,
            ColorType::Rgb => 2,
            ColorType::GrayscaleAlpha => 4,
            ColorType::Rgba => 6,
            ColorType::Indexed => 3,
        }
    }

    pub fn bytes_per_pixel(&self) -> (bpp: usize)
        ensures
            bpp == self.spec_bytes_per_pixel(),
    {
        match self {
            ColorType::Grayscale => 1,
            ColorType::Rgb => 3,
            ColorType::GrayscaleAlpha => 2,
            ColorType::Rgba => 4,
            ColorType::Indexed => 1,
        }
    }

    /// A candidate pixel is accepted exactly when its component count equals
    /// this mode's bytes-per-pixel; the count is the only thing checked, the
    /// component order is the caller's contract.
    pub fn validate_components(&self, components: &[u8]) -> (r: Result<(), PngError>)
        ensures
            r is Ok <==> components@.len() == self.spec_bytes_per_pixel(),
            r matches Err(e) ==> e == (PngError::ComponentCountMismatch {
                expected: self.spec_bytes_per_pixel(),
                actual: components@.len() as usize,
                color_type: *self,
            }),
    {
        let expected = self.bytes_per_pixel();
        if components.len() != expected {
            Err(PngError::ComponentCountMismatch {
                expected,
                actual: components.len(),
                color_type: *self,
            })
        } else {
            Ok(())
        }
    }
}

} // verus!
