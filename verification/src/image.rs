//! The image buffer and the file assembler: an append-only pixel store with
//! validated dimensions, palette handling for indexed mode, and the encode
//! operation that emits signature, IHDR, optional PLTE, compressed IDAT and
//! IEND.

use vstd::prelude::*;

use vstd::arithmetic::div_mod::lemma_fundamental_div_mod;
use vstd::arithmetic::div_mod::lemma_fundamental_div_mod_converse;

use crate::chunks::chunk_bytes;
use crate::chunks::be32;
use crate::chunks::push_be32;
use crate::chunks::ChunkWriter;
use crate::color::ColorType;
use crate::deflate::compress_zlib;
use crate::deflate::zlib_of;
use crate::error::PngError;
use crate::filter::filtered_scanlines;
use crate::filter::sub_filter_scanlines;
use vstd::string::StringExecFns;

verus! {

/// The mathematical content of a `PngImage`: its dimensions, mode, the raw
/// pixel bytes in append order, and the palette if one was set.
#[verifier::ext_equal]
pub struct ImageView {
    pub width: u32,
    pub height: u32,
    pub data: Seq<u8>,
    pub color_type: ColorType,
    pub palette: Option<Seq<u8>>,
}

impl ImageView {
    /// Component bytes per pixel of this image's mode.
    pub open spec fn bpp(self) -> int {
        self.color_type.spec_bytes_per_pixel() as int
    }

    /// Bytes per pixel row.
    pub open spec fn row_len(self) -> int {
        self.width * self.bpp()
    }

    /// Pixel capacity fixed at creation.
    pub open spec fn max_pixels(self) -> int {
        self.width * self.height
    }

    /// Pixels stored so far.
    pub open spec fn pixel_count(self) -> int {
        self.data.len() as int / self.bpp()
    }

    /// The invariant every constructed image maintains: dimensions within
    /// the PNG limit, the byte store a whole number of pixels and never
    /// beyond capacity, and the palette (only in indexed mode) whole RGB
    /// triplets of at most 256 entries.
    pub open spec fn wf(self) -> bool {
        &&& 1 <= self.width <= 0x7FFF
        &&& 1 <= self.height <= 0x7FFF
        &&& self.data.len() as int % self.bpp() == 0
        &&& self.pixel_count() <= self.max_pixels()
        &&& (self.palette matches Some(p) ==> self.color_type == ColorType::Indexed
            && p.len() as int % 3 == 0 && p.len() <= 768)
    }

    /// Every stored pixel byte indexes an existing palette entry; trivially
    /// true when no palette is set.
    pub open spec fn palette_indices_ok(self) -> bool {
        match self.palette {
            Some(p) => forall|i: int|
                0 <= i < self.data.len() ==> (self.data[i] as int) < p.len() as int / 3,
            None => true,
        }
    }
}

/// The 13-byte IHDR payload: width and height big-endian, bit depth fixed
/// to 8, the mode's format code, then compression, filter and interlace
/// methods all fixed to 0.
pub open spec fn ihdr_payload(img: ImageView) -> Seq<u8> {
    be32(img.width) + be32(img.height) + seq![
        8u8,
        img.color_type.spec_png_header_code(),
        0u8,
        0u8,
        0u8,
    ]
}

/// The fixed 8-byte PNG signature.
pub open spec fn png_signature() -> Seq<u8> {
    seq![137u8, 80u8, 78u8, 71u8, 13u8, 10u8, 26u8, 10u8]
}

/// The complete file: signature, IHDR, PLTE exactly when a palette is set,
/// the given IDAT payload, and an empty IEND.
pub open spec fn png_file_bytes(img: ImageView, idat: Seq<u8>) -> Seq<u8> {
    png_signature() + chunk_bytes(seq![73u8, 72u8, 68u8, 82u8], ihdr_payload(img)) + (
    match img.palette {
        Some(p) => chunk_bytes(seq![80u8, 76u8, 84u8, 69u8], p),
        None => Seq::<u8>::empty(),
    }) + chunk_bytes(seq![73u8, 68u8, 65u8, 84u8], idat) + chunk_bytes(
        seq![73u8, 69u8, 78u8, 68u8],
        Seq::<u8>::empty(),
    )
}

/// An in-memory raster image, built pixel by pixel and encoded as one PNG
/// byte stream.
pub struct PngImage {
    width: u32,
    height: u32,
    data: Vec<u8>,
    color_type: ColorType,
    palette: Option<Vec<u8>>,
}

impl View for PngImage {
    type V = ImageView;

    closed spec fn view(&self) -> ImageView {
        ImageView {
            width: self.width,
            height: self.height,
            data: self.data@,
            color_type: self.color_type,
            palette: match self.palette {
                Some(p) => Some(p@),
                None => None,
            },
        }
    }
}

impl PngImage {
    /// Creates an empty image. Succeeds exactly when both dimensions lie in
    /// 1..=32767, PNG's signed 16-bit limit; storage is pre-sized to the
    /// full pixel capacity as a hint only.
    pub fn new(width: u32, height: u32, color_type: ColorType) -> (r: Result<PngImage, PngError>)
        ensures
            r is Ok <==> (1 <= width <= 0x7FFF && 1 <= height <= 0x7FFF),
            r matches Ok(img) ==> img@ == (ImageView {
                width,
                height,
                data: Seq::<u8>::empty(),
                color_type,
                palette: None,
            }) && img@.wf(),
            r matches Err(e) ==> e == PngError::InvalidDimensions(width, height),
    {
        if width == 0 || height == 0 || width > 0x7FFF || height > 0x7FFF {
            return Err(PngError::InvalidDimensions(width, height));
        }
        let bpp = color_type.bytes_per_pixel();
        proof {
            assert(width as int * height as int <= 0x7FFF * 0x7FFF) by (nonlinear_arith)
                requires
                    1 <= width <= 0x7FFF,
                    1 <= height <= 0x7FFF,
            ;
            assert(width as int * height as int * bpp as int <= 0x7FFF * 0x7FFF * 4)
                by (nonlinear_arith)
                requires
                    1 <= width <= 0x7FFF,
                    1 <= height <= 0x7FFF,
                    1 <= bpp <= 4,
            ;
        }
        let img = PngImage {
            width,
            height,
            data: Vec::with_capacity((width as usize) * (height as usize) * bpp),
            color_type,
            palette: None,
        };
        proof {
            assert(img@ =~= (ImageView {
                width,
                height,
                data: Seq::<u8>::empty(),
                color_type,
                palette: None,
            }));
        }
        Ok(img)
    }

    /// Appends one pixel's component bytes verbatim. Fails with the
    /// component-count error when the slice length is not the mode's
    /// bytes-per-pixel, whatever the buffer holds; fails with the
    /// pixel-count error when the image is already full; otherwise the
    /// bytes are appended in the caller's order, unexamined.
    pub fn add_pixel(&mut self, components: &[u8]) -> (r: Result<(), PngError>)
        requires
            old(self)@.wf(),
        ensures
            final(self)@.wf(),
            components@.len() != old(self)@.bpp() ==> final(self)@ == old(self)@ && r == Err::<(), PngError>(
                PngError::ComponentCountMismatch {
                    expected: old(self)@.color_type.spec_bytes_per_pixel(),
                    actual: components@.len() as usize,
                    color_type: old(self)@.color_type,
                },
            ),
            components@.len() == old(self)@.bpp() && old(self)@.pixel_count() == old(
                self,
            )@.max_pixels() ==> final(self)@ == old(self)@ && r == Err::<(), PngError>(
                PngError::PixelCountMismatch {
                    expected: old(self)@.max_pixels() as usize,
                    actual: (old(self)@.pixel_count() + 1) as usize,
                    dimensions: (old(self)@.width, old(self)@.height),
                },
            ),
            components@.len() == old(self)@.bpp() && old(self)@.pixel_count() < old(
                self,
            )@.max_pixels() ==> r is Ok && final(self)@ == (ImageView {
                data: old(self)@.data + components@,
                ..old(self)@
            }),
    {
        let ghost pre = self@;
        match self.color_type.validate_components(components) {
            Err(e) => {
                return Err(e);
            },
            Ok(()) => {},
        }
        let bpp = self.color_type.bytes_per_pixel();
        proof {
            assert(self.width as int * self.height as int <= 0x7FFF * 0x7FFF) by (nonlinear_arith)
                requires
                    1 <= self.width <= 0x7FFF,
                    1 <= self.height <= 0x7FFF,
            ;
        }
        let max_pixels = (self.width * self.height) as usize;
        let current_pixels = self.data.len() / bpp;
        if current_pixels >= max_pixels {
            return Err(PngError::PixelCountMismatch {
                expected: max_pixels,
                actual: current_pixels + 1,
                dimensions: (self.width, self.height),
            });
        }
        self.data.extend_from_slice(components);
        proof {
            let cnt = pre.data.len() as int / pre.bpp();
            lemma_fundamental_div_mod(pre.data.len() as int, pre.bpp());
            assert(cnt * pre.bpp() == pre.bpp() * cnt) by (nonlinear_arith);
            assert((cnt + 1) * pre.bpp() == cnt * pre.bpp() + pre.bpp()) by (nonlinear_arith);
            lemma_fundamental_div_mod_converse(
                self@.data.len() as int,
                pre.bpp(),
                cnt + 1,
                0,
            );
            assert(self@.data =~= pre.data + components@);
            assert(self@ =~= (ImageView { data: pre.data + components@, ..pre }));
        }
        Ok(())
    }

    /// Replaces the palette. Only an indexed-mode image takes one, and only
    /// as whole RGB triplets, at most 256 of them; the stored pixel bytes
    /// are not checked here but at encode time, since the palette may be
    /// set before or after the pixels.
    pub fn set_palette(&mut self, palette: &[u8]) -> (r: Result<(), PngError>)
        requires
            old(self)@.wf(),
        ensures
            final(self)@.wf(),
            old(self)@.color_type != ColorType::Indexed ==> final(self)@ == old(self)@ && r == Err::<(), PngError>(
                PngError::ColorTypeError,
            ),
            old(self)@.color_type == ColorType::Indexed && palette@.len() as int % 3 != 0
                ==> final(self)@ == old(self)@ && (r matches Err(e) && e is InvalidPalette),
            old(self)@.color_type == ColorType::Indexed && palette@.len() as int % 3 == 0
                && palette@.len() > 768 ==> final(self)@ == old(self)@ && (r matches Err(e)
                && e is InvalidPalette),
            old(self)@.color_type == ColorType::Indexed && palette@.len() as int % 3 == 0
                && palette@.len() <= 768 ==> r is Ok && final(self)@ == (ImageView {
                palette: Some(palette@),
                ..old(self)@
            }),
    {
        let ghost pre = self@;
        if !matches!(self.color_type, ColorType::Indexed) {
            return Err(PngError::ColorTypeError);
        }
        if palette.len() % 3 != 0 {
            return Err(PngError::InvalidPalette(String::from_str(
                "Palette must contain RGB triplets",
            )));
        }
        if palette.len() > 256 * 3 {
            return Err(PngError::InvalidPalette(String::from_str(
                "Palette cannot exceed 256 entries",
            )));
        }
        self.palette = Some(vstd::slice::slice_to_vec(palette));
        proof {
            assert(self@ =~= (ImageView { palette: Some(palette@), ..pre }));
        }
        Ok(())
    }

    /// Scans every stored pixel byte against the palette that is set, and
    /// reports the first byte that indexes past the last entry. Runs once,
    /// immediately before encoding; with no palette set there is nothing to
    /// check.
    pub fn validate_palette_indices(&self) -> (r: Result<(), PngError>)
        ensures
            match self@.palette {
                Some(p) => {
                    &&& (r is Ok <==> self@.palette_indices_ok())
                    &&& (r matches Err(e) ==> exists|i: int|
                        0 <= i < self@.data.len() && e == PngError::InvalidPaletteEntry(
                            self@.data[i],
                        ) && self@.data[i] as int >= p.len() as int / 3 && (forall|j: int|
                            0 <= j < i ==> (self@.data[j] as int) < p.len() as int / 3))
                },
                None => r is Ok,
            },
    {
        let palette = match &self.palette {
            Some(p) => p,
            None => {
                return Ok(());
            },
        };
        let entries = palette.len() / 3;
        let mut i: usize = 0;
        while i < self.data.len()
            invariant
                entries == palette@.len() as int / 3,
                self@.palette == Some(palette@),
                self@.data == self.data@,
                i <= self@.data.len(),
                forall|j: int| 0 <= j < i ==> (self@.data[j] as int) < entries,
            decreases self@.data.len() - i,
        {
            let index = self.data[i];
            if index as usize >= entries {
                return Err(PngError::InvalidPaletteEntry(index));
            }
            i += 1;
        }
        Ok(())
    }

    /// The IHDR payload for this image's dimensions and mode.
    pub fn generate_ihdr(&self) -> (out: Vec<u8>)
        ensures
            out@ == ihdr_payload(self@),
    {
        let mut out: Vec<u8> = Vec::new();
        push_be32(&mut out, self.width);
        push_be32(&mut out, self.height);
        out.push(8);
        out.push(self.color_type.png_header_code());
        out.push(0);
        out.push(0);
        out.push(0);
        proof {
            assert(out@ =~= ihdr_payload(self@));
        }
        out
    }

    /// The Sub-filtered form of the stored pixels: one tag byte and one
    /// difference-coded row per stored row.
    pub fn filter_scanlines(&self) -> (out: Vec<u8>)
        requires
            self@.wf(),
        ensures
            out@ == filtered_scanlines(self@.data, self@.row_len(), self@.bpp()),
    {
        let bpp = self.color_type.bytes_per_pixel();
        proof {
            assert(self.width as int * bpp as int <= 0x7FFF * 4) by (nonlinear_arith)
                requires
                    1 <= self.width <= 0x7FFF,
                    1 <= bpp <= 4,
            ;
            assert(bpp as int <= self.width as int * bpp as int) by (nonlinear_arith)
                requires
                    1 <= self.width,
                    1 <= bpp,
            ;
        }
        let row_len = (self.width as usize) * bpp;
        sub_filter_scanlines(&self.data, row_len, bpp)
    }

    /// Frames the whole file around an already compressed IDAT payload:
    /// signature, IHDR, PLTE exactly when a palette is set, the payload,
    /// and an empty IEND.
    pub fn assemble(&self, compressed: &Vec<u8>) -> (out: Vec<u8>)
        requires
            self@.wf(),
            compressed@.len() <= 0xFFFFFFFF,
        ensures
            out@ == png_file_bytes(self@, compressed@),
    {
        let mut out: Vec<u8> = Vec::new();
        out.push(137);
        out.push(80);
        out.push(78);
        out.push(71);
        out.push(13);
        out.push(10);
        out.push(26);
        out.push(10);
        assert(out@ =~= png_signature());
        let ihdr = self.generate_ihdr();
        let ihdr_tag: [u8; 4] = [73, 72, 68, 82];
        let _ = ChunkWriter::write_chunk(&mut out, &ihdr_tag, ihdr.as_slice());
        assert(ihdr_tag@ =~= seq![73u8, 72u8, 68u8, 82u8]);
        match &self.palette {
            Some(p) => {
                let plte_tag: [u8; 4] = [80, 76, 84, 69];
                let _ = ChunkWriter::write_chunk(&mut out, &plte_tag, p.as_slice());
                assert(plte_tag@ =~= seq![80u8, 76u8, 84u8, 69u8]);
            },
            None => {},
        }
        let idat_tag: [u8; 4] = [73, 68, 65, 84];
        let _ = ChunkWriter::write_chunk(&mut out, &idat_tag, compressed.as_slice());
        assert(idat_tag@ =~= seq![73u8, 68u8, 65u8, 84u8]);
        let iend_tag: [u8; 4] = [73, 69, 78, 68];
        let empty: Vec<u8> = Vec::new();
        let _ = ChunkWriter::write_chunk(&mut out, &iend_tag, empty.as_slice());
        assert(iend_tag@ =~= seq![73u8, 69u8, 78u8, 68u8]);
        proof {
            assert(out@ =~= png_file_bytes(self@, compressed@));
        }
        out
    }

    /// Encodes the image as one complete PNG byte stream. For an indexed
    /// image a palette must be set and every stored pixel byte must index
    /// an existing entry — both are checked before any byte is produced.
    /// On a valid image the encode succeeds and the result is the exact
    /// file layout around the compression service's output; the one
    /// exception is a compressed payload too large for a chunk's 4-byte
    /// length field, reported as the compression error.
    pub fn encode(&self) -> (r: Result<Vec<u8>, PngError>)
        requires
            self@.wf(),
        ensures
            self@.color_type == ColorType::Indexed && self@.palette is None ==> (
            r matches Err(e) && e is InvalidPalette),
            self@.palette matches Some(p) ==> (!self@.palette_indices_ok() ==> (
            r matches Err(e) && exists|i: int|
                0 <= i < self@.data.len() && e == PngError::InvalidPaletteEntry(self@.data[i])
                    && self@.data[i] as int >= p.len() as int / 3 && (forall|j: int|
                    0 <= j < i ==> (self@.data[j] as int) < p.len() as int / 3))),
            !(self@.color_type == ColorType::Indexed && self@.palette is None)
                && self@.palette_indices_ok() ==> {
                let idat = zlib_of(
                    filtered_scanlines(self@.data, self@.row_len(), self@.bpp()),
                );
                &&& idat.len() <= 0xFFFFFFFF ==> (r matches Ok(out) && out@ == png_file_bytes(
                    self@,
                    idat,
                ))
                &&& idat.len() > 0xFFFFFFFF ==> (r matches Err(e) && e is Compression)
            },
    {
        if matches!(self.color_type, ColorType::Indexed) {
            match &self.palette {
                None => {
                    return Err(PngError::InvalidPalette(String::from_str(
                        "Palette required for indexed color",
                    )));
                },
                Some(_) => {},
            }
            match self.validate_palette_indices() {
                Err(e) => {
                    return Err(e);
                },
                Ok(()) => {},
            }
        }
        let filtered = self.filter_scanlines();
        let compressed = match compress_zlib(&filtered) {
            Err(msg) => {
                return Err(PngError::Compression(msg));
            },
            Ok(c) => c,
        };
        if compressed.len() > 0xFFFFFFFFusize {
            return Err(PngError::Compression(String::from_str(
                "compressed image data does not fit one chunk",
            )));
        }
        Ok(self.assemble(&compressed))
    }
}

} // verus!
