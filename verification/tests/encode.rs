//! Whole-file encoding: byte-exact layout, decompressed IDAT content, and
//! the palette checks that run before any byte is produced.

use std::io::Read;

use png::filter::unfilter_scanlines;
use png::{ColorType, PngError, PngImage};

fn crc32_reference(bytes: &[u8]) -> u32 {
    crc::Crc::<u32>::new(&crc::CRC_32_ISO_HDLC).checksum(bytes)
}

/// Splits `bytes` at `pos` into one chunk (type, payload), checks its
/// length field and checksum, and returns the position after it.
fn read_chunk(bytes: &[u8], pos: usize) -> (Vec<u8>, Vec<u8>, usize) {
    let len =
        u32::from_be_bytes([bytes[pos], bytes[pos + 1], bytes[pos + 2], bytes[pos + 3]]) as usize;
    let ctype = bytes[pos + 4..pos + 8].to_vec();
    let payload = bytes[pos + 8..pos + 8 + len].to_vec();
    let crc =
        u32::from_be_bytes(bytes[pos + 8 + len..pos + 12 + len].try_into().unwrap());
    let mut checked = ctype.clone();
    checked.extend_from_slice(&payload);
    assert_eq!(crc, crc32_reference(&checked), "chunk checksum mismatch");
    (ctype, payload, pos + 12 + len)
}

fn inflate(bytes: &[u8]) -> Vec<u8> {
    let mut decoder = flate2::read::ZlibDecoder::new(bytes);
    let mut out = Vec::new();
    decoder.read_to_end(&mut out).unwrap();
    out
}

#[test]
fn encode_rgb_end_to_end() {
    let mut img = PngImage::new(2, 1, ColorType::Rgb).unwrap();
    img.add_pixel(&[255, 0, 0]).unwrap();
    img.add_pixel(&[0, 255, 0]).unwrap();
    let out = img.encode().unwrap();

    assert_eq!(&out[0..8], &[137, 80, 78, 71, 13, 10, 26, 10]);

    let (ctype, ihdr, pos) = read_chunk(&out, 8);
    assert_eq!(ctype, b"IHDR");
    assert_eq!(
        ihdr,
        vec![
            0, 0, 0, 2, // width 2
            0, 0, 0, 1, // height 1
            8, // bit depth
            2, // color type rgb
            0, // compression
            0, // filter
            0, // interlace
        ]
    );

    let (ctype, idat, pos) = read_chunk(&out, pos);
    assert_eq!(ctype, b"IDAT");
    let filtered = inflate(&idat);
    assert_eq!(filtered, vec![1, 255, 0, 0, 1, 255, 0]);
    let pixels = unfilter_scanlines(&filtered, 6, 3);
    assert_eq!(pixels, vec![255, 0, 0, 0, 255, 0]);

    let (ctype, iend, pos) = read_chunk(&out, pos);
    assert_eq!(ctype, b"IEND");
    assert!(iend.is_empty());
    assert_eq!(pos, out.len());
}

#[test]
fn encode_indexed_emits_plte() {
    let mut img = PngImage::new(1, 1, ColorType::Indexed).unwrap();
    img.set_palette(&[255, 0, 0]).unwrap();
    img.add_pixel(&[0]).unwrap();
    let out = img.encode().unwrap();

    assert_eq!(&out[0..8], &[137, 80, 78, 71, 13, 10, 26, 10]);
    let (ctype, ihdr, pos) = read_chunk(&out, 8);
    assert_eq!(ctype, b"IHDR");
    assert_eq!(ihdr[9], 3); // indexed format code
    let (ctype, plte, pos) = read_chunk(&out, pos);
    assert_eq!(ctype, b"PLTE");
    assert_eq!(plte, vec![255, 0, 0]);
    let (ctype, idat, pos) = read_chunk(&out, pos);
    assert_eq!(ctype, b"IDAT");
    assert_eq!(inflate(&idat), vec![1, 0]);
    let (ctype, _, pos) = read_chunk(&out, pos);
    assert_eq!(ctype, b"IEND");
    assert_eq!(pos, out.len());
}

#[test]
fn encode_indexed_rejects_out_of_range_index() {
    let mut img = PngImage::new(1, 1, ColorType::Indexed).unwrap();
    img.set_palette(&[255, 0, 0]).unwrap();
    img.add_pixel(&[1]).unwrap();
    assert!(matches!(
        img.encode(),
        Err(PngError::InvalidPaletteEntry(1))
    ));
}

#[test]
fn encode_indexed_requires_palette() {
    let mut img = PngImage::new(1, 1, ColorType::Indexed).unwrap();
    img.add_pixel(&[0]).unwrap();
    assert!(matches!(img.encode(), Err(PngError::InvalidPalette(_))));
}

#[test]
fn encode_reports_first_bad_index() {
    let mut img = PngImage::new(2, 2, ColorType::Indexed).unwrap();
    img.set_palette(&[10, 20, 30, 40, 50, 60]).unwrap(); // 2 entries
    img.add_pixel(&[1]).unwrap();
    img.add_pixel(&[5]).unwrap();
    img.add_pixel(&[9]).unwrap();
    assert!(matches!(
        img.encode(),
        Err(PngError::InvalidPaletteEntry(5))
    ));
}

#[test]
fn encode_grayscale_alpha_roundtrip() {
    let mut img = PngImage::new(2, 2, ColorType::GrayscaleAlpha).unwrap();
    for p in [[0u8, 255], [10, 20], [200, 100], [255, 0]] {
        img.add_pixel(&p).unwrap();
    }
    let out = img.encode().unwrap();
    let (_, _, pos) = read_chunk(&out, 8);
    let (ctype, idat, _) = read_chunk(&out, pos);
    assert_eq!(ctype, b"IDAT");
    let pixels = unfilter_scanlines(&inflate(&idat), 4, 2);
    assert_eq!(pixels, vec![0, 255, 10, 20, 200, 100, 255, 0]);
}

#[test]
fn assemble_frames_payload_verbatim() {
    let img = PngImage::new(1, 1, ColorType::Grayscale).unwrap();
    let payload = vec![1u8, 2, 3];
    let out = img.assemble(&payload);
    assert_eq!(&out[0..8], &[137, 80, 78, 71, 13, 10, 26, 10]);
    let (ctype, ihdr, pos) = read_chunk(&out, 8);
    assert_eq!(ctype, b"IHDR");
    assert_eq!(ihdr, vec![0, 0, 0, 1, 0, 0, 0, 1, 8, 0, 0, 0, 0]);
    let (ctype, idat, pos) = read_chunk(&out, pos);
    assert_eq!(ctype, b"IDAT");
    assert_eq!(idat, payload);
    let (ctype, iend, pos) = read_chunk(&out, pos);
    assert_eq!(ctype, b"IEND");
    assert!(iend.is_empty());
    assert_eq!(pos, out.len());
}
