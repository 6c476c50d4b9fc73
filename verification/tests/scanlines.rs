//! Scanline filter behaviour: exact Sub-filter output and the round-trip
//! with the inverse predictor.

use png::filter::{sub_filter_scanlines, unfilter_scanlines};
use png::{ColorType, PngImage};

#[test]
fn filter_known_rgb_row() {
    let mut img = PngImage::new(2, 1, ColorType::Rgb).unwrap();
    img.add_pixel(&[255, 0, 0]).unwrap();
    img.add_pixel(&[0, 255, 0]).unwrap();
    let filtered = img.filter_scanlines();
    // Tag byte 1, first pixel verbatim (previous is 0), then differences.
    assert_eq!(filtered, vec![1, 255, 0, 0, 1, 255, 0]);
}

#[test]
fn filter_tags_every_row() {
    let mut img = PngImage::new(2, 3, ColorType::Grayscale).unwrap();
    for v in [10u8, 20, 30, 40, 50, 60] {
        img.add_pixel(&[v]).unwrap();
    }
    let filtered = img.filter_scanlines();
    assert_eq!(filtered, vec![1, 10, 10, 1, 30, 10, 1, 50, 10]);
}

#[test]
fn filter_wraps_modulo_256() {
    let data = vec![5u8, 250, 3];
    let filtered = sub_filter_scanlines(&data, 3, 1);
    // 250 - 5 = 245, 3 - 250 wraps to 9.
    assert_eq!(filtered, vec![1, 5, 245, 9]);
}

#[test]
fn unfilter_inverts_filter_for_every_mode() {
    let cases = [
        (3usize, 1usize, 3usize), // grayscale 3x3
        (2, 2, 2),                // grayscale-alpha 2x2
        (4, 3, 2),                // rgb 4x2
        (2, 4, 2),                // rgba 2x2
    ];
    for (width, bpp, height) in cases {
        let row_len = width * bpp;
        let mut data = Vec::new();
        for i in 0..(row_len * height) {
            data.push((i * 37 + 11) as u8);
        }
        let filtered = sub_filter_scanlines(&data, row_len, bpp);
        assert_eq!(filtered.len(), height * (1 + row_len));
        // The filtered stream differs from the input (it gained tag bytes).
        let recovered = unfilter_scanlines(&filtered, row_len, bpp);
        assert_eq!(recovered, data);
    }
}

#[test]
fn unfilter_recovers_known_row() {
    let filtered = vec![1u8, 255, 0, 0, 1, 255, 0];
    let recovered = unfilter_scanlines(&filtered, 6, 3);
    assert_eq!(recovered, vec![255, 0, 0, 0, 255, 0]);
}
