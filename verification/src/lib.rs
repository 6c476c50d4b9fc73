//! A small PNG encoder: an append-only pixel buffer, a fixed Sub scanline
//! filter, checksummed chunk framing, and whole-file assembly. Compression
//! and the CRC-32 checksum are consumed as outside services; everything
//! around them is verified.

pub mod chunks;
pub mod color;
pub mod deflate;
pub mod error;
pub mod filter;
pub mod image;

pub use chunks::ChunkWriter;
pub use color::ColorType;
pub use error::PngError;
pub use image::PngImage;
