//! A codec for uncompressed 24-bit BMP images, between an in-memory pixel
//! buffer and the byte layout of a Windows bitmap file.
pub mod codec;
pub mod field;
pub mod image;
pub mod laws;

pub use codec::padding;
pub use image::{Error, Rgb, RgbImage};
