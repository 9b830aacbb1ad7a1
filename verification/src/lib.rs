//! A small ray tracer's verified core: the pixel buffer, the packing of
//! colours into 24 bits, the nearest-hit selection rule and the bitmap
//! encoder.

pub mod bmp;
pub mod bytes;
pub mod colour;
pub mod image;
pub mod nearest;
