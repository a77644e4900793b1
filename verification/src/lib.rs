//! Decoding of PNG streams into flat RGBA pixel buffers.
//!
//! The pipeline has four stages: `chunks` frames and validates the chunk
//! stream, `header` interprets the IHDR payload, `scanline` undoes the
//! per-row filters on the inflated image data, and `color` turns the raw
//! channel bytes into RGBA. `image` runs them in order.

pub mod checksum;
pub mod chunks;
pub mod color;
pub mod error;
pub mod header;
pub mod image;
pub mod scanline;
pub mod zlib;
