//! Conversion of uncompressed, indexed-color bitmap images into the planar
//! 2-bits-per-pixel tile stream ("CHR") used by 8-bit tile-based graphics
//! hardware.
//!
//! The pipeline has four stages: the header parser ([`bitmap::Bitmap`])
//! reads and validates the fixed-layout bitmap header; the scanline
//! normalizer ([`pipeline::reverse_scanlines`]) turns the bottom-up pixel
//! rows into top-down order; the tile partitioner
//! ([`pipeline::process_pixel_bytes`]) cuts the flat pixel buffer into 8x8
//! tiles; and the bitplane encoder ([`pipeline::process_tiles`]) packs each
//! tile into 8 low-bitplane bytes followed by 8 high-bitplane bytes.
//! [`pipeline::convert`] runs the whole pipeline on a raw file buffer.

use vstd::prelude::*;

pub mod bitmap;
pub mod pipeline;

verus! {

/// Width in pixels that the target hardware requires of every input image;
/// also the stride, in bytes, of one stored pixel row.
pub const ROW_WIDTH: usize = 128;

/// Edge length, in pixels, of one square tile.
pub const TILE_SIZE: usize = 8;

/// Every way the conversion can fail. All failures are terminal: the
/// pipeline never produces partial output.
#[derive(Clone, Copy, Debug, PartialEq, Eq, Structural)]
pub enum ChrError {
    /// The signature bytes at offset 0 are not the ASCII characters 'B','M'.
    InvalidFormat,
    /// The buffer is too short to contain the required header fields.
    TruncatedHeader,
    /// The declared width is not the hardware row width of 128 pixels.
    UnsupportedWidth,
    /// The declared height's magnitude is not a multiple of 8.
    UnsupportedHeight,
    /// The declared bits-per-pixel is above 8 (not indexed color).
    UnsupportedColorDepth,
    /// The declared compression method is not 0 (uncompressed).
    UnsupportedCompression,
    /// The pixel-data region is inconsistent with the declared row width:
    /// its offset lies past the end of the buffer, or its length is not an
    /// exact multiple of the row width.
    MalformedPixelData,
    /// The pixel rows cannot be divided evenly into bands of 8 rows.
    InvalidDimensions,
}

} // verus!
