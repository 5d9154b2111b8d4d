//! Header parser: a read-only view over a raw bitmap file buffer that
//! extracts the little-endian header fields the pipeline needs.

use vstd::prelude::*;
use crate::ChrError;

verus! {

/// Byte offset of the pixel-data offset field in the header.
pub const BITMAP_PIXEL_DATA_ADDRESS: usize = 0x0a;
/// Byte offset of the signed 32-bit width field.
pub const BITMAP_WIDTH: usize = 0x12;
/// Byte offset of the signed 32-bit height field.
pub const BITMAP_HEIGHT: usize = 0x16;
/// Byte offset of the unsigned 16-bit bits-per-pixel field.
pub const BITMAP_BPP: usize = 0x1c;
/// Byte offset of the unsigned 32-bit compression-method field.
pub const BITMAP_COMPRESSION: usize = 0x1e;

/// The unsigned 16-bit value stored little-endian at byte offset `off`.
pub open spec fn le16u(b: Seq<u8>, off: int) -> u16 {
    (b[off] as u16) | ((b[off + 1] as u16) << 8)
}

/// The unsigned 32-bit value stored little-endian at byte offset `off`.
pub open spec fn le32u(b: Seq<u8>, off: int) -> u32 {
    (b[off] as u32) | ((b[off + 1] as u32) << 8) | ((b[off + 2] as u32) << 16)
        | ((b[off + 3] as u32) << 24)
}

/// The declared image width in pixels: a signed 32-bit little-endian
/// integer at offset 0x12.
pub open spec fn spec_width(b: Seq<u8>) -> i32 {
    le32u(b, 0x12) as i32
}

/// The declared image height in pixels: a signed 32-bit little-endian
/// integer at offset 0x16. Only its magnitude and divisibility matter to
/// the pipeline.
pub open spec fn spec_height(b: Seq<u8>) -> i32 {
    le32u(b, 0x16) as i32
}

/// The magnitude of the declared height.
pub open spec fn spec_abs_height(b: Seq<u8>) -> int {
    let h = spec_height(b) as int;
    if h < 0 {
        -h
    } else {
        h
    }
}

/// The declared bits-per-pixel: an unsigned 16-bit little-endian integer at
/// offset 0x1c.
pub open spec fn spec_bpp(b: Seq<u8>) -> u16 {
    le16u(b, 0x1c)
}

/// The declared compression method: an unsigned 32-bit little-endian
/// integer at offset 0x1e. 0 means uncompressed.
pub open spec fn spec_compression(b: Seq<u8>) -> u32 {
    le32u(b, 0x1e)
}

/// The byte offset of the pixel data within the file: an unsigned 32-bit
/// little-endian integer at offset 0x0a.
pub open spec fn spec_pixel_data_address(b: Seq<u8>) -> int {
    le32u(b, 0x0a) as int
}

/// What header verification returns: the buffer must be at least 16 bytes
/// long and start with the signature bytes 'B','M'.
pub open spec fn spec_verify_header(b: Seq<u8>) -> Result<(), ChrError> {
    if b.len() < 0x10 {
        Err(ChrError::TruncatedHeader)
    } else if b[0] != 0x42 || b[1] != 0x4d {
        Err(ChrError::InvalidFormat)
    } else {
        Ok(())
    }
}

/// A raw bitmap file buffer, exactly as read from storage.
pub struct Bitmap {
    pub bytes: Vec<u8>,
}

impl Bitmap {
    /// The length of the file buffer in bytes.
    pub fn len(&self) -> (r: usize)
        ensures
            r == self.bytes@.len(),
    {
        self.bytes.len()
    }

    /// Checks that the buffer is long enough for the header fields and
    /// starts with the bitmap signature.
    pub fn verify_header(&self) -> (r: Result<(), ChrError>)
        ensures
            r == spec_verify_header(self.bytes@),
    {
        if self.bytes.len() < 0x10 {
            Err(ChrError::TruncatedHeader)
        } else if self.bytes[0] != 0x42 || self.bytes[1] != 0x4d {
            Err(ChrError::InvalidFormat)
        } else {
            Ok(())
        }
    }

    /// Reads the declared width from the header.
    pub fn get_width(&self) -> (r: i32)
        requires
            self.bytes@.len() >= 0x16,
        ensures
            r == spec_width(self.bytes@),
    {
        let u: u32 = (self.bytes[BITMAP_WIDTH] as u32)
            | ((self.bytes[BITMAP_WIDTH + 1] as u32) << 8)
            | ((self.bytes[BITMAP_WIDTH + 2] as u32) << 16)
            | ((self.bytes[BITMAP_WIDTH + 3] as u32) << 24);
        u as i32
    }

    /// Reads the declared height from the header.
    pub fn get_height(&self) -> (r: i32)
        requires
            self.bytes@.len() >= 0x1a,
        ensures
            r == spec_height(self.bytes@),
    {
        let u: u32 = (self.bytes[BITMAP_HEIGHT] as u32)
            | ((self.bytes[BITMAP_HEIGHT + 1] as u32) << 8)
            | ((self.bytes[BITMAP_HEIGHT + 2] as u32) << 16)
            | ((self.bytes[BITMAP_HEIGHT + 3] as u32) << 24);
        u as i32
    }

    /// Reads the declared bits-per-pixel from the header.
    pub fn get_bpp(&self) -> (r: u16)
        requires
            self.bytes@.len() >= 0x1e,
        ensures
            r == spec_bpp(self.bytes@),
    {
        (self.bytes[BITMAP_BPP] as u16) | ((self.bytes[BITMAP_BPP + 1] as u16) << 8)
    }

    /// Reads the declared compression method from the header.
    pub fn get_compression_format(&self) -> (r: u32)
        requires
            self.bytes@.len() >= 0x22,
        ensures
            r == spec_compression(self.bytes@),
    {
        (self.bytes[BITMAP_COMPRESSION] as u32)
            | ((self.bytes[BITMAP_COMPRESSION + 1] as u32) << 8)
            | ((self.bytes[BITMAP_COMPRESSION + 2] as u32) << 16)
            | ((self.bytes[BITMAP_COMPRESSION + 3] as u32) << 24)
    }

    /// Reads the byte offset of the pixel data from the header.
    pub fn get_pixel_data_address(&self) -> (r: usize)
        requires
            self.bytes@.len() >= 0x0e,
        ensures
            r == spec_pixel_data_address(self.bytes@),
    {
        let u: u32 = (self.bytes[BITMAP_PIXEL_DATA_ADDRESS] as u32)
            | ((self.bytes[BITMAP_PIXEL_DATA_ADDRESS + 1] as u32) << 8)
            | ((self.bytes[BITMAP_PIXEL_DATA_ADDRESS + 2] as u32) << 16)
            | ((self.bytes[BITMAP_PIXEL_DATA_ADDRESS + 3] as u32) << 24);
        u as usize
    }
}

} // verus!
