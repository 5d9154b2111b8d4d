use bmp2chr::ChrError;
use bmp2chr::bitmap::Bitmap;

/// A minimal 54-byte bitmap header with the given field values.
fn sample_header(width: i32, height: i32, bpp: u16, compression: u32, offset: u32) -> Vec<u8> {
    let mut b = vec![0u8; 54];
    b[0] = 0x42;
    b[1] = 0x4d;
    b[0x0a..0x0e].copy_from_slice(&offset.to_le_bytes());
    b[0x12..0x16].copy_from_slice(&width.to_le_bytes());
    b[0x16..0x1a].copy_from_slice(&height.to_le_bytes());
    b[0x1c..0x1e].copy_from_slice(&bpp.to_le_bytes());
    b[0x1e..0x22].copy_from_slice(&compression.to_le_bytes());
    b
}

#[test]
fn len_reports_buffer_length() {
    let bitmap = Bitmap { bytes: sample_header(128, 8, 8, 0, 54) };
    assert_eq!(bitmap.len(), 54);
}

#[test]
fn verify_header_accepts_signature() {
    let bitmap = Bitmap { bytes: sample_header(128, 8, 8, 0, 54) };
    assert_eq!(bitmap.verify_header(), Ok(()));
}

#[test]
fn verify_header_rejects_zero_signature() {
    let mut bytes = sample_header(128, 8, 8, 0, 54);
    bytes[0] = 0x00;
    bytes[1] = 0x00;
    let bitmap = Bitmap { bytes };
    assert_eq!(bitmap.verify_header(), Err(ChrError::InvalidFormat));
}

#[test]
fn verify_header_rejects_short_buffer() {
    let bitmap = Bitmap { bytes: vec![0x42, 0x4d, 0, 0, 0, 0, 0, 0] };
    assert_eq!(bitmap.verify_header(), Err(ChrError::TruncatedHeader));
}

#[test]
fn get_width_reads_little_endian() {
    let bitmap = Bitmap { bytes: sample_header(0x01020304, 8, 8, 0, 54) };
    assert_eq!(bitmap.get_width(), 0x01020304);
}

#[test]
fn get_width_reads_negative_values() {
    let bitmap = Bitmap { bytes: sample_header(-2, 8, 8, 0, 54) };
    assert_eq!(bitmap.get_width(), -2);
}

#[test]
fn get_height_reads_little_endian() {
    let bitmap = Bitmap { bytes: sample_header(128, -640, 8, 0, 54) };
    assert_eq!(bitmap.get_height(), -640);
}

#[test]
fn get_bpp_reads_little_endian() {
    let bitmap = Bitmap { bytes: sample_header(128, 8, 0x0102, 0, 54) };
    assert_eq!(bitmap.get_bpp(), 0x0102);
}

#[test]
fn get_compression_format_reads_little_endian() {
    let bitmap = Bitmap { bytes: sample_header(128, 8, 8, 0xdeadbeef, 54) };
    assert_eq!(bitmap.get_compression_format(), 0xdeadbeef);
}

#[test]
fn get_pixel_data_address_reads_little_endian() {
    let bitmap = Bitmap { bytes: sample_header(128, 8, 8, 0, 0x00010036) };
    assert_eq!(bitmap.get_pixel_data_address(), 0x00010036);
}
