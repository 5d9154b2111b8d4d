use bmp2chr::ChrError;
use bmp2chr::bitmap::Bitmap;
use bmp2chr::pipeline::convert;
use bmp2chr::pipeline::process_pixel_bytes;
use bmp2chr::pipeline::process_tiles;
use bmp2chr::pipeline::reverse_scanlines;

/// A complete bitmap file buffer: a 54-byte header immediately followed by
/// the given pixel bytes.
fn sample_bmp(width: i32, height: i32, bpp: u16, compression: u32, pixels: &[u8]) -> Vec<u8> {
    let mut b = vec![0u8; 54];
    b[0] = 0x42;
    b[1] = 0x4d;
    b[0x0a..0x0e].copy_from_slice(&54u32.to_le_bytes());
    b[0x12..0x16].copy_from_slice(&width.to_le_bytes());
    b[0x16..0x1a].copy_from_slice(&height.to_le_bytes());
    b[0x1c..0x1e].copy_from_slice(&bpp.to_le_bytes());
    b[0x1e..0x22].copy_from_slice(&compression.to_le_bytes());
    b.extend_from_slice(pixels);
    b
}

#[test]
fn converts_single_band_image() {
    // 128x8, 8 bpp, uncompressed, pixel data right after the 54-byte
    // header. Every pixel is its column modulo 4, so each row packs to the
    // same two bytes: low bits 0,1,0,1,... give 0x55 and high bits
    // 0,0,1,1,... give 0x33.
    let mut pixels = vec![0u8; 1024];
    for (i, p) in pixels.iter_mut().enumerate() {
        *p = (i % 4) as u8;
    }
    let bitmap = Bitmap { bytes: sample_bmp(128, 8, 8, 0, &pixels) };
    let out = convert(&bitmap).unwrap();
    assert_eq!(out.len(), 256);
    for t in 0..16 {
        for i in 0..8 {
            assert_eq!(out[t * 16 + i], 0x55);
            assert_eq!(out[t * 16 + 8 + i], 0x33);
        }
    }
}

#[test]
fn output_length_matches_dimensions() {
    // 128x16 image: (128 / 8) * (16 / 8) * 16 = 512 output bytes.
    let pixels = vec![0u8; 2048];
    let bitmap = Bitmap { bytes: sample_bmp(128, 16, 8, 0, &pixels) };
    let out = convert(&bitmap).unwrap();
    assert_eq!(out.len(), (128 / 8) * (16 / 8) * 16);
}

#[test]
fn top_left_pixel_lands_in_bit_7_of_byte_0() {
    // The source stores rows bottom-up, so the image's top-left pixel is
    // the first byte of the last stored row. Setting only that pixel to 1
    // must set exactly bit 7 of output byte 0.
    let mut pixels = vec![0u8; 1024];
    pixels[7 * 128] = 1;
    let bitmap = Bitmap { bytes: sample_bmp(128, 8, 8, 0, &pixels) };
    let out = convert(&bitmap).unwrap();
    assert_eq!(out[0], 0x80);
    for i in 1..256 {
        assert_eq!(out[i], 0x00);
    }
}

#[test]
fn conversion_is_deterministic() {
    let mut pixels = vec![0u8; 2048];
    for (i, p) in pixels.iter_mut().enumerate() {
        *p = (i % 251) as u8;
    }
    let bytes = sample_bmp(128, 16, 8, 0, &pixels);
    let first = convert(&Bitmap { bytes: bytes.clone() }).unwrap();
    let second = convert(&Bitmap { bytes }).unwrap();
    assert_eq!(first, second);
}

#[test]
fn negative_height_of_valid_magnitude_is_accepted() {
    let pixels = vec![0u8; 1024];
    let bitmap = Bitmap { bytes: sample_bmp(128, -8, 8, 0, &pixels) };
    assert!(convert(&bitmap).is_ok());
}

#[test]
fn rejects_bad_signature() {
    let mut bytes = sample_bmp(128, 8, 8, 0, &vec![0u8; 1024]);
    bytes[0] = 0x00;
    bytes[1] = 0x00;
    let bitmap = Bitmap { bytes };
    assert_eq!(convert(&bitmap), Err(ChrError::InvalidFormat));
}

#[test]
fn rejects_empty_buffer() {
    let bitmap = Bitmap { bytes: Vec::new() };
    assert_eq!(convert(&bitmap), Err(ChrError::TruncatedHeader));
}

#[test]
fn rejects_buffer_shorter_than_header_fields() {
    // Long enough for the signature check but not for the field reads.
    let mut bytes = vec![0u8; 20];
    bytes[0] = 0x42;
    bytes[1] = 0x4d;
    let bitmap = Bitmap { bytes };
    assert_eq!(convert(&bitmap), Err(ChrError::TruncatedHeader));
}

#[test]
fn rejects_width_64() {
    let bitmap = Bitmap { bytes: sample_bmp(64, 8, 8, 0, &vec![0u8; 1024]) };
    assert_eq!(convert(&bitmap), Err(ChrError::UnsupportedWidth));
}

#[test]
fn rejects_height_not_multiple_of_8() {
    let bitmap = Bitmap { bytes: sample_bmp(128, 12, 8, 0, &vec![0u8; 1024]) };
    assert_eq!(convert(&bitmap), Err(ChrError::UnsupportedHeight));
}

#[test]
fn rejects_bpp_16() {
    let bitmap = Bitmap { bytes: sample_bmp(128, 8, 16, 0, &vec![0u8; 1024]) };
    assert_eq!(convert(&bitmap), Err(ChrError::UnsupportedColorDepth));
}

#[test]
fn rejects_compression_1() {
    let bitmap = Bitmap { bytes: sample_bmp(128, 8, 8, 1, &vec![0u8; 1024]) };
    assert_eq!(convert(&bitmap), Err(ChrError::UnsupportedCompression));
}

#[test]
fn rejects_pixel_offset_past_end() {
    let mut bytes = sample_bmp(128, 8, 8, 0, &[]);
    bytes[0x0a..0x0e].copy_from_slice(&5000u32.to_le_bytes());
    let bitmap = Bitmap { bytes };
    assert_eq!(convert(&bitmap), Err(ChrError::MalformedPixelData));
}

#[test]
fn rejects_partial_row() {
    let bitmap = Bitmap { bytes: sample_bmp(128, 8, 8, 0, &vec![0u8; 1000]) };
    assert_eq!(convert(&bitmap), Err(ChrError::MalformedPixelData));
}

#[test]
fn rejects_partial_band() {
    // Four whole rows: a whole number of rows but not a whole band of 8.
    let bitmap = Bitmap { bytes: sample_bmp(128, 8, 8, 0, &vec![0u8; 512]) };
    assert_eq!(convert(&bitmap), Err(ChrError::InvalidDimensions));
}

#[test]
fn reverse_scanlines_swaps_rows() {
    let mut pixels = vec![1u8; 128];
    pixels.extend_from_slice(&[2u8; 128]);
    let out = reverse_scanlines(&pixels).unwrap();
    assert_eq!(out.len(), 256);
    assert!(out[..128].iter().all(|&p| p == 2));
    assert!(out[128..].iter().all(|&p| p == 1));
}

#[test]
fn reverse_scanlines_rejects_partial_row() {
    let pixels = vec![0u8; 100];
    assert_eq!(reverse_scanlines(&pixels), Err(ChrError::MalformedPixelData));
}

#[test]
fn partitions_one_band_into_16_tiles() {
    let mut pixels = vec![0u8; 1024];
    for (i, p) in pixels.iter_mut().enumerate() {
        *p = (i % 251) as u8;
    }
    let tiles = process_pixel_bytes(&pixels).unwrap();
    assert_eq!(tiles.len(), 16);
    for tile in &tiles {
        assert_eq!(tile.len(), 64);
    }
    // Tile 0 row 0 is the first 8 bytes of pixel row 0; tile 1 starts 8
    // columns over; tile 0 row 1 starts one pixel row (128 bytes) in.
    assert_eq!(tiles[0][0], pixels[0]);
    assert_eq!(tiles[0][7], pixels[7]);
    assert_eq!(tiles[1][0], pixels[8]);
    assert_eq!(tiles[15][7], pixels[127]);
    assert_eq!(tiles[0][8], pixels[128]);
    assert_eq!(tiles[0][63], pixels[7 * 128 + 7]);
}

#[test]
fn partitions_two_bands_in_row_major_order() {
    let mut pixels = vec![0u8; 2048];
    for (i, p) in pixels.iter_mut().enumerate() {
        *p = (i % 251) as u8;
    }
    let tiles = process_pixel_bytes(&pixels).unwrap();
    assert_eq!(tiles.len(), 32);
    // The second band's first tile starts 8 pixel rows in.
    assert_eq!(tiles[16][0], pixels[1024]);
    assert_eq!(tiles[16][8], pixels[1024 + 128]);
}

#[test]
fn partition_rejects_partial_band() {
    let pixels = vec![0u8; 512];
    assert_eq!(process_pixel_bytes(&pixels), Err(ChrError::InvalidDimensions));
}

#[test]
fn partition_rejects_partial_row() {
    let pixels = vec![0u8; 100];
    assert_eq!(process_pixel_bytes(&pixels), Err(ChrError::InvalidDimensions));
}

#[test]
fn encodes_all_threes_as_ff() {
    let tiles = vec![vec![3u8; 64]];
    let out = process_tiles(&tiles);
    assert_eq!(out, vec![0xffu8; 16]);
}

#[test]
fn encodes_all_zeros_as_00() {
    let tiles = vec![vec![0u8; 64]];
    let out = process_tiles(&tiles);
    assert_eq!(out, vec![0x00u8; 16]);
}

#[test]
fn encoder_discards_bits_above_bit_1() {
    // 0xfc has bits 0 and 1 clear: it must encode like 0.
    let tiles = vec![vec![0xfcu8; 64]];
    let out = process_tiles(&tiles);
    assert_eq!(out, vec![0x00u8; 16]);
}

#[test]
fn decoding_a_block_recovers_the_low_two_bits() {
    // One tile with every distinct byte value pattern; decode each pixel
    // from the two bitplanes and compare with the original index & 0b11.
    let mut tile = vec![0u8; 64];
    for (k, p) in tile.iter_mut().enumerate() {
        *p = (k * 7 % 256) as u8;
    }
    let out = process_tiles(&vec![tile.clone()]);
    assert_eq!(out.len(), 16);
    for k in 0..64 {
        let row = k / 8;
        let col = k % 8;
        let low = (out[row] >> (7 - col)) & 1;
        let high = (out[8 + row] >> (7 - col)) & 1;
        assert_eq!(low | (high << 1), tile[k] & 0b11);
    }
}
