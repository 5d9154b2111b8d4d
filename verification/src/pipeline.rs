//! The conversion pipeline: scanline normalization, tile partitioning,
//! bitplane encoding, and the driver that runs all stages on a raw file
//! buffer.

use vstd::prelude::*;
use crate::ChrError;
use crate::ROW_WIDTH;
use crate::TILE_SIZE;
use crate::bitmap::Bitmap;
use crate::bitmap::spec_verify_header;
use crate::bitmap::spec_width;
use crate::bitmap::spec_abs_height;
use crate::bitmap::spec_bpp;
use crate::bitmap::spec_compression;
use crate::bitmap::spec_pixel_data_address;

verus! {

/// The pixel buffer with its rows of 128 bytes in reverse order: row `r` of
/// the result is row `rows - 1 - r` of the input. Meaningful when the input
/// length is an exact multiple of 128.
pub open spec fn norm_rows(p: Seq<u8>) -> Seq<u8> {
    Seq::new(p.len(), |i: int| p[p.len() - 128 - (i / 128) * 128 + (i % 128)])
}

/// Reverses the order of the 128-byte pixel rows, turning the bottom-up
/// storage order of the bitmap into the top-down order the tile partitioner
/// expects. Fails with `MalformedPixelData` exactly when the buffer length
/// is not a whole number of rows.
pub fn reverse_scanlines(pixel_data: &Vec<u8>) -> (r: Result<Vec<u8>, ChrError>)
    ensures
        match r {
            Ok(v) => pixel_data@.len() % 128 == 0 && v@ == norm_rows(pixel_data@),
            Err(e) => e == ChrError::MalformedPixelData && pixel_data@.len() % 128 != 0,
        },
{
    let len = pixel_data.len();
    if len % ROW_WIDTH != 0 {
        return Err(ChrError::MalformedPixelData);
    }
    let nrows = len / ROW_WIDTH;
    proof {
        vstd::arithmetic::div_mod::lemma_fundamental_div_mod(len as int, 128);
    }
    let mut out: Vec<u8> = Vec::new();
    let mut r: usize = 0;
    while r < nrows
        invariant
            pixel_data@.len() == len,
            nrows * 128 == len,
            r <= nrows,
            out@.len() == r * 128,
            forall|i: int| 0 <= i < out@.len() ==> out@[i] == norm_rows(pixel_data@)[i],
        decreases nrows - r,
    {
        let base = (nrows - 1 - r) * ROW_WIDTH;
        let mut c: usize = 0;
        while c < ROW_WIDTH
            invariant
                pixel_data@.len() == len,
                nrows * 128 == len,
                r < nrows,
                c <= 128,
                base == (nrows - 1 - r) * 128,
                out@.len() == r * 128 + c,
                forall|i: int| 0 <= i < out@.len() ==> out@[i] == norm_rows(pixel_data@)[i],
            decreases 128 - c,
        {
            assert(base + c < pixel_data@.len());
            let byte = pixel_data[base + c];
            proof {
                let i = r * 128 + c;
                assert(i / 128 == r && i % 128 == c) by (nonlinear_arith)
                    requires
                        i == r * 128 + c,
                        0 <= c < 128,
                        0 <= r,
                ;
                assert(norm_rows(pixel_data@)[i as int] == pixel_data@[base + c]);
            }
            out.push(byte);
            c += 1;
        }
        r += 1;
    }
    assert(out@ =~= norm_rows(pixel_data@));
    Ok(out)
}

/// The index into the flat top-down pixel buffer of pixel `k` (row-major
/// within the tile) of tile `t` (row-major across the image, 16 tiles per
/// tile-row).
pub open spec fn tile_src_index(t: int, k: int) -> int {
    (t / 16) * 1024 + (k / 8) * 128 + (t % 16) * 8 + (k % 8)
}

/// The 64 pixel bytes of tile `t`, row-major, taken from the flat top-down
/// pixel buffer `p`.
pub open spec fn spec_tile(p: Seq<u8>, t: int) -> Seq<u8> {
    Seq::new(64, |k: int| p[tile_src_index(t, k)])
}

/// How many whole tiles the flat pixel buffer `p` holds: one per 8 columns
/// in each band of 8 rows.
pub open spec fn tile_count(p: Seq<u8>) -> nat {
    ((p.len() / 128) / 8) * 16
}

/// All tiles of the flat top-down pixel buffer `p`, in row-major order.
pub open spec fn spec_tiles(p: Seq<u8>) -> Seq<Seq<u8>> {
    Seq::new(tile_count(p), |t: int| spec_tile(p, t))
}

/// The views of a sequence of byte vectors.
pub open spec fn views(ts: Seq<Vec<u8>>) -> Seq<Seq<u8>> {
    ts.map_values(|v: Vec<u8>| v@)
}

/// Cuts the flat top-down pixel buffer into 8x8 tiles, row-major: all 16
/// tiles of the first band of 8 rows from left to right, then the next
/// band, and so on. Fails with `InvalidDimensions` exactly when the buffer
/// cannot be divided evenly into whole rows and whole bands.
#[verifier::loop_isolation(false)]
pub fn process_pixel_bytes(pixel_data: &Vec<u8>) -> (r: Result<Vec<Vec<u8>>, ChrError>)
    ensures
        match r {
            Ok(tiles) => pixel_data@.len() % 128 == 0 && (pixel_data@.len() / 128) % 8 == 0
                && views(tiles@) == spec_tiles(pixel_data@),
            Err(e) => e == ChrError::InvalidDimensions
                && (pixel_data@.len() % 128 != 0 || (pixel_data@.len() / 128) % 8 != 0),
        },
{
    let len = pixel_data.len();
    if len % ROW_WIDTH != 0 {
        return Err(ChrError::InvalidDimensions);
    }
    let nrows = len / ROW_WIDTH;
    if nrows % TILE_SIZE != 0 {
        return Err(ChrError::InvalidDimensions);
    }
    let nbands = nrows / TILE_SIZE;
    proof {
        vstd::arithmetic::div_mod::lemma_fundamental_div_mod(len as int, 128);
        vstd::arithmetic::div_mod::lemma_fundamental_div_mod(nrows as int, 8);
        assert(nbands * 1024 == len);
    }
    let mut tiles: Vec<Vec<u8>> = Vec::new();
    let mut bi: usize = 0;
    while bi < nbands
        invariant
            bi <= nbands,
            tiles@.len() == bi * 16,
            forall|t: int| 0 <= t < tiles@.len()
                ==> (#[trigger] tiles@[t])@ == spec_tile(pixel_data@, t),
        decreases nbands - bi,
    {
        let mut ci: usize = 0;
        while ci < 16
            invariant
                ci <= 16,
                tiles@.len() == bi * 16 + ci,
                forall|t: int| 0 <= t < tiles@.len()
                    ==> (#[trigger] tiles@[t])@ == spec_tile(pixel_data@, t),
            decreases 16 - ci,
        {
            let mut tile: Vec<u8> = Vec::new();
            let ghost t = (bi * 16 + ci) as int;
            proof {
                assert(t / 16 == bi && t % 16 == ci) by (nonlinear_arith)
                    requires
                        t == bi * 16 + ci,
                        0 <= ci < 16,
                        0 <= bi,
                ;
            }
            let mut k: usize = 0;
            while k < 8
                invariant
                    k <= 8,
                    tile@.len() == k * 8,
                    forall|x: int| 0 <= x < tile@.len()
                        ==> tile@[x] == pixel_data@[tile_src_index(t, x)],
                decreases 8 - k,
            {
                let mut l: usize = 0;
                while l < 8
                    invariant
                        l <= 8,
                        tile@.len() == k * 8 + l,
                        forall|x: int| 0 <= x < tile@.len()
                            ==> tile@[x] == pixel_data@[tile_src_index(t, x)],
                    decreases 8 - l,
                {
                    let idx = bi * 1024 + k * 128 + ci * 8 + l;
                    let byte = pixel_data[idx];
                    proof {
                        let x = (k * 8 + l) as int;
                        assert(x / 8 == k && x % 8 == l) by (nonlinear_arith)
                            requires
                                x == k * 8 + l,
                                0 <= l < 8,
                                0 <= k,
                        ;
                        assert(tile_src_index(t, x) == idx);
                    }
                    tile.push(byte);
                    l += 1;
                }
                k += 1;
            }
            assert(tile@ =~= spec_tile(pixel_data@, t));
            tiles.push(tile);
            ci += 1;
        }
        bi += 1;
    }
    assert(views(tiles@) =~~= spec_tiles(pixel_data@));
    Ok(tiles)
}

/// Bit `0` (when `high` is false) or bit `1` (when `high` is true) of the
/// pixel index `p`; bits above bit 1 are discarded.
pub open spec fn pixel_bit(p: u8, high: bool) -> u8 {
    if high {
        (p >> 1) & 1
    } else {
        p & 1
    }
}

/// One packed bitplane byte for row `row` of the 64-byte tile `t`: the
/// selected bit of the leftmost pixel lands in the most-significant bit.
pub open spec fn plane_byte(t: Seq<u8>, row: int, high: bool) -> u8 {
    (pixel_bit(t[8 * row], high) << 7) | (pixel_bit(t[8 * row + 1], high) << 6)
        | (pixel_bit(t[8 * row + 2], high) << 5) | (pixel_bit(t[8 * row + 3], high) << 4)
        | (pixel_bit(t[8 * row + 4], high) << 3) | (pixel_bit(t[8 * row + 5], high) << 2)
        | (pixel_bit(t[8 * row + 6], high) << 1) | pixel_bit(t[8 * row + 7], high)
}

/// The 16-byte encoded block of one 64-byte tile: 8 low-bitplane bytes, one
/// per row top to bottom, then 8 high-bitplane bytes in the same order.
pub open spec fn spec_block(t: Seq<u8>) -> Seq<u8> {
    Seq::new(16, |i: int| if i < 8 {
        plane_byte(t, i, false)
    } else {
        plane_byte(t, i - 8, true)
    })
}

/// The full output stream: the encoded blocks of all tiles, concatenated in
/// tile order.
pub open spec fn spec_chr(tiles: Seq<Seq<u8>>) -> Seq<u8> {
    Seq::new(tiles.len() * 16, |i: int| spec_block(tiles[i / 16])[i % 16])
}

/// Encodes every 64-byte tile into its 16-byte block of two bitplanes and
/// concatenates the blocks in tile order.
#[verifier::loop_isolation(false)]
pub fn process_tiles(tile_data: &Vec<Vec<u8>>) -> (out: Vec<u8>)
    requires
        forall|t: int| 0 <= t < tile_data@.len() ==> (#[trigger] tile_data@[t])@.len() == 64,
    ensures
        out@ == spec_chr(views(tile_data@)),
{
    let mut out: Vec<u8> = Vec::new();
    let nt = tile_data.len();
    let mut t: usize = 0;
    while t < nt
        invariant
            t <= nt,
            out@.len() == t * 16,
            forall|i: int| 0 <= i < out@.len()
                ==> out@[i] == spec_chr(views(tile_data@))[i],
        decreases nt - t,
    {
        let tile = &tile_data[t];
        let mut low_bit_plane: Vec<u8> = Vec::new();
        let mut hi_bit_plane: Vec<u8> = Vec::new();
        let mut row: usize = 0;
        while row < 8
            invariant
                row <= 8,
                low_bit_plane@.len() == row,
                hi_bit_plane@.len() == row,
                forall|i: int| 0 <= i < row ==> low_bit_plane@[i] == plane_byte(tile@, i, false),
                forall|i: int| 0 <= i < row ==> hi_bit_plane@[i] == plane_byte(tile@, i, true),
            decreases 8 - row,
        {
            let base = row * TILE_SIZE;
            let p0 = tile[base];
            let p1 = tile[base + 1];
            let p2 = tile[base + 2];
            let p3 = tile[base + 3];
            let p4 = tile[base + 4];
            let p5 = tile[base + 5];
            let p6 = tile[base + 6];
            let p7 = tile[base + 7];
            let lb: u8 = ((p0 & 1) << 7) | ((p1 & 1) << 6) | ((p2 & 1) << 5) | ((p3 & 1) << 4)
                | ((p4 & 1) << 3) | ((p5 & 1) << 2) | ((p6 & 1) << 1) | (p7 & 1);
            let hb: u8 = (((p0 >> 1) & 1) << 7) | (((p1 >> 1) & 1) << 6) | (((p2 >> 1) & 1) << 5)
                | (((p3 >> 1) & 1) << 4) | (((p4 >> 1) & 1) << 3) | (((p5 >> 1) & 1) << 2)
                | (((p6 >> 1) & 1) << 1) | ((p7 >> 1) & 1);
            assert(lb == plane_byte(tile@, row as int, false));
            assert(hb == plane_byte(tile@, row as int, true));
            low_bit_plane.push(lb);
            hi_bit_plane.push(hb);
            row += 1;
        }
        let mut i: usize = 0;
        while i < 8
            invariant
                i <= 8,
                out@.len() == t * 16 + i,
                forall|j: int| 0 <= j < out@.len()
                    ==> out@[j] == spec_chr(views(tile_data@))[j],
            decreases 8 - i,
        {
            let byte = low_bit_plane[i];
            proof {
                let j = (t * 16 + i) as int;
                assert(j / 16 == t && j % 16 == i) by (nonlinear_arith)
                    requires
                        j == t * 16 + i,
                        0 <= i < 8,
                        0 <= t,
                ;
            }
            out.push(byte);
            i += 1;
        }
        let mut i2: usize = 0;
        while i2 < 8
            invariant
                i2 <= 8,
                out@.len() == t * 16 + 8 + i2,
                forall|j: int| 0 <= j < out@.len()
                    ==> out@[j] == spec_chr(views(tile_data@))[j],
            decreases 8 - i2,
        {
            let byte = hi_bit_plane[i2];
            proof {
                let j = (t * 16 + 8 + i2) as int;
                assert(j / 16 == t && j % 16 == 8 + i2) by (nonlinear_arith)
                    requires
                        j == t * 16 + 8 + i2,
                        0 <= i2 < 8,
                        0 <= t,
                ;
            }
            out.push(byte);
            i2 += 1;
        }
        t += 1;
    }
    assert(out@ =~= spec_chr(views(tile_data@)));
    out
}

/// The pixel-data region of the raw file buffer: everything from the
/// declared pixel-data offset to the end of the buffer.
pub open spec fn spec_pixels(b: Seq<u8>) -> Seq<u8> {
    b.subrange(spec_pixel_data_address(b), b.len() as int)
}

/// What the whole pipeline returns on the raw file buffer `b`: the packed
/// tile stream when every check passes, and otherwise the error of the
/// first check that fails, in the order the pipeline applies them.
pub open spec fn spec_convert(b: Seq<u8>) -> Result<Seq<u8>, ChrError> {
    if spec_verify_header(b) is Err {
        Err(spec_verify_header(b)->Err_0)
    } else if b.len() < 0x22 {
        Err(ChrError::TruncatedHeader)
    } else if spec_width(b) != 128 {
        Err(ChrError::UnsupportedWidth)
    } else if spec_abs_height(b) % 8 != 0 {
        Err(ChrError::UnsupportedHeight)
    } else if spec_bpp(b) > 8 {
        Err(ChrError::UnsupportedColorDepth)
    } else if spec_compression(b) != 0 {
        Err(ChrError::UnsupportedCompression)
    } else if spec_pixel_data_address(b) > b.len() {
        Err(ChrError::MalformedPixelData)
    } else if spec_pixels(b).len() % 128 != 0 {
        Err(ChrError::MalformedPixelData)
    } else if (spec_pixels(b).len() / 128) % 8 != 0 {
        Err(ChrError::InvalidDimensions)
    } else {
        Ok(spec_chr(spec_tiles(norm_rows(spec_pixels(b)))))
    }
}

/// Runs the whole pipeline on a raw bitmap file buffer: header
/// verification, header-field validation, scanline normalization, tile
/// partitioning, and bitplane encoding.
#[verifier::loop_isolation(false)]
pub fn convert(bitmap: &Bitmap) -> (r: Result<Vec<u8>, ChrError>)
    ensures
        match r {
            Ok(out) => spec_convert(bitmap.bytes@) == Ok::<Seq<u8>, ChrError>(out@),
            Err(e) => spec_convert(bitmap.bytes@) == Err::<Seq<u8>, ChrError>(e),
        },
{
    if let Err(e) = bitmap.verify_header() {
        return Err(e);
    }
    if bitmap.len() < 0x22 {
        return Err(ChrError::TruncatedHeader);
    }
    if bitmap.get_width() != 128 {
        return Err(ChrError::UnsupportedWidth);
    }
    let height = bitmap.get_height();
    let habs: i64 = if height < 0 {
        -(height as i64)
    } else {
        height as i64
    };
    if habs % 8 != 0 {
        return Err(ChrError::UnsupportedHeight);
    }
    if bitmap.get_bpp() > 8 {
        return Err(ChrError::UnsupportedColorDepth);
    }
    if bitmap.get_compression_format() != 0 {
        return Err(ChrError::UnsupportedCompression);
    }
    let offset = bitmap.get_pixel_data_address();
    let len = bitmap.len();
    if offset > len {
        return Err(ChrError::MalformedPixelData);
    }
    let mut pixel_data: Vec<u8> = Vec::new();
    let mut i = offset;
    while i < len
        invariant
            offset <= i <= len,
            pixel_data@ == bitmap.bytes@.subrange(offset as int, i as int),
        decreases len - i,
    {
        let byte = bitmap.bytes[i];
        pixel_data.push(byte);
        proof {
            assert(pixel_data@ =~= bitmap.bytes@.subrange(offset as int, i + 1));
        }
        i += 1;
    }
    let normalized = match reverse_scanlines(&pixel_data) {
        Ok(v) => v,
        Err(e) => {
            return Err(e);
        },
    };
    let tiles = match process_pixel_bytes(&normalized) {
        Ok(v) => v,
        Err(e) => {
            return Err(e);
        },
    };
    proof {
        assert forall|t: int| 0 <= t < tiles@.len() implies (#[trigger] tiles@[t])@.len() == 64 by {
            assert(views(tiles@)[t] == tiles@[t]@);
            assert(spec_tiles(normalized@)[t].len() == 64);
        }
    }
    let out = process_tiles(&tiles);
    Ok(out)
}

proof fn lemma_pixel_bit_le_one(p: u8, high: bool)
    ensures
        pixel_bit(p, high) <= 1,
{
    assert(p & 1 <= 1) by (bit_vector);
    assert((p >> 1) & 1 <= 1) by (bit_vector);
}

/// Bit `7 - col` of a packed bitplane byte is exactly the selected bit of
/// the pixel in column `col` of that row: packing loses nothing but the
/// pixels' upper bits.
pub proof fn lemma_plane_extract(t: Seq<u8>, row: int, col: int, high: bool)
    requires
        t.len() == 64,
        0 <= row < 8,
        0 <= col < 8,
    ensures
        (plane_byte(t, row, high) >> ((7 - col) as u8)) & 1 == pixel_bit(t[8 * row + col], high),
{
    let x0: u8 = pixel_bit(t[8 * row], high);
    let x1: u8 = pixel_bit(t[8 * row + 1], high);
    let x2: u8 = pixel_bit(t[8 * row + 2], high);
    let x3: u8 = pixel_bit(t[8 * row + 3], high);
    let x4: u8 = pixel_bit(t[8 * row + 4], high);
    let x5: u8 = pixel_bit(t[8 * row + 5], high);
    let x6: u8 = pixel_bit(t[8 * row + 6], high);
    let x7: u8 = pixel_bit(t[8 * row + 7], high);
    lemma_pixel_bit_le_one(t[8 * row], high);
    lemma_pixel_bit_le_one(t[8 * row + 1], high);
    lemma_pixel_bit_le_one(t[8 * row + 2], high);
    lemma_pixel_bit_le_one(t[8 * row + 3], high);
    lemma_pixel_bit_le_one(t[8 * row + 4], high);
    lemma_pixel_bit_le_one(t[8 * row + 5], high);
    lemma_pixel_bit_le_one(t[8 * row + 6], high);
    lemma_pixel_bit_le_one(t[8 * row + 7], high);
    let b: u8 = plane_byte(t, row, high);
    assert(b == (x0 << 7) | (x1 << 6) | (x2 << 5) | (x3 << 4) | (x4 << 3) | (x5 << 2) | (x6 << 1)
        | x7);
    if col == 0 {
        assert((b >> 7u8) & 1 == x0) by (bit_vector)
            requires
                b == (x0 << 7) | (x1 << 6) | (x2 << 5) | (x3 << 4) | (x4 << 3) | (x5 << 2) | (
                x6 << 1) | x7,
                x0 <= 1, x1 <= 1, x2 <= 1, x3 <= 1, x4 <= 1, x5 <= 1, x6 <= 1, x7 <= 1,
        ;
    } else if col == 1 {
        assert((b >> 6u8) & 1 == x1) by (bit_vector)
            requires
                b == (x0 << 7) | (x1 << 6) | (x2 << 5) | (x3 << 4) | (x4 << 3) | (x5 << 2) | (
                x6 << 1) | x7,
                x0 <= 1, x1 <= 1, x2 <= 1, x3 <= 1, x4 <= 1, x5 <= 1, x6 <= 1, x7 <= 1,
        ;
    } else if col == 2 {
        assert((b >> 5u8) & 1 == x2) by (bit_vector)
            requires
                b == (x0 << 7) | (x1 << 6) | (x2 << 5) | (x3 << 4) | (x4 << 3) | (x5 << 2) | (
                x6 << 1) | x7,
                x0 <= 1, x1 <= 1, x2 <= 1, x3 <= 1, x4 <= 1, x5 <= 1, x6 <= 1, x7 <= 1,
        ;
    } else if col == 3 {
        assert((b >> 4u8) & 1 == x3) by (bit_vector)
            requires
                b == (x0 << 7) | (x1 << 6) | (x2 << 5) | (x3 << 4) | (x4 << 3) | (x5 << 2) | (
                x6 << 1) | x7,
                x0 <= 1, x1 <= 1, x2 <= 1, x3 <= 1, x4 <= 1, x5 <= 1, x6 <= 1, x7 <= 1,
        ;
    } else if col == 4 {
        assert((b >> 3u8) & 1 == x4) by (bit_vector)
            requires
                b == (x0 << 7) | (x1 << 6) | (x2 << 5) | (x3 << 4) | (x4 << 3) | (x5 << 2) | (
                x6 << 1) | x7,
                x0 <= 1, x1 <= 1, x2 <= 1, x3 <= 1, x4 <= 1, x5 <= 1, x6 <= 1, x7 <= 1,
        ;
    } else if col == 5 {
        assert((b >> 2u8) & 1 == x5) by (bit_vector)
            requires
                b == (x0 << 7) | (x1 << 6) | (x2 << 5) | (x3 << 4) | (x4 << 3) | (x5 << 2) | (
                x6 << 1) | x7,
                x0 <= 1, x1 <= 1, x2 <= 1, x3 <= 1, x4 <= 1, x5 <= 1, x6 <= 1, x7 <= 1,
        ;
    } else if col == 6 {
        assert((b >> 1u8) & 1 == x6) by (bit_vector)
            requires
                b == (x0 << 7) | (x1 << 6) | (x2 << 5) | (x3 << 4) | (x4 << 3) | (x5 << 2) | (
                x6 << 1) | x7,
                x0 <= 1, x1 <= 1, x2 <= 1, x3 <= 1, x4 <= 1, x5 <= 1, x6 <= 1, x7 <= 1,
        ;
    } else {
        assert((b >> 0u8) & 1 == x7) by (bit_vector)
            requires
                b == (x0 << 7) | (x1 << 6) | (x2 << 5) | (x3 << 4) | (x4 << 3) | (x5 << 2) | (
                x6 << 1) | x7,
                x0 <= 1, x1 <= 1, x2 <= 1, x3 <= 1, x4 <= 1, x5 <= 1, x6 <= 1, x7 <= 1,
        ;
    }
}

/// The 2-bit pixel value read back out of an encoded block: bit `7 - k % 8`
/// of low-bitplane byte `k / 8` is the low bit, the matching bit of
/// high-bitplane byte `8 + k / 8` is the high bit.
pub open spec fn decoded_pixel(block: Seq<u8>, k: int) -> u8 {
    ((block[k / 8] >> ((7 - k % 8) as u8)) & 1) | (((block[8 + k / 8] >> ((7 - k % 8) as u8))
        & 1) << 1)
}

/// Round trip: decoding the low and high bitplanes of an encoded block
/// reconstructs, for every pixel of the tile, exactly the pixel's original
/// index masked to its low two bits.
pub proof fn lemma_block_round_trip(t: Seq<u8>, k: int)
    requires
        t.len() == 64,
        0 <= k < 64,
    ensures
        decoded_pixel(spec_block(t), k) == t[k] & 3,
{
    let row = k / 8;
    let col = k % 8;
    let blk = spec_block(t);
    assert(blk[row] == plane_byte(t, row, false));
    assert(blk[8 + row] == plane_byte(t, row, true));
    lemma_plane_extract(t, row, col, false);
    lemma_plane_extract(t, row, col, true);
    assert(8 * row + col == k);
    let p: u8 = t[k];
    assert((p & 1) | (((p >> 1) & 1) << 1) == p & 3) by (bit_vector);
}

/// The conversion is deterministic: running the pipeline twice on
/// byte-identical input buffers yields byte-identical results.
pub proof fn lemma_convert_deterministic(b1: Seq<u8>, b2: Seq<u8>)
    requires
        b1 == b2,
    ensures
        spec_convert(b1) == spec_convert(b2),
{
}

/// On every input the pipeline accepts, the output length is
/// `(width / 8) * (|height| / 8) * 16`, provided the pixel-data region
/// holds exactly `|height|` rows (a file with surplus rows after the
/// declared image yields correspondingly more blocks).
pub proof fn lemma_output_length(b: Seq<u8>)
    requires
        spec_convert(b) is Ok,
        spec_pixels(b).len() / 128 == spec_abs_height(b),
    ensures
        spec_convert(b)->Ok_0.len() == ((spec_width(b) as int) / 8) * (spec_abs_height(b) / 8)
            * 16,
{
    let pix = spec_pixels(b);
    let out = spec_convert(b)->Ok_0;
    let ah = spec_abs_height(b);
    assert(out == spec_chr(spec_tiles(norm_rows(pix))));
    assert(norm_rows(pix).len() == pix.len());
    assert(out.len() == tile_count(norm_rows(pix)) * 16);
    assert(out.len() == (ah / 8) * 256);
    assert(spec_width(b) == 128);
    assert((spec_width(b) as int) / 8 == 16);
    assert(((spec_width(b) as int) / 8) * (ah / 8) * 16 == (ah / 8) * 256)
        by (nonlinear_arith)
        requires
            (spec_width(b) as int) / 8 == 16,
    ;
}

/// Row order: bit 7 of the first output byte (low-bitplane byte 0 of the
/// first block) is bit 0 of the pixel at the image's top-left corner, which
/// the bottom-up source buffer stores as the first byte of its last row.
pub proof fn lemma_first_block_top_left(b: Seq<u8>)
    requires
        spec_convert(b) is Ok,
        spec_pixel_data_address(b) < b.len(),
    ensures
        (spec_convert(b)->Ok_0[0] >> 7u8) & 1 == norm_rows(spec_pixels(b))[0] & 1,
        norm_rows(spec_pixels(b))[0] == b[b.len() - 128],
{
    let pix = spec_pixels(b);
    let norm = norm_rows(pix);
    let tiles = spec_tiles(norm);
    let out = spec_convert(b)->Ok_0;
    assert(out == spec_chr(tiles));
    assert(pix.len() % 128 == 0 && (pix.len() / 128) % 8 == 0);
    vstd::arithmetic::div_mod::lemma_fundamental_div_mod(pix.len() as int, 128);
    vstd::arithmetic::div_mod::lemma_fundamental_div_mod((pix.len() / 128) as int, 8);
    assert(pix.len() >= 1024);
    assert(tiles.len() >= 16);
    assert(out[0] == spec_block(tiles[0])[0]);
    assert(spec_block(tiles[0])[0] == plane_byte(tiles[0], 0, false));
    assert(tiles[0] == spec_tile(norm, 0));
    lemma_plane_extract(tiles[0], 0, 0, false);
    assert(tile_src_index(0, 0) == 0);
    assert(tiles[0][0] == norm[0]);
    assert(norm[0] == pix[pix.len() - 128]);
}

} // verus!
