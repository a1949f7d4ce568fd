//! The pixel read-back of a rendered frame. The GPU copies a texture into a
//! buffer whose rows are padded to a multiple of 256 bytes; the RGBA pixels
//! of the frame are the first `width * 4` bytes of each padded row. The
//! frame then leaves the service as a WebP file.
use vstd::prelude::*;

use crate::lexical::string_of;

verus! {

/// The number of bytes of one row of RGBA pixels, `width * 4`, rounded up
/// to a multiple of 256.
pub open spec fn padded_row_len(width: int) -> int {
    ((width * 4 + 255) / 256) * 256
}

/// The bytes per row of the read-back buffer: `(width * 4 + 255) & !255`.
pub fn padded_bytes_per_row(width: u32) -> (r: u32)
    requires
        width * 4 + 255 <= u32::MAX,
    ensures
        r == padded_row_len(width as int),
        width * 4 <= r < width * 4 + 256,
        r % 256 == 0,
{
    let x: u32 = width * 4 + 255;
    let r: u32 = x & !255u32;
    assert(x & !255u32 == (x / 256) * 256) by (bit_vector);
    r
}

/// The pixels of `height` rows of `row_len` bytes each, taken from a buffer
/// whose rows begin every `stride` bytes.
pub open spec fn unpadded(data: Seq<u8>, row_len: int, stride: int, height: nat) -> Seq<u8>
    decreases height,
{
    if height == 0 {
        Seq::empty()
    } else {
        let row = height - 1;
        unpadded(data, row_len, stride, (height - 1) as nat) + data.subrange(row * stride, row * stride + row_len)
    }
}

proof fn lemma_unpadded_len(data: Seq<u8>, row_len: int, stride: int, height: nat)
    requires
        0 <= row_len <= stride,
        height * stride <= data.len(),
    ensures
        unpadded(data, row_len, stride, height).len() == height * row_len,
    decreases height,
{
    if height > 0 {
        lemma_row_in_buffer(height - 1, stride, row_len, height as int);
        assert((height - 1) * stride <= height * stride) by (nonlinear_arith)
            requires
                0 <= stride,
                height >= 1,
        ;
        lemma_unpadded_len(data, row_len, stride, (height - 1) as nat);
        let row = height - 1;
        assert(data.subrange(row * stride, row * stride + row_len).len() == row_len);
        assert((height - 1) * row_len + row_len == height * row_len) by (nonlinear_arith);
        assert(unpadded(data, row_len, stride, height) == unpadded(data, row_len, stride, (height - 1) as nat) + data.subrange(row * stride, row * stride + row_len));
    } else {
        assert(height * row_len == 0) by (nonlinear_arith)
            requires
                height == 0,
        ;
    }
}

proof fn lemma_row_in_buffer(row: int, stride: int, row_len: int, height: int)
    requires
        0 <= row < height,
        0 <= row_len <= stride,
    ensures
        row * stride + row_len <= height * stride,
        0 <= row * stride,
{
    assert(row * stride + stride <= height * stride) by (nonlinear_arith)
        requires
            0 <= row < height,
            0 <= stride,
    ;
    assert(0 <= row * stride) by (nonlinear_arith)
        requires
            0 <= row,
            0 <= stride,
    ;
}

/// Byte `col` of row `row` of the pixels is byte `col` of row `row` of the
/// buffer: the read-back keeps every pixel where the frame has it.
pub proof fn lemma_pixel_at(data: Seq<u8>, row_len: int, stride: int, height: nat, row: int, col: int)
    requires
        0 <= row_len <= stride,
        height * stride <= data.len(),
        0 <= row < height,
        0 <= col < row_len,
    ensures
        unpadded(data, row_len, stride, height)[row * row_len + col] == data[row * stride + col],
    decreases height,
{
    let h1 = (height - 1) as nat;
    lemma_row_in_buffer(height - 1, stride, row_len, height as int);
    assert((height - 1) * stride <= height * stride) by (nonlinear_arith)
        requires
            0 <= stride,
            height >= 1,
    ;
    lemma_unpadded_len(data, row_len, stride, h1);
    let prefix = unpadded(data, row_len, stride, h1);
    let last = data.subrange(h1 * stride, h1 * stride + row_len);
    assert(unpadded(data, row_len, stride, height) == prefix + last);
    if row == height - 1 {
        assert(row * row_len + col - prefix.len() == col);
        assert(last[col] == data[h1 * stride + col]);
    } else {
        assert(row * row_len + col < h1 * row_len) by (nonlinear_arith)
            requires
                0 <= row < h1,
                0 <= col < row_len,
        ;
        assert(0 <= row * row_len) by (nonlinear_arith)
            requires
                0 <= row,
                0 <= row_len,
        ;
        lemma_pixel_at(data, row_len, stride, h1, row, col);
    }
}

/// The RGBA pixels of a `width` x `height` frame, read out of the padded
/// read-back buffer `mapped`: row by row, the first `width * 4` bytes of
/// each padded row.
pub fn unpad_rows(mapped: &[u8], width: u32, height: u32) -> (pixels: Vec<u8>)
    requires
        width * 4 + 255 <= u32::MAX,
        padded_row_len(width as int) * height <= u32::MAX,
        padded_row_len(width as int) * height <= mapped@.len(),
    ensures
        pixels@ == unpadded(mapped@, width * 4, padded_row_len(width as int), height as nat),
        pixels@.len() == width * 4 * height,
{
    let stride: u32 = padded_bytes_per_row(width);
    let row_len: u32 = width * 4;
    let mut pixels: Vec<u8> = Vec::new();
    let mut row: u32 = 0;
    while row < height
        invariant
            row <= height,
            stride == padded_row_len(width as int),
            row_len == width * 4,
            row_len <= stride,
            stride * height <= u32::MAX,
            stride * height <= mapped@.len(),
            pixels@ == unpadded(mapped@, row_len as int, stride as int, row as nat),
        decreases height - row,
    {
        proof {
            lemma_row_in_buffer(row as int, stride as int, row_len as int, height as int);
        }
        let start: usize = (row * stride) as usize;
        let end: usize = start + row_len as usize;
        let mut i: usize = start;
        let ghost before = pixels@;
        while i < end
            invariant
                start <= i <= end <= mapped@.len(),
                pixels@ == before + mapped@.subrange(start as int, i as int),
            decreases end - i,
        {
            pixels.push(mapped[i]);
            assert(mapped@.subrange(start as int, i + 1) == mapped@.subrange(start as int, i as int).push(mapped@[i as int]));
            i += 1;
        }
        row += 1;
    }
    proof {
        assert(height * stride == stride * height) by (nonlinear_arith);
        lemma_unpadded_len(mapped@, row_len as int, stride as int, height as nat);
        assert(height * (width * 4) == width * 4 * height) by (nonlinear_arith);
    }
    pixels
}


// ---------------------------------------------------------------------------
// WebP
// ---------------------------------------------------------------------------

/// The name for what the WebP encoder makes of an RGBA frame of the given
/// width and height: the bytes of the file, or the text of its error.
pub uninterp spec fn webp_encoded(width: u32, height: u32, pixels: Seq<u8>) -> Result<Seq<u8>, Seq<char>>;

/// `image::RgbaImage::from_raw(width, height, pixels)` written out with
/// `write_to(.., ImageFormat::WebP)`: the bytes of the WebP file, or the
/// encoder's error as its `Display` text. Which bytes those are is named;
/// `requires` admits only pixels enough for the frame, on which `from_raw`
/// succeeds.
#[verifier::external_body]
fn write_webp(width: u32, height: u32, pixels: Vec<u8>) -> (r: Result<Vec<u8>, String>)
    requires
        frame_fits(width, height, pixels@.len()),
    ensures
        match r {
            Ok(b) => webp_encoded(width, height, pixels@) == Ok::<Seq<u8>, Seq<char>>(b@),
            Err(e) => webp_encoded(width, height, pixels@) == Err::<Seq<u8>, Seq<char>>(e@),
        },
{
    let mut out = std::io::Cursor::new(Vec::new());
    match image::RgbaImage::from_raw(width, height, pixels) {
        Some(img) => match img.write_to(&mut out, image::ImageFormat::WebP) {
            Ok(()) => Ok(out.into_inner()),
            Err(e) => Err(e.to_string()),
        },
        None => Err(String::new()),
    }
}

/// Whether `len` bytes hold an RGBA frame of `width` by `height` pixels
/// whose size, `4 * width * height`, a `usize` can count.
pub open spec fn frame_fits(width: u32, height: u32, len: nat) -> bool {
    &&& 4 * width <= usize::MAX
    &&& 4 * width * height <= usize::MAX
    &&& 4 * width * height <= len
}

/// The error when the pixels do not hold the frame.
pub open spec fn short_frame_message() -> Seq<char> {
    "Failed to create RgbaImage from raw pixels"@
}

/// The WebP file of a rendered frame of `width` by `height` RGBA pixels.
/// Pixels too few for the frame give `Failed to create RgbaImage from raw
/// pixels`; otherwise the result is the encoder's, file or error.
pub fn encode_webp(width: u32, height: u32, pixels: Vec<u8>) -> (r: Result<Vec<u8>, String>)
    ensures
        !frame_fits(width, height, pixels@.len()) ==> (r matches Err(m) && m@ == short_frame_message()),
        frame_fits(width, height, pixels@.len()) ==> match webp_encoded(width, height, pixels@) {
            Ok(b) => r matches Ok(v) && v@ == b,
            Err(e) => r matches Err(m) && m@ == e,
        },
{
    let w: u128 = width as u128;
    let h: u128 = height as u128;
    let row: u128 = 4 * w;
    assert(row * h <= 0x4_0000_0000 * 0x1_0000_0000) by (nonlinear_arith)
        requires
            row <= 0x4_0000_0000,
            h <= 0x1_0000_0000,
    ;
    let size: u128 = row * h;
    assert(size == 4 * width * height) by (nonlinear_arith)
        requires
            row == 4 * w,
            size == row * h,
            w == width,
            h == height,
    ;
    let max: u128 = usize::MAX as u128;
    if row <= max && size <= max && size <= pixels.len() as u128 {
        write_webp(width, height, pixels)
    } else {
        Err(string_of("Failed to create RgbaImage from raw pixels"))
    }
}

} // verus!
