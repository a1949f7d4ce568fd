//! zstd compression of the rendered result and decompression of incoming
//! payloads.
use vstd::prelude::*;
use std::io::Read;

verus! {

#[verifier::external_type_specification]
#[verifier::external_body]
pub struct ExIoError(std::io::Error);

/// What can go wrong while decompressing.
#[derive(Debug)]
pub enum CompressorError {
    /// The input is no valid zstd stream, or its content is no UTF-8 text.
    Decompress(std::io::Error),
}

// ---------------------------------------------------------------------------
// Decompression
// ---------------------------------------------------------------------------

/// The name for what decoding a zstd stream as UTF-8 text comes to: the
/// text, or `None` where the stream or its text is not valid.
pub uninterp spec fn zstd_decoded(input: Seq<u8>) -> Option<Seq<char>>;

/// `zstd::Decoder::new(input)` followed by `Read::read_to_string(out)`: the
/// decoding of one zstd stream, appended to `out`. Whether it succeeds and
/// what it decodes to depend on the input bytes alone, and are named. On
/// success `out` has the decoded text appended; on failure `std`'s
/// `read_to_string` keeps what was already in `out` (it never removes from
/// it) and may keep a valid prefix of the decoded text, which is left
/// unsaid.
#[verifier::external_body]
fn zstd_read_to_string(input: &[u8], out: &mut String) -> (r: Result<usize, std::io::Error>)
    ensures
        r is Ok <==> zstd_decoded(input@) is Some,
        zstd_decoded(input@) matches Some(text) ==> final(out)@ == old(out)@ + text,
        old(out)@.is_prefix_of(final(out)@),
{
    let mut decoder = zstd::Decoder::new(input)?;
    decoder.read_to_string(out)
}

/// Decompresses a zstd stream holding UTF-8 text and appends the text to
/// `out`: it succeeds exactly where the stream decodes to text, and then
/// `out` gains that text; otherwise `out` keeps what it held in front.
pub fn decompress(input: &[u8], out: &mut String) -> (r: Result<(), CompressorError>)
    ensures
        r is Ok <==> zstd_decoded(input@) is Some,
        zstd_decoded(input@) matches Some(text) ==> final(out)@ == old(out)@ + text,
        old(out)@.is_prefix_of(final(out)@),
{
    match zstd_read_to_string(input, out) {
        Ok(_) => Ok(()),
        Err(e) => Err(CompressorError::Decompress(e)),
    }
}

// ---------------------------------------------------------------------------
// Compression
// ---------------------------------------------------------------------------

/// The largest input zstd accepts in one pass: `ZSTD_MAX_INPUT_SIZE`.
pub open spec fn zstd_max_input() -> int {
    if usize::BITS == 64 {
        0xFF00FF00FF00FF00
    } else {
        0xFF00FF00
    }
}

/// `ZSTD_compressBound`: the worst-case compressed size of `n` bytes,
/// `n + n / 256` plus a margin of up to 64 bytes below 128 KiB; past the
/// largest input, zstd's error code for a wrong source size.
pub open spec fn compress_bound(n: int) -> int {
    if n >= zstd_max_input() {
        usize::MAX - 71
    } else {
        n + n / 256 + if n < 131072 {
            (131072 - n) / 2048
        } else {
            0
        }
    }
}

/// `zstd::zstd_safe::compress_bound`, which returns `ZSTD_compressBound`.
#[verifier::external_body]
fn zstd_compress_bound(src_size: usize) -> (r: usize)
    ensures
        r == compress_bound(src_size as int),
{
    zstd::zstd_safe::compress_bound(src_size)
}

/// The largest size that compressing `src_size` bytes in one pass can take.
pub fn max_compressed_size(src_size: usize) -> (r: usize)
    ensures
        r == compress_bound(src_size as int),
{
    zstd_compress_bound(src_size)
}

/// The name for what compressing a text at a level into a buffer of a
/// given capacity comes to: the zstd frame, or `None` where compression
/// fails.
pub uninterp spec fn zstd_compressed(input: Seq<char>, level: i32, capacity: nat) -> Option<Seq<u8>>;

/// `zstd::bulk::compress_to_buffer(input.as_bytes(), out, level)`. Whether
/// it succeeds and the frame it writes depend on the text, the level and
/// the buffer's capacity alone, and are named; when it fails (a buffer too
/// small, among others) is left unsaid. On success the first `n` bytes of
/// `out` hold the frame, and decoding that frame gives back the text; the
/// buffer keeps its length; what the bytes past the frame hold is left
/// unsaid.
#[verifier::external_body]
fn zstd_compress_to_buffer(input: &str, out: &mut [u8], level: i32) -> (r: Result<usize, std::io::Error>)
    ensures
        final(out)@.len() == old(out)@.len(),
        r is Ok <==> zstd_compressed(input@, level, old(out)@.len()) is Some,
        r matches Ok(n) ==> n <= final(out)@.len() && zstd_compressed(input@, level, old(out)@.len())
            == Some(final(out)@.take(n as int)),
        r matches Ok(n) ==> zstd_decoded(final(out)@.take(n as int)) == Some(input@),
{
    zstd::bulk::compress_to_buffer(input.as_bytes(), out, level)
}

/// Compresses `input` at `level` into `out`: it succeeds exactly where the
/// named compression does, and then returns the size of the frame, which
/// fills the front of `out`; decompressing that frame gives `input` back.
pub fn compress(input: &str, level: i32, out: &mut [u8]) -> (r: Result<usize, std::io::Error>)
    ensures
        final(out)@.len() == old(out)@.len(),
        r is Ok <==> zstd_compressed(input@, level, old(out)@.len()) is Some,
        r matches Ok(n) ==> n <= final(out)@.len() && zstd_compressed(input@, level, old(out)@.len())
            == Some(final(out)@.take(n as int)),
        r matches Ok(n) ==> zstd_decoded(final(out)@.take(n as int)) == Some(input@),
{
    zstd_compress_to_buffer(input, out, level)
}

} // verus!
