//! Shared gzip compress/decompress helpers for `gzip` and `tar` (flate2).
use vstd::prelude::*;

verus! {

/// Default compression level (matches GNU gzip).
pub const DEFAULT_GZIP_LEVEL: u32 = 6;

/// What compressing `data` at `level` with flate2's gzip encoder yields:
/// the compressed stream, or the text of the I/O error.
pub uninterp spec fn gzip_compressed(data: Seq<u8>, level: u32) -> Result<Seq<u8>, Seq<char>>;

/// What decompressing `data` with flate2's gzip decoder yields: the
/// decompressed bytes, or the text of the I/O error.
pub uninterp spec fn gzip_decompressed(data: Seq<u8>) -> Result<Seq<u8>, Seq<char>>;

/// Whether `data` begins with the gzip magic bytes 0x1f 0x8b.
pub open spec fn has_gzip_magic(data: Seq<u8>) -> bool {
    data.len() >= 2 && data[0] == 0x1f && data[1] == 0x8b
}

/// Compresses `data` through `flate2::write::GzEncoder` over a `Vec`, at
/// `Compression::new(level)`: `write_all` then `finish`, errors as their
/// display text. The result is named by `gzip_compressed`; of a success the
/// source shows the 10-byte header, which opens with 0x1f 0x8b, and the
/// 8-byte trailer, and a gzip stream decodes to the bytes it was made from
/// (the round trip that flate2 documents for its encoder and decoder).
/// Levels above 10 trip a debug assertion in the backend.
#[verifier::external_body]
fn gzip_encode(data: &[u8], level: u32) -> (r: Result<Vec<u8>, String>)
    requires
        level <= 10,
    ensures
        match r {
            Ok(v) => gzip_compressed(data@, level) == Ok::<Seq<u8>, Seq<char>>(v@)
                && v@.len() >= 18 && has_gzip_magic(v@)
                && gzip_decompressed(v@) == Ok::<Seq<u8>, Seq<char>>(data@),
            Err(e) => gzip_compressed(data@, level) == Err::<Seq<u8>, Seq<char>>(e@),
        },
{
    let mut encoder = flate2::write::GzEncoder::new(Vec::new(), flate2::Compression::new(level));
    std::io::Write::write_all(&mut encoder, data).map_err(|e| e.to_string())?;
    encoder.finish().map_err(|e| e.to_string())
}

/// Decompresses `data` through `flate2::read::GzDecoder` and `read_to_end`,
/// errors as their display text. The result is named by `gzip_decompressed`.
#[verifier::external_body]
fn gzip_decode(data: &[u8]) -> (r: Result<Vec<u8>, String>)
    ensures
        match r {
            Ok(v) => gzip_decompressed(data@) == Ok::<Seq<u8>, Seq<char>>(v@),
            Err(e) => gzip_decompressed(data@) == Err::<Seq<u8>, Seq<char>>(e@),
        },
{
    let mut decoder = flate2::read::GzDecoder::new(data);
    let mut decompressed = Vec::new();
    std::io::Read::read_to_end(&mut decoder, &mut decompressed).map_err(|e| e.to_string())?;
    Ok(decompressed)
}

/// Compress at [`DEFAULT_GZIP_LEVEL`] (shared by `tar -z` and callers that mirror GNU defaults).
pub fn compress_gzip_default(data: &[u8]) -> (r: Result<Vec<u8>, String>)
    ensures
        match r {
            Ok(v) => gzip_compressed(data@, DEFAULT_GZIP_LEVEL) == Ok::<Seq<u8>, Seq<char>>(v@)
                && has_gzip_magic(v@) && gzip_decompressed(v@) == Ok::<Seq<u8>, Seq<char>>(data@),
            Err(e) => gzip_compressed(data@, DEFAULT_GZIP_LEVEL) == Err::<Seq<u8>, Seq<char>>(e@),
        },
{
    compress_gzip(data, DEFAULT_GZIP_LEVEL)
}

/// Compress raw bytes with gzip at the given compression level (1–9).
/// What it produces is recognised by [`is_gzip`], and [`decompress_gzip`]
/// gives the input back from it.
pub fn compress_gzip(data: &[u8], level: u32) -> (r: Result<Vec<u8>, String>)
    requires
        level <= 10,
    ensures
        match r {
            Ok(v) => gzip_compressed(data@, level) == Ok::<Seq<u8>, Seq<char>>(v@)
                && has_gzip_magic(v@) && gzip_decompressed(v@) == Ok::<Seq<u8>, Seq<char>>(data@),
            Err(e) => gzip_compressed(data@, level) == Err::<Seq<u8>, Seq<char>>(e@),
        },
{
    gzip_encode(data, level)
}

/// Decompress gzip-compressed bytes.
pub fn decompress_gzip(data: &[u8]) -> (r: Result<Vec<u8>, String>)
    ensures
        match r {
            Ok(v) => gzip_decompressed(data@) == Ok::<Seq<u8>, Seq<char>>(v@),
            Err(e) => gzip_decompressed(data@) == Err::<Seq<u8>, Seq<char>>(e@),
        },
{
    gzip_decode(data)
}

/// True if `data` begins with gzip magic bytes (0x1f 0x8b).
pub fn is_gzip(data: &[u8]) -> (r: bool)
    ensures
        r == has_gzip_magic(data@),
{
    data.len() >= 2 && data[0] == 0x1f && data[1] == 0x8b
}

} // verus!
