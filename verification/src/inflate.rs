//! zlib compression and decompression of complete buffers.

use std::io::{Read, Write};

use vstd::prelude::*;

verus! {

/// The zlib stream that flate2's `ZlibEncoder` makes of `data` at the default
/// compression level.
pub uninterp spec fn deflated(data: Seq<u8>) -> Seq<u8>;

/// What flate2's `ZlibDecoder` reads out of a complete buffer, or `None` if it
/// reports an error.
pub uninterp spec fn inflated(data: Seq<u8>) -> Option<Seq<u8>>;

/// What flate2's `ZlibDecoder`, cut off after `limit` bytes of output, reads out
/// of a complete buffer, or the text of the error that it reports.
pub uninterp spec fn inflated_upto(data: Seq<u8>, limit: nat) -> Result<Seq<u8>, Seq<char>>;

/// flate2's `write::ZlibEncoder` over a `Vec`: the stream depends on the input
/// alone, and decoding it gives the input back.
#[verifier::external_body]
pub(crate) fn zlib_deflate(data: &[u8]) -> (r: Vec<u8>)
    ensures
        r@ == deflated(data@),
        inflated(r@) == Some(data@),
{
    let mut encoder = flate2::write::ZlibEncoder::new(Vec::new(), flate2::Compression::default());
    let _ = encoder.write_all(data);
    encoder.finish().unwrap_or_default()
}

/// flate2's `read::ZlibDecoder` read to its end: the outcome depends on the
/// input alone.
#[verifier::external_body]
pub(crate) fn zlib_inflate(data: &[u8]) -> (r: Option<Vec<u8>>)
    ensures
        match inflated(data@) {
            Some(plain) => r matches Some(v) && v@ == plain,
            None => r is None,
        },
{
    let mut out = Vec::new();
    flate2::read::ZlibDecoder::new(data).read_to_end(&mut out).ok().map(|_| out)
}

/// The bytes that are read of `plain` when reading stops after `limit`.
pub open spec fn cut(plain: Seq<u8>, limit: nat) -> Seq<u8> {
    if plain.len() <= limit {
        plain
    } else {
        plain.take(limit as int)
    }
}

/// flate2's `read::ZlibDecoder` under std's `Read::take`, read to its end: the
/// outcome depends on the input and the limit alone, no more than `limit` bytes
/// come out, and of a buffer that can be read in full they are the first.
#[verifier::external_body]
pub(crate) fn zlib_inflate_upto(data: &[u8], limit: u64) -> (r: Result<Vec<u8>, String>)
    ensures
        match inflated_upto(data@, limit as nat) {
            Ok(plain) => r matches Ok(v) && v@ == plain && v@.len() <= limit,
            Err(text) => r matches Err(s) && s@ == text,
        },
        r is Err ==> inflated(data@) is None,
        r matches Ok(v) ==> (inflated(data@) is Some ==> v@ == cut(
            inflated(data@).unwrap(),
            limit as nat,
        )),
{
    let mut out = Vec::new();
    match flate2::read::ZlibDecoder::new(data).take(limit).read_to_end(&mut out) {
        Ok(_) => Ok(out),
        Err(e) => Err(e.to_string()),
    }
}

/// Compresses `data` into one zlib stream.
pub fn zlib_compress(data: &[u8]) -> (r: Vec<u8>)
    ensures
        r@ == deflated(data@),
        inflated(r@) == Some(data@),
{
    zlib_deflate(data)
}

/// Decompresses one zlib stream; `None` if it is damaged.
pub fn zlib_decompress(data: &[u8]) -> (r: Option<Vec<u8>>)
    ensures
        match inflated(data@) {
            Some(plain) => r matches Some(v) && v@ == plain,
            None => r is None,
        },
{
    zlib_inflate(data)
}

} // verus!
