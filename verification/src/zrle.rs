//! ZRLE (Zlib Run-Length Encoding) decoder, encoding type 16.
//!
//! ZRLE rectangles are zlib-compressed streams of 64x64 tiles. The tile format
//! is identical to TRLE (encoding 15); this module only wires the tile decoder
//! and the zlib stream of the session together.

use vstd::prelude::*;

use crate::error::{protocol_error, Failure, VncError};
use crate::framebuffer::Framebuffer;
use crate::pixel_format::PixelFormat;
use crate::raster::{paint, tile_count, count_along, Decoded};
use crate::trle::{decode_tiles, tiles_decoded, TILE_SIZE};
use crate::zlib::{
    chunk_read, chunk_verdict, held, inflation, inflation_bytes, is_zlib_header, read_len_prefixed,
    starts_stream, ChunkRead, SessionInflate, MAX_COMPRESSED_LEN,
};

verus! {

/// The most bytes that the tiles of a rectangle can take.
pub open spec fn max_output(width: nat, height: nat, format: PixelFormat) -> nat {
    width * height * (format.cpixel_len() + 1) + tile_count(width, height, TILE_SIZE as nat) + 64
}

/// What the inflated tiles come to: the rectangle, or why there is none.
pub open spec fn tiles_verdict(data: Seq<u8>, width: nat, height: nat, format: PixelFormat) -> Result<
    Seq<u32>,
    Failure,
> {
    match tiles_decoded(data, width, height, format) {
        Decoded::Incomplete => Err(Failure::Io("failed to fill whole buffer"@)),
        Decoded::Refused(e) => Err(e),
        Decoded::Done { raster, used } => Ok(raster),
    }
}

/// Paints the inflated tiles of a rectangle.
pub fn paint_tiles(
    data: &[u8],
    fb: &mut Framebuffer,
    x: usize,
    y: usize,
    width: usize,
    height: usize,
    format: &PixelFormat,
) -> (r: Result<(), VncError>)
    requires
        width * height <= usize::MAX,
        old(fb).addressable(x, y, width, height),
    ensures
        match tiles_verdict(data@, width as nat, height as nat, *format) {
            Ok(raster) => r is Ok && final(fb)@ == old(fb)@.with_raster(
                x as int,
                y as int,
                width as int,
                height as int,
                raster,
            ),
            Err(f) => r matches Err(e) && e@ == f && final(fb)@ == old(fb)@,
        },
        final(fb)@.data.len() == old(fb)@.data.len(),
{
    match decode_tiles(data, width, height, format) {
        Ok(None) => Err(VncError::Io("failed to fill whole buffer".to_owned())),
        Ok(Some((raster, _))) => {
            paint(fb, x, y, width, height, &raster);
            Ok(())
        },
        Err(e) => Err(e),
    }
}

/// Computes [`max_output`].
pub fn output_limit(width: usize, height: usize, format: &PixelFormat) -> (r: u64)
    requires
        width * height * 33 + 64 <= u64::MAX,
    ensures
        r == max_output(width as nat, height as nat, *format),
        r <= width * height * 33 + 64,
{
    let across: usize = count_along(width, TILE_SIZE);
    let down: usize = count_along(height, TILE_SIZE);
    let len: usize = format.bytes_per_cpixel();
    assert(across * down <= width * height && 0 <= across * down) by (nonlinear_arith)
        requires
            0 <= across <= width,
            0 <= down <= height,
    ;
    assert(0 <= width * height <= width * height * 33 && 0 <= width * height * (len + 1) <= width
        * height * 32) by (nonlinear_arith)
        requires
            width >= 0,
            height >= 0,
            0 <= len <= 31,
    ;
    width as u64 * height as u64 * (len as u64 + 1) + across as u64 * down as u64 + 64
}

/// What a chunk comes to, given what came out of it.
pub open spec fn zrle_verdict(
    out: Option<Seq<u8>>,
    width: nat,
    height: nat,
    format: PixelFormat,
) -> Result<Seq<u32>, Failure> {
    match chunk_verdict(out, 0, max_output(width, height, format)) {
        Err(f) => Err(f),
        Ok(data) => tiles_verdict(data, width, height, format),
    }
}

/// What the stream of the session has been given, if there is one.
pub open spec fn calls_of(session: Option<SessionInflate>) -> Option<Seq<Seq<u8>>> {
    match session {
        Some(s) => Some(s.calls()),
        None => None,
    }
}

/// What the stream that takes a chunk has been given: nothing where the chunk
/// starts a stream, else what the stream of the session has. `None` if there is
/// none.
pub open spec fn calls_for(calls: Option<Seq<Seq<u8>>>, chunk: Seq<u8>) -> Option<Seq<Seq<u8>>> {
    if starts_stream(chunk) {
        Some(Seq::empty())
    } else {
        calls
    }
}

/// Decode a ZRLE-encoded rectangle into the framebuffer.
///
/// `decompress` is maintained across rectangles to support servers that keep a
/// single zlib stream open for the whole session. It is reset whenever a fresh
/// zlib header is seen at the start of a rectangle. `None` asks for more bytes.
pub fn decode(
    input: &[u8],
    decompress: &mut Option<SessionInflate>,
    fb: &mut Framebuffer,
    rect_x: usize,
    rect_y: usize,
    rect_w: usize,
    rect_h: usize,
    pixel_format: &PixelFormat,
) -> (r: Result<Option<usize>, VncError>)
    requires
        old(fb).addressable(rect_x, rect_y, rect_w, rect_h),
        rect_w * rect_h <= usize::MAX,
        rect_w * rect_h * 33 + 64 <= u64::MAX,
    ensures
        match chunk_read(input@, MAX_COMPRESSED_LEN as nat) {
            ChunkRead::Short => r matches Ok(None) && final(fb)@ == old(fb)@ && calls_of(
                *final(decompress),
            ) == calls_of(*old(decompress)),
            ChunkRead::Bad(f) => r matches Err(e) && e@ == f && final(fb)@ == old(fb)@ && calls_of(
                *final(decompress),
            ) == calls_of(*old(decompress)),
            ChunkRead::Done { data, used } => match calls_for(calls_of(*old(decompress)), data) {
                None => r matches Err(e) && e@ == Failure::Protocol(
                    "ZRLE decompressor not initialized"@,
                ) && final(fb)@ == old(fb)@ && calls_of(*final(decompress)) is None,
                Some(calls) => {
                    let most = max_output(rect_w as nat, rect_h as nat, *pixel_format);
                    let given = inflation(calls, data, held(most));
                    &&& calls_of(*final(decompress)) is Some
                    &&& given matches Some((_, last)) ==> calls_of(*final(decompress)) == Some(last)
                    &&& match zrle_verdict(
                        inflation_bytes(given),
                        rect_w as nat,
                        rect_h as nat,
                        *pixel_format,
                    ) {
                        Ok(raster) => r matches Ok(Some(n)) && n == used && final(fb)@ == old(
                            fb,
                        )@.with_raster(
                            rect_x as int,
                            rect_y as int,
                            rect_w as int,
                            rect_h as int,
                            raster,
                        ),
                        Err(f) => r matches Err(e) && e@ == f && final(fb)@ == old(fb)@,
                    }
                },
            },
        },
{
    let (chunk, used) = match read_len_prefixed(input, MAX_COMPRESSED_LEN) {
        Ok(None) => {
            return Ok(None);
        },
        Err(e) => {
            return Err(e);
        },
        Ok(Some(found)) => found,
    };
    if is_zlib_header(&chunk) {
        *decompress = Some(SessionInflate::new());
    }
    match decompress.take() {
        None => Err(protocol_error("ZRLE decompressor not initialized")),
        Some(session) => {
            let mut session = session;
            assert(0 <= rect_w * rect_h <= rect_w * rect_h * 33) by (nonlinear_arith)
                requires
                    rect_w >= 0,
                    rect_h >= 0,
            ;
            let most: u64 = output_limit(rect_w, rect_h, pixel_format);
            let fed = session.feed(&chunk, 0, most);
            *decompress = Some(session);
            match fed {
                Err(e) => Err(e),
                Ok(data) => {
                    match paint_tiles(&data, fb, rect_x, rect_y, rect_w, rect_h, pixel_format) {
                        Ok(()) => Ok(Some(used)),
                        Err(e) => Err(e),
                    }
                },
            }
        },
    }
}

} // verus!
