//! RRE (Rise-and-Run-length Encoding) decoder, encoding type 2.
//!
//! A background colour, then rectangles in colours of their own.

pub mod written;

use vstd::prelude::*;

use crate::error::VncError;
use crate::framebuffer::Framebuffer;
use crate::pixel_format::PixelFormat;
use crate::raster::{blank, blank_raster, colour, colour_of, fill, filled, paint, painted, reports, Decoded};
use crate::wire::{slice, u16_at, u16_of, u32_at, u32_of};

verus! {

/// The raster after the first `n` rectangles, of which `body` holds each as a
/// pixel, a position and a size.
pub open spec fn after_subrects(
    raster: Seq<u32>,
    stride: int,
    format: PixelFormat,
    body: Seq<u8>,
    n: nat,
) -> Seq<u32>
    decreases n,
{
    if n == 0 {
        raster
    } else {
        let len = format.pixel_len();
        let at = (n - 1) * (len + 8);
        filled(
            after_subrects(raster, stride, format, body, (n - 1) as nat),
            stride,
            u16_of(body, at + len) as int,
            u16_of(body, at + len + 2) as int,
            u16_of(body, at + len + 4) as int,
            u16_of(body, at + len + 6) as int,
            colour_of(format, body.subrange(at, at + len)),
        )
    }
}

/// What the bytes `s` say about a rectangle in this encoding.
pub open spec fn rre_decoded(s: Seq<u8>, width: nat, height: nat, format: PixelFormat) -> Decoded {
    let len = format.pixel_len();
    let n = u32_of(s, 0) as nat;
    let total = 4 + len + n * (len + 8);
    if s.len() < 4 || s.len() < total {
        Decoded::Incomplete
    } else {
        Decoded::Done {
            raster: after_subrects(
                blank(width * height, colour_of(format, s.subrange(4, (4 + len) as int))),
                width as int,
                format,
                s.subrange((4 + len) as int, total as int),
                n,
            ),
            used: total,
        }
    }
}

/// Decodes a rectangle.
pub fn decode_raster(input: &[u8], width: usize, height: usize, format: &PixelFormat) -> (r: Result<
    Option<(Vec<u32>, usize)>,
    VncError,
>)
    requires
        width * height <= usize::MAX,
    ensures
        reports(r, rre_decoded(input@, width as nat, height as nat, *format)),
        r matches Ok(Some((raster, used))) ==> raster@.len() == width * height && used
            <= input@.len(),
{
    let len: usize = format.bytes_per_pixel();
    assert(input@.len() == input.len());
    if input.len() < 4 {
        return Ok(None);
    }
    let n: u32 = u32_at(input, 0);
    assert(0 <= n * (len + 8) <= 0xffff_ffff * 39) by (nonlinear_arith)
        requires
            0 <= n <= 0xffff_ffff,
            0 <= len <= 31,
    ;
    let total: u64 = 4 + len as u64 + n as u64 * (len as u64 + 8);
    if (input.len() as u64) < total {
        return Ok(None);
    }
    let total: usize = total as usize;
    let body = slice(input, 4 + len, total);
    let ghost start = blank((width * height) as nat, colour_of(*format, input@.subrange(4, 4 + len)));
    let mut raster: Vec<u32> = blank_raster(
        width * height,
        colour(format, slice(input, 4, 4 + len)),
    );
    let mut i: u32 = 0;
    let mut at: usize = 0;
    while i < n
        invariant
            i <= n,
            len == format.pixel_len(),
            body@.len() == n * (len + 8),
            at == i * (len + 8),
            width * height <= usize::MAX,
            raster@.len() == width * height,
            raster@ == after_subrects(start, width as int, *format, body@, i as nat),
        decreases n - i,
    {
        assert(body@.len() == body.len());
        assert(at + (len + 8) <= n * (len + 8) && (i + 1) * (len + 8) == at + len + 8) by (
        nonlinear_arith)
            requires
                i < n,
                at == i * (len + 8),
        ;
        let c: u32 = colour(format, slice(body, at, at + len));
        fill(
            &mut raster,
            width,
            height,
            u16_at(body, at + len) as usize,
            u16_at(body, at + len + 2) as usize,
            u16_at(body, at + len + 4) as usize,
            u16_at(body, at + len + 6) as usize,
            c,
        );
        at = at + len + 8;
        i = i + 1;
    }
    Ok(Some((raster, total)))
}

/// Decode an RRE-encoded rectangle into the framebuffer. `None` asks for more
/// bytes, and then nothing has been painted.
pub fn decode(
    input: &[u8],
    framebuffer: &mut Framebuffer,
    x: usize,
    y: usize,
    width: usize,
    height: usize,
    pixel_format: &PixelFormat,
) -> (r: Result<Option<usize>, VncError>)
    requires
        width * height <= usize::MAX,
        old(framebuffer).addressable(x, y, width, height),
    ensures
        r matches Ok(Some(used)) ==> used <= input@.len(),
        painted(
            r,
            old(framebuffer)@,
            final(framebuffer)@,
            rre_decoded(input@, width as nat, height as nat, *pixel_format),
            x as int,
            y as int,
            width as int,
            height as int,
        ),
{
    match decode_raster(input, width, height, pixel_format) {
        Ok(None) => Ok(None),
        Ok(Some((raster, used))) => {
            paint(framebuffer, x, y, width, height, &raster);
            Ok(Some(used))
        },
        Err(e) => Err(e),
    }
}

} // verus!
