//! Zlib encoding decoder (RFB encoding type 6), and the zlib stream that lasts
//! for a whole session.
//!
//! A rectangle is a length-prefixed chunk of the stream; what the chunk
//! inflates to are the pixels of the rectangle.

use vstd::prelude::*;

use crate::error::{Failure, VncError};
use crate::framebuffer::{Framebuffer, Image};
use crate::pixel_format::PixelFormat;
use crate::text::{concat_text, decimal, decimal_text};
use crate::wire::{be32, push_all, push_u32, slice, to_vec, u32_at, u32_of};

verus! {

/// flate2's streaming decompressor.
#[verifier::external_type_specification]
#[verifier::external_body]
pub struct ExDecompress(flate2::Decompress);

/// Longest chunk that is accepted.
pub const MAX_COMPRESSED_LEN: usize = 0x400_0000;

/// What a stream has been given so far: the input of each call.
pub uninterp spec fn fed(stream: flate2::Decompress) -> Seq<Seq<u8>>;

/// How many bytes of its input a stream has taken, given the input of each
/// call. A call may leave some of its input.
pub uninterp spec fn taken(calls: Seq<Seq<u8>>) -> nat;

/// What comes out when a stream that has been given `calls` is given `input`
/// and space enough; `None` where the stream is damaged.
pub uninterp spec fn step_output(calls: Seq<Seq<u8>>, input: Seq<u8>) -> Option<Seq<u8>>;

/// flate2's `Decompress::new`, for a stream with a zlib header: it has not been
/// given anything.
#[verifier::external_body]
fn new_decompress() -> (r: flate2::Decompress)
    ensures
        fed(r) == Seq::<Seq<u8>>::empty(),
{
    flate2::Decompress::new(true)
}

/// flate2's `Decompress::total_in`: it depends on what the stream was given.
#[verifier::external_body]
fn total_in(stream: &flate2::Decompress) -> (r: u64)
    ensures
        r == taken(fed(*stream)),
{
    stream.total_in()
}

/// flate2's `Decompress::decompress_vec` into a fresh vector with space for at
/// least `room` bytes; `None` where it reports an error. As long as the space
/// is not used up, what comes out depends on what the stream was given before
/// and on `input` alone, and at most the whole of `input` is taken. Where the
/// space is used up, either there is at least that much to come out or the
/// stream is damaged further on; which, and what the stream is good for after
/// that or after an error, is left unsaid.
#[verifier::external_body]
fn decompress_step(stream: &mut flate2::Decompress, input: &[u8], room: usize) -> (r: Option<
    Vec<u8>,
>)
    requires
        0 < room <= isize::MAX,
    ensures
        r is None ==> step_output(fed(*old(stream)), input@) is None,
        r matches Some(v) ==> v@.len() < room ==> {
            &&& step_output(fed(*old(stream)), input@) == Some(v@)
            &&& fed(*final(stream)) == fed(*old(stream)).push(input@)
            &&& taken(fed(*old(stream))) <= taken(fed(*final(stream))) <= taken(
                fed(*old(stream)),
            ) + input@.len()
        },
        r matches Some(v) ==> v@.len() >= room ==> match step_output(
            fed(*old(stream)),
            input@,
        ) {
            Some(all) => all.len() >= room,
            None => true,
        },
{
    let mut out = Vec::with_capacity(room);
    stream.decompress_vec(input, &mut out, flate2::FlushDecompress::Sync).ok().map(|_| out)
}

/// The longest output that is accepted, where `most` is asked for: less than the
/// largest vector that the machine has.
pub open spec fn held(most: nat) -> nat {
    if most < isize::MAX {
        most
    } else {
        (isize::MAX - 1) as nat
    }
}

/// What a stream that has been given `calls` makes of a chunk, and what it has
/// been given then: the chunk is offered again, less what was taken of it,
/// until nothing is taken and nothing comes out. `None` if the stream is
/// damaged or more than `most` bytes come out.
pub open spec fn inflation(calls: Seq<Seq<u8>>, chunk: Seq<u8>, most: nat) -> Option<
    (Seq<u8>, Seq<Seq<u8>>),
>
    decreases chunk.len() + most,
{
    let next = calls.push(chunk);
    let took = taken(next) - taken(calls);
    match step_output(calls, chunk) {
        None => None,
        Some(out) => if out.len() > most || took < 0 || took > chunk.len() {
            None
        } else if out.len() == 0 && took == 0 {
            Some((out, next))
        } else {
            match inflation(next, chunk.skip(took), (most - out.len()) as nat) {
                None => None,
                Some((rest, last)) => Some((out + rest, last)),
            }
        },
    }
}

/// The bytes of an inflation.
pub open spec fn inflation_bytes(i: Option<(Seq<u8>, Seq<Seq<u8>>)>) -> Option<Seq<u8>> {
    match i {
        Some((out, calls)) => Some(out),
        None => None,
    }
}

/// A zlib stream that lasts for a whole session.
pub struct SessionInflate {
    stream: flate2::Decompress,
}

/// What a chunk of the stream comes to, given what came out of it: at least
/// `least` and at most `most` bytes.
pub open spec fn chunk_verdict(out: Option<Seq<u8>>, least: nat, most: nat) -> Result<
    Seq<u8>,
    Failure,
> {
    match out {
        Some(data) if data.len() <= most => if data.len() < least {
            Err(Failure::Protocol("Zlib output is shorter than "@ + decimal_text(least)))
        } else {
            Ok(data)
        },
        _ => Err(
            Failure::Protocol("Zlib stream is damaged or exceeds limit of "@ + decimal_text(most)),
        ),
    }
}

/// The bytes that came out, if any did.
pub open spec fn bytes_out(out: Option<Vec<u8>>) -> Option<Seq<u8>> {
    match out {
        Some(v) => Some(v@),
        None => None,
    }
}

/// Judges what came out of a chunk.
pub fn check_chunk(out: Option<Vec<u8>>, least: u64, most: u64) -> (r: Result<
    Vec<u8>,
    VncError,
>)
    ensures
        match chunk_verdict(bytes_out(out), least as nat, most as nat) {
            Ok(data) => r matches Ok(v) && v@ == data,
            Err(f) => r matches Err(e) && e@ == f,
        },
{
    if let Some(data) = out {
        assert(data@.len() == data.len());
        if data.len() as u64 <= most {
            if (data.len() as u64) < least {
                return Err(
                    VncError::Protocol(
                        concat_text("Zlib output is shorter than ", decimal(least).as_str()),
                    ),
                );
            }
            return Ok(data);
        }
    }
    Err(
        VncError::Protocol(
            concat_text("Zlib stream is damaged or exceeds limit of ", decimal(most).as_str()),
        ),
    )
}

impl SessionInflate {
    /// What the stream has been given so far.
    pub closed spec fn calls(self) -> Seq<Seq<u8>> {
        fed(self.stream)
    }

    /// A stream that has not been given anything.
    pub fn new() -> (r: SessionInflate)
        ensures
            r.calls() == Seq::<Seq<u8>>::empty(),
    {
        SessionInflate { stream: new_decompress() }
    }

    fn inflate(&mut self, chunk: &[u8], most: usize) -> (r: Option<Vec<u8>>)
        requires
            most < isize::MAX,
        ensures
            bytes_out(r) == inflation_bytes(inflation(old(self).calls(), chunk@, most as nat)),
            r is Some ==> final(self).calls() == inflation(
                old(self).calls(),
                chunk@,
                most as nat,
            ).unwrap().1,
    {
        let ghost start = self.calls();
        let mut out: Vec<u8> = Vec::new();
        let mut at: usize = 0;
        assert(chunk@.skip(0) =~= chunk@);
        loop
            invariant
                most < isize::MAX,
                start == old(self).calls(),
                at <= chunk@.len(),
                chunk@.len() == chunk.len(),
                out@.len() <= most,
                inflation(start, chunk@, most as nat) == match inflation(
                    self.calls(),
                    chunk@.skip(at as int),
                    (most - out@.len()) as nat,
                ) {
                    None => None::<(Seq<u8>, Seq<Seq<u8>>)>,
                    Some((rest, last)) => Some((out@ + rest, last)),
                },
            decreases chunk@.len() - at + (most - out@.len()),
        {
            let ghost calls = self.calls();
            let input = slice(chunk, at, chunk.len());
            assert(input@ =~= chunk@.skip(at as int));
            let room: usize = most - out.len() + 1;
            let before: u64 = total_in(&self.stream);
            let got = match decompress_step(&mut self.stream, input, room) {
                None => {
                    return None;
                },
                Some(got) => got,
            };
            assert(got@.len() == got.len());
            if got.len() >= room {
                return None;
            }
            let after: u64 = total_in(&self.stream);
            let took: usize = (after - before) as usize;
            let ghost prior = out@;
            push_all(&mut out, &got);
            if got.len() == 0 && took == 0 {
                assert(out@ =~= prior + got@);
                return Some(out);
            }
            proof {
                assert(chunk@.skip(at as int).skip(took as int) =~= chunk@.skip(at + took));
                let left = (most - prior.len() - got@.len()) as nat;
                if let Some((rest, last)) = inflation(
                    self.calls(),
                    chunk@.skip(at + took),
                    left,
                ) {
                    assert(prior + (got@ + rest) =~= out@ + rest);
                }
            }
            at = at + took;
        }
    }

    /// Feeds the next chunk. What comes out must lie between the two limits.
    /// Where the chunk inflates, the stream has taken it, even if what came out
    /// is refused.
    pub fn feed(&mut self, chunk: &[u8], least: u64, most: u64) -> (r: Result<Vec<u8>, VncError>)
        ensures
            match chunk_verdict(
                inflation_bytes(inflation(old(self).calls(), chunk@, held(most as nat))),
                least as nat,
                most as nat,
            ) {
                Ok(data) => r matches Ok(v) && v@ == data,
                Err(f) => r matches Err(e) && e@ == f,
            },
            inflation(old(self).calls(), chunk@, held(most as nat)) matches Some((_, calls))
                ==> final(self).calls() == calls,
    {
        let limit: usize = if most < isize::MAX as u64 {
            most as usize
        } else {
            isize::MAX as usize - 1
        };
        let out = self.inflate(chunk, limit);
        check_chunk(out, least, most)
    }
}

/// What the bytes `s` say about a length-prefixed chunk.
pub enum ChunkRead {
    Short,
    Bad(Failure),
    Done { data: Seq<u8>, used: nat },
}

/// Reads a length-prefixed chunk of at most `limit` bytes.
pub open spec fn chunk_read(s: Seq<u8>, limit: nat) -> ChunkRead {
    if s.len() < 4 {
        ChunkRead::Short
    } else if u32_of(s, 0) > limit {
        ChunkRead::Bad(
            Failure::Protocol(
                "Compressed length exceeds limit: "@ + decimal_text(u32_of(s, 0) as nat),
            ),
        )
    } else if s.len() < 4 + u32_of(s, 0) {
        ChunkRead::Short
    } else {
        ChunkRead::Done { data: s.subrange(4, 4 + u32_of(s, 0)), used: (4 + u32_of(s, 0)) as nat }
    }
}

/// Reads a length-prefixed chunk of at most `limit` bytes. `None` asks for more
/// bytes.
pub fn read_len_prefixed(input: &[u8], limit: usize) -> (r: Result<Option<(Vec<u8>, usize)>, VncError>)
    ensures
        match r {
            Ok(None) => chunk_read(input@, limit as nat) is Short,
            Ok(Some((data, used))) => chunk_read(input@, limit as nat) == (ChunkRead::Done {
                data: data@,
                used: used as nat,
            }) && used <= input@.len(),
            Err(e) => chunk_read(input@, limit as nat) == ChunkRead::Bad(e@),
        },
{
    assert(input@.len() == input.len());
    if input.len() < 4 {
        return Ok(None);
    }
    let n: u32 = u32_at(input, 0);
    if n as u64 > limit as u64 {
        return Err(
            VncError::Protocol(
                concat_text("Compressed length exceeds limit: ", decimal(n as u64).as_str()),
            ),
        );
    }
    if ((input.len() - 4) as u64) < n as u64 {
        return Ok(None);
    }
    let end: usize = 4 + n as usize;
    Ok(Some((to_vec(slice(input, 4, end)), end)))
}

/// A chunk with its length in front.
pub fn len_prefixed(data: &[u8]) -> (r: Vec<u8>)
    requires
        data@.len() <= u32::MAX,
    ensures
        r@ == be32(data@.len() as u32) + data@,
        data@.len() <= MAX_COMPRESSED_LEN ==> chunk_read(r@, MAX_COMPRESSED_LEN as nat) == (
        ChunkRead::Done { data: data@, used: (4 + data@.len()) as nat }),
{
    let mut out: Vec<u8> = Vec::new();
    push_u32(&mut out, data.len() as u32);
    push_all(&mut out, data);
    assert(out@ =~= be32(data@.len() as u32) + data@);
    proof {
        crate::wire::lemma_u32_inside(Seq::empty(), data@.len() as u32, data@);
        assert(Seq::<u8>::empty() + be32(data@.len() as u32) + data@ =~= out@);
        assert(out@.subrange(4, 4 + data@.len() as int) =~= data@);
    }
    out
}

/// Whether a chunk starts a zlib stream.
pub open spec fn starts_stream(s: Seq<u8>) -> bool {
    s.len() >= 2 && s[0] % 16 == 8 && s[0] / 16 <= 7 && (s[0] * 256 + s[1]) % 31 == 0
}

/// Whether a chunk starts a zlib stream.
pub fn is_zlib_header(s: &[u8]) -> (r: bool)
    ensures
        r == starts_stream(s@),
{
    s.len() >= 2 && s[0] % 16 == 8 && s[0] / 16 <= 7 && (s[0] as u32 * 256 + s[1] as u32) % 31 == 0
}

/// What a chunk comes to, given what came out of it: exactly the pixels of the
/// rectangle.
pub open spec fn pixels_verdict(
    out: Option<Seq<u8>>,
    width: nat,
    height: nat,
    format: PixelFormat,
) -> Result<Seq<u8>, Failure> {
    chunk_verdict(out, width * height * format.pixel_len(), width * height * format.pixel_len())
}

/// The image with the pixels that a chunk inflated to.
pub open spec fn pixels_painted(
    image: Image,
    x: int,
    y: int,
    width: int,
    height: int,
    format: PixelFormat,
    data: Seq<u8>,
) -> Image {
    image.with_region(x, y, width, height, data, format)
}

/// Paints the pixels that a chunk inflated to.
pub fn paint_pixels(
    fb: &mut Framebuffer,
    x: usize,
    y: usize,
    width: usize,
    height: usize,
    format: &PixelFormat,
    data: &[u8],
)
    requires
        old(fb).addressable(x, y, width, height),
        data@.len() >= width * height * format.pixel_len(),
    ensures
        final(fb)@ == pixels_painted(
            old(fb)@,
            x as int,
            y as int,
            width as int,
            height as int,
            *format,
            data@,
        ),
        final(fb)@.data.len() == old(fb)@.data.len(),
{
    if height > 0 {
        assert(*format == PixelFormat::rgba() ==> (height - 1) * (width * 4) <= width * height
            * format.pixel_len()) by {
            assert((height - 1) * (width * 4) <= width * height * 4) by (nonlinear_arith)
                requires
                    width >= 0,
                    height > 0,
            ;
        }
    }
    fb.write_region(x, y, width, height, data, format);
}

/// Decode a Zlib-encoded rectangle into the framebuffer. `None` asks for more
/// bytes. What the chunk inflates to is held to the size of the rectangle and
/// painted.
pub fn decode(
    input: &[u8],
    session: &mut SessionInflate,
    fb: &mut Framebuffer,
    rect_x: usize,
    rect_y: usize,
    rect_w: usize,
    rect_h: usize,
    pixel_format: &PixelFormat,
) -> (r: Result<Option<usize>, VncError>)
    requires
        old(fb).addressable(rect_x, rect_y, rect_w, rect_h),
    ensures
        match chunk_read(input@, MAX_COMPRESSED_LEN as nat) {
            ChunkRead::Short => r matches Ok(None) && final(fb)@ == old(fb)@
                && final(session).calls() == old(session).calls(),
            ChunkRead::Bad(f) => r matches Err(e) && e@ == f && final(fb)@ == old(fb)@
                && final(session).calls() == old(session).calls(),
            ChunkRead::Done { data, used } => {
                let size = rect_w as nat * rect_h as nat * pixel_format.pixel_len();
                let given = inflation(old(session).calls(), data, held(size));
                &&& given matches Some((_, calls)) ==> final(session).calls() == calls
                &&& match pixels_verdict(
                    inflation_bytes(given),
                    rect_w as nat,
                    rect_h as nat,
                    *pixel_format,
                ) {
                    Ok(px) => r matches Ok(Some(n)) && n == used && final(fb)@ == pixels_painted(
                        old(fb)@,
                        rect_x as int,
                        rect_y as int,
                        rect_w as int,
                        rect_h as int,
                        *pixel_format,
                        px,
                    ),
                    Err(f) => r matches Err(e) && e@ == f && final(fb)@ == old(fb)@,
                }
            },
        },
{
    let len: usize = pixel_format.bytes_per_pixel();
    assert(0 <= rect_w * rect_h <= rect_w * rect_h * 32 && rect_w * rect_h * len <= rect_w * rect_h
        * 32) by (nonlinear_arith)
        requires
            rect_w >= 0,
            rect_h >= 0,
            0 <= len <= 31,
    ;
    let size: u64 = rect_w as u64 * rect_h as u64 * len as u64;
    match read_len_prefixed(input, MAX_COMPRESSED_LEN) {
        Ok(None) => Ok(None),
        Err(e) => Err(e),
        Ok(Some((chunk, used))) => {
            match session.feed(&chunk, size, size) {
                Err(e) => Err(e),
                Ok(px) => {
                    paint_pixels(fb, rect_x, rect_y, rect_w, rect_h, pixel_format, &px);
                    Ok(Some(used))
                },
            }
        },
    }
}

} // verus!
