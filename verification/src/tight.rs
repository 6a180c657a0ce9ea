//! Tight encoding decoder (RFB encoding type 7).
//!
//! A rectangle starts with a control byte: which of the four zlib streams of
//! the session to reset, and how the pixels follow. They are one colour, a JPEG
//! image, or filtered pixels in one of the zlib streams. A JPEG image is handed
//! to the caller.

pub mod written;

use vstd::prelude::*;

use crate::error::{protocol_error, Failure, VncError};
use crate::framebuffer::Framebuffer;
use crate::pixel_format::PixelFormat;
use crate::raster::{blank, blank_raster, ccolour, ccolour_of, paint};
use crate::text::{concat_text, decimal, decimal_text};
use crate::trle::{
    ccolours_of, index_in, lemma_packed_place, packed_index, packed_row, palette_at, read_ccolours,
};
use crate::wire::{slice, to_vec};
use crate::zlib::{chunk_verdict, held, inflation, inflation_bytes, SessionInflate};

verus! {

/// Pixels that take fewer bytes than this are not compressed.
pub const MIN_TO_COMPRESS: u64 = 12;

/// What was done to the pixels before they were compressed.
pub enum Filter {
    /// Nothing.
    Copy,
    /// They were replaced by their positions in a palette.
    Palette(Vec<u32>),
    /// What the pixels around them let expect was subtracted.
    Gradient,
}

/// What a [`Filter`] says.
pub enum FilterView {
    Copy,
    Palette(Seq<u32>),
    Gradient,
}

impl View for Filter {
    type V = FilterView;

    open spec fn view(&self) -> FilterView {
        match self {
            Filter::Copy => FilterView::Copy,
            Filter::Palette(colours) => FilterView::Palette(colours@),
            Filter::Gradient => FilterView::Gradient,
        }
    }
}

/// The body of a rectangle.
pub enum TightPart {
    /// One colour.
    Fill(u32),
    /// A JPEG image.
    Jpeg(Vec<u8>),
    /// Filtered pixels.
    Pixels { filter: Filter, data: Vec<u8> },
    /// Filtered pixels that take `size` bytes once they are inflated.
    Packed { stream: usize, filter: Filter, size: u64, chunk: Vec<u8> },
}

/// What a [`TightPart`] holds.
pub enum PartView {
    Fill(u32),
    Jpeg(Seq<u8>),
    Pixels { filter: FilterView, data: Seq<u8> },
    Packed { stream: nat, filter: FilterView, size: nat, chunk: Seq<u8> },
}

impl View for TightPart {
    type V = PartView;

    open spec fn view(&self) -> PartView {
        match self {
            TightPart::Fill(colour) => PartView::Fill(*colour),
            TightPart::Jpeg(data) => PartView::Jpeg(data@),
            TightPart::Pixels { filter, data } => PartView::Pixels {
                filter: filter@,
                data: data@,
            },
            TightPart::Packed { stream, filter, size, chunk } => PartView::Packed {
                stream: *stream as nat,
                filter: filter@,
                size: *size as nat,
                chunk: chunk@,
            },
        }
    }
}

/// The number at `pos` in the compact form, and the position behind it: seven
/// bits per byte, the lowest first, where the highest bit of the first two
/// bytes says that another one follows.
pub open spec fn compact_read(s: Seq<u8>, pos: int) -> Option<(nat, int)> {
    if pos >= s.len() {
        None
    } else if s[pos] < 128 {
        Some((s[pos] as nat, pos + 1))
    } else if pos + 1 >= s.len() {
        None
    } else if s[pos + 1] < 128 {
        Some(((s[pos] - 128 + s[pos + 1] * 128) as nat, pos + 2))
    } else if pos + 2 >= s.len() {
        None
    } else {
        Some(
            ((s[pos] - 128 + (s[pos + 1] - 128) * 128 + s[pos + 2] * 16384) as nat, pos + 3),
        )
    }
}

/// Reads a number in the compact form. `None` asks for more bytes.
pub fn read_compact_len(s: &[u8], pos: usize) -> (r: Option<(u32, usize)>)
    requires
        pos <= s@.len(),
    ensures
        match compact_read(s@, pos as int) {
            None => r is None,
            Some((n, end)) => r matches Some((v, e)) && v == n && e == end,
        },
        r matches Some((v, e)) ==> v < 0x40_0000 && e <= s@.len(),
{
    assert(s@.len() == s.len());
    let n: usize = s.len() - pos;
    if n == 0 {
        return None;
    }
    let a: u32 = s[pos] as u32;
    if a < 128 {
        return Some((a, pos + 1));
    }
    if n == 1 {
        return None;
    }
    let b: u32 = s[pos + 1] as u32;
    if b < 128 {
        return Some((a - 128 + b * 128, pos + 2));
    }
    if n == 2 {
        return None;
    }
    let c: u32 = s[pos + 2] as u32;
    Some((a - 128 + (b - 128) * 128 + c * 16384, pos + 3))
}

/// A number in the compact form.
pub open spec fn compact(n: u32) -> Seq<u8> {
    if n < 128 {
        seq![n as u8]
    } else if n < 16384 {
        seq![(n % 128 + 128) as u8, (n / 128) as u8]
    } else {
        seq![(n % 128 + 128) as u8, (n / 128 % 128 + 128) as u8, (n / 16384) as u8]
    }
}

/// Writes a number in the compact form.
pub fn write_compact_len(out: &mut Vec<u8>, n: u32)
    requires
        n < 0x40_0000,
    ensures
        final(out)@ == old(out)@ + compact(n),
{
    if n < 128 {
        out.push(n as u8);
    } else if n < 16384 {
        out.push((n % 128 + 128) as u8);
        out.push((n / 128) as u8);
    } else {
        out.push((n % 128 + 128) as u8);
        out.push((n / 128 % 128 + 128) as u8);
        out.push((n / 16384) as u8);
    }
    assert(out@ =~= old(out)@ + compact(n));
}

/// A number that was written in the compact form is read back, whatever
/// stands before and behind it.
pub proof fn lemma_compact_round_trip(pre: Seq<u8>, n: u32, post: Seq<u8>)
    requires
        n < 0x40_0000,
    ensures
        compact_read(pre + compact(n) + post, pre.len() as int) == Some(
            (n as nat, (pre.len() + compact(n).len()) as int),
        ),
{
    let s = pre + compact(n) + post;
    let at = pre.len() as int;
    assert forall|i: int| 0 <= i < compact(n).len() implies s[at + i] == compact(n)[i] by {}
    assert(s[at + 0] == compact(n)[0]);
    if n >= 128 {
        assert(s[at + 1] == compact(n)[1]);
    }
    if n >= 16384 {
        assert(s[at + 2] == compact(n)[2]);
    }
}

/// How many bytes filtered pixels take.
pub open spec fn filtered_size(
    filter: FilterView,
    width: nat,
    height: nat,
    format: PixelFormat,
) -> nat {
    match filter {
        FilterView::Palette(colours) => if colours.len() <= 2 {
            (packed_row(width as int, 1) * height) as nat
        } else {
            width * height
        },
        _ => width * height * format.cpixel_len(),
    }
}

/// What the bytes say about the filter.
pub enum FilterRead {
    Short,
    Bad(Failure),
    Done { filter: FilterView, pos: int },
}

/// Reads the filter behind the control byte; `explicit` says whether there is
/// one.
pub open spec fn filter_read(s: Seq<u8>, explicit: bool, format: PixelFormat) -> FilterRead {
    let len = format.cpixel_len() as int;
    if !explicit {
        FilterRead::Done { filter: FilterView::Copy, pos: 1 }
    } else if s.len() < 2 {
        FilterRead::Short
    } else if s[1] == 0 {
        FilterRead::Done { filter: FilterView::Copy, pos: 2 }
    } else if s[1] == 1 {
        if s.len() < 3 || s.len() < 3 + (s[2] + 1) * len {
            FilterRead::Short
        } else {
            FilterRead::Done {
                filter: FilterView::Palette(palette_at(s, 3, (s[2] + 1) as nat, format)),
                pos: 3 + (s[2] + 1) * len,
            }
        }
    } else if s[1] == 2 {
        if len != 3 {
            FilterRead::Bad(
                Failure::Protocol("Tight gradient filter needs pixels of three bytes"@),
            )
        } else {
            FilterRead::Done { filter: FilterView::Gradient, pos: 2 }
        }
    } else {
        FilterRead::Bad(Failure::Protocol("Unknown Tight filter: "@ + decimal_text(s[1] as nat)))
    }
}

/// What the bytes say about a rectangle.
pub enum TightRead {
    Short,
    Bad(Failure),
    Done { part: PartView, resets: u8, used: int },
}

/// Reads `n` bytes at `pos`.
pub open spec fn counted(s: Seq<u8>, pos: int) -> Option<(Seq<u8>, int)> {
    match compact_read(s, pos) {
        None => None,
        Some((n, end)) => if s.len() < end + n {
            None
        } else {
            Some((s.subrange(end, end + n), end + n))
        },
    }
}

/// Reads a rectangle.
pub open spec fn tight_read(s: Seq<u8>, width: nat, height: nat, format: PixelFormat) -> TightRead {
    let len = format.cpixel_len() as int;
    if s.len() < 1 {
        TightRead::Short
    } else {
        let resets = (s[0] % 16) as u8;
        let kind = s[0] / 16;
        if kind == 8 {
            if s.len() < 1 + len {
                TightRead::Short
            } else {
                TightRead::Done {
                    part: PartView::Fill(ccolour_of(format, s.subrange(1, 1 + len))),
                    resets,
                    used: 1 + len,
                }
            }
        } else if kind == 9 {
            match counted(s, 1) {
                None => TightRead::Short,
                Some((data, end)) => TightRead::Done {
                    part: PartView::Jpeg(data),
                    resets,
                    used: end,
                },
            }
        } else if kind > 9 {
            TightRead::Bad(
                Failure::Protocol("Invalid Tight control byte: "@ + decimal_text(s[0] as nat)),
            )
        } else {
            match filter_read(s, kind >= 4, format) {
                FilterRead::Short => TightRead::Short,
                FilterRead::Bad(f) => TightRead::Bad(f),
                FilterRead::Done { filter, pos } => {
                    let size = filtered_size(filter, width, height, format);
                    if size < MIN_TO_COMPRESS {
                        if s.len() < pos + size {
                            TightRead::Short
                        } else {
                            TightRead::Done {
                                part: PartView::Pixels {
                                    filter,
                                    data: s.subrange(pos, pos + size),
                                },
                                resets,
                                used: pos + size,
                            }
                        }
                    } else {
                        match counted(s, pos) {
                            None => TightRead::Short,
                            Some((chunk, end)) => TightRead::Done {
                                part: PartView::Packed {
                                    stream: (kind % 4) as nat,
                                    filter,
                                    size,
                                    chunk,
                                },
                                resets,
                                used: end,
                            },
                        }
                    }
                },
            }
        }
    }
}

/// A byte of the pixels once the gradient filter is undone: what the bytes to
/// the left, above, and above to the left let expect, plus the filtered byte.
pub open spec fn gradient_byte(data: Seq<u8>, width: int, i: int) -> int
    decreases i,
{
    if i < 0 || width <= 0 {
        0
    } else {
        let left = if i >= 3 && (i / 3) % width > 0 {
            gradient_byte(data, width, i - 3)
        } else {
            0
        };
        let above = if i >= 3 * width {
            gradient_byte(data, width, i - 3 * width)
        } else {
            0
        };
        let beside = if (i / 3) % width > 0 && i >= 3 * width + 3 {
            gradient_byte(data, width, i - 3 * width - 3)
        } else {
            0
        };
        let expected = left + above - beside;
        let bounded = if expected < 0 {
            0
        } else if expected > 255 {
            255
        } else {
            expected
        };
        (data[i] + bounded) % 256
    }
}

/// The bytes of the pixels once the gradient filter is undone.
pub open spec fn gradient_bytes(data: Seq<u8>, width: int) -> Seq<u8> {
    Seq::new(data.len(), |i: int| gradient_byte(data, width, i) as u8)
}

/// The position in a palette of `size` colours of the `k`-th pixel.
pub open spec fn palette_index(data: Seq<u8>, width: int, size: nat, k: int) -> int {
    if size <= 2 {
        packed_index(data, width, 1, k)
    } else {
        data[k] as int
    }
}

/// Why a pixel outside its palette is refused.
pub open spec fn outside_palette() -> Failure {
    Failure::Protocol("Tight pixel outside its palette"@)
}

/// The colours of filtered pixels.
pub open spec fn unfiltered(
    filter: FilterView,
    data: Seq<u8>,
    width: nat,
    height: nat,
    format: PixelFormat,
) -> Result<Seq<u32>, Failure> {
    let n = width * height;
    match filter {
        FilterView::Copy => Ok(ccolours_of(format, data, n)),
        FilterView::Gradient => Ok(
            ccolours_of(format, gradient_bytes(data, width as int), n),
        ),
        FilterView::Palette(colours) => if exists|k: int|
            0 <= k < n && #[trigger] palette_index(data, width as int, colours.len(), k)
                >= colours.len() {
            Err(outside_palette())
        } else {
            Ok(
                Seq::new(
                    n,
                    |k: int| colours[palette_index(data, width as int, colours.len(), k)],
                ),
            )
        },
    }
}

/// The four zlib streams of a session.
pub struct TightStreams {
    streams: Vec<SessionInflate>,
}

/// Whether bit `i` of the control byte asks for a reset of stream `i`.
pub open spec fn resets_stream(resets: u8, i: int) -> bool {
    if i == 0 {
        resets % 2 == 1
    } else if i == 1 {
        resets / 2 % 2 == 1
    } else if i == 2 {
        resets / 4 % 2 == 1
    } else {
        resets / 8 % 2 == 1
    }
}

/// What the streams have been given once those that `resets` names start anew.
pub open spec fn after_resets(calls: Seq<Seq<Seq<u8>>>, resets: u8) -> Seq<Seq<Seq<u8>>> {
    Seq::new(
        calls.len(),
        |i: int|
            if resets_stream(resets, i) {
                Seq::empty()
            } else {
                calls[i]
            },
    )
}

/// What a rectangle comes to.
pub enum TightImage {
    Raster(Vec<u32>),
    Jpeg(Vec<u8>),
}

/// What a [`TightImage`] holds.
pub enum ImageView {
    Raster(Seq<u32>),
    Jpeg(Seq<u8>),
}

impl View for TightImage {
    type V = ImageView;

    open spec fn view(&self) -> ImageView {
        match self {
            TightImage::Raster(raster) => ImageView::Raster(raster@),
            TightImage::Jpeg(data) => ImageView::Jpeg(data@),
        }
    }
}

/// What filtered pixels come to.
pub open spec fn pixels_image(
    filter: FilterView,
    data: Seq<u8>,
    width: nat,
    height: nat,
    format: PixelFormat,
) -> Result<ImageView, Failure> {
    match unfiltered(filter, data, width, height, format) {
        Ok(raster) => Ok(ImageView::Raster(raster)),
        Err(f) => Err(f),
    }
}

/// What a rectangle comes to, given what came out of its chunk, where it has
/// one.
pub open spec fn part_image(
    part: PartView,
    out: Option<Seq<u8>>,
    width: nat,
    height: nat,
    format: PixelFormat,
) -> Result<ImageView, Failure> {
    match part {
        PartView::Fill(colour) => Ok(ImageView::Raster(blank(width * height, colour))),
        PartView::Jpeg(data) => Ok(ImageView::Jpeg(data)),
        PartView::Pixels { filter, data } => pixels_image(filter, data, width, height, format),
        PartView::Packed { filter, size, .. } => match chunk_verdict(out, size, size) {
            Err(f) => Err(f),
            Ok(data) => pixels_image(filter, data, width, height, format),
        },
    }
}

/// What the chunk of a rectangle inflates to, and what its stream has been
/// given then.
pub open spec fn part_inflation(calls: Seq<Seq<Seq<u8>>>, part: PartView) -> Option<
    (Seq<u8>, Seq<Seq<u8>>),
> {
    match part {
        PartView::Packed { stream, size, chunk, .. } => inflation(
            calls[stream as int],
            chunk,
            held(size),
        ),
        _ => None,
    }
}

/// What the streams have been given behind a rectangle.
pub open spec fn part_calls(calls: Seq<Seq<Seq<u8>>>, part: PartView) -> Seq<Seq<Seq<u8>>> {
    match part {
        PartView::Packed { stream, .. } => match part_inflation(calls, part) {
            Some((out, last)) => calls.update(stream as int, last),
            None => calls,
        },
        _ => calls,
    }
}

/// Whether `after` is what the streams can have been given behind a rectangle,
/// be it refused or not. Nothing is said of a stream whose chunk does not
/// inflate.
pub open spec fn calls_left(
    calls: Seq<Seq<Seq<u8>>>,
    part: PartView,
    after: Seq<Seq<Seq<u8>>>,
) -> bool {
    match part {
        PartView::Packed { stream, .. } => {
            &&& after == calls.update(stream as int, after[stream as int])
            &&& part_inflation(calls, part) is Some ==> after == part_calls(calls, part)
        },
        _ => after == calls,
    }
}

/// What a rectangle comes to in a session.
pub open spec fn session_image(
    calls: Seq<Seq<Seq<u8>>>,
    resets: u8,
    part: PartView,
    width: nat,
    height: nat,
    format: PixelFormat,
) -> Result<ImageView, Failure> {
    part_image(
        part,
        inflation_bytes(part_inflation(after_resets(calls, resets), part)),
        width,
        height,
        format,
    )
}

/// Whether a rectangle fits the size that it is said to have.
pub open spec fn part_fits(part: PartView, width: nat, height: nat, format: PixelFormat) -> bool {
    match part {
        PartView::Pixels { filter, data } => filter_fits(filter, format) && data.len()
            == filtered_size(filter, width, height, format),
        PartView::Packed { stream, filter, size, .. } => stream < 4 && filter_fits(filter, format)
            && size == filtered_size(filter, width, height, format),
        _ => true,
    }
}

/// Whether the filter can be undone on pixels of the format.
pub open spec fn filter_fits(filter: FilterView, format: PixelFormat) -> bool {
    match filter {
        FilterView::Copy => true,
        FilterView::Palette(colours) => 1 <= colours.len() <= 256,
        FilterView::Gradient => format.cpixel_len() == 3,
    }
}

/// What is read of a rectangle fits its size.
pub proof fn lemma_tight_fits(s: Seq<u8>, width: nat, height: nat, format: PixelFormat)
    ensures
        tight_read(s, width, height, format) matches TightRead::Done { part, used, .. }
            ==> part_fits(part, width, height, format) && used > 0,
{
}

fn read_filter(s: &[u8], explicit: bool, format: &PixelFormat) -> (r: Result<
    Option<(Filter, usize)>,
    VncError,
>)
    requires
        s@.len() >= 1,
    ensures
        match filter_read(s@, explicit, *format) {
            FilterRead::Short => r matches Ok(None),
            FilterRead::Bad(f) => r matches Err(e) && e@ == f,
            FilterRead::Done { filter, pos } => r matches Ok(Some((g, p))) && g@ == filter && p
                == pos,
        },
        r matches Ok(Some((g, p))) ==> p <= s@.len() && filter_fits(g@, *format),
{
    assert(s@.len() == s.len());
    if !explicit {
        return Ok(Some((Filter::Copy, 1)));
    }
    if s.len() < 2 {
        return Ok(None);
    }
    let id: u8 = s[1];
    if id == 0 {
        return Ok(Some((Filter::Copy, 2)));
    }
    let len: usize = format.bytes_per_cpixel();
    if id == 1 {
        if s.len() < 3 {
            return Ok(None);
        }
        let n: usize = s[2] as usize + 1;
        assert(0 <= n * len <= 256 * 31) by (nonlinear_arith)
            requires
                0 <= n <= 256,
                0 <= len <= 31,
        ;
        if s.len() - 3 < n * len {
            return Ok(None);
        }
        let end: usize = 3 + n * len;
        let colours = read_ccolours(format, slice(s, 3, end), n);
        return Ok(Some((Filter::Palette(colours), end)));
    }
    if id == 2 {
        if len != 3 {
            return Err(protocol_error("Tight gradient filter needs pixels of three bytes"));
        }
        return Ok(Some((Filter::Gradient, 2)));
    }
    Err(VncError::Protocol(concat_text("Unknown Tight filter: ", decimal(id as u64).as_str())))
}

fn size_of_filtered(filter: &Filter, width: usize, height: usize, format: &PixelFormat) -> (r: u64)
    requires
        width * height * 33 + 64 <= u64::MAX,
    ensures
        r == filtered_size(filter@, width as nat, height as nat, *format),
{
    let len: usize = format.bytes_per_cpixel();
    assert(0 <= width * height <= width * height * 33 && 0 <= width * height * len <= width * height
        * 31) by (nonlinear_arith)
        requires
            width >= 0,
            height >= 0,
            0 <= len <= 31,
    ;
    match filter {
        Filter::Palette(colours) => if colours.len() <= 2 {
            let row: u64 = width as u64 / 8 + (if width % 8 > 0 {
                1
            } else {
                0
            });
            assert(row == packed_row(width as int, 1));
            assert(0 <= row * height <= width * height) by (nonlinear_arith)
                requires
                    0 <= row <= width,
                    height >= 0,
            ;
            row * height as u64
        } else {
            width as u64 * height as u64
        },
        _ => width as u64 * height as u64 * len as u64,
    }
}

fn read_counted(s: &[u8], pos: usize) -> (r: Option<(Vec<u8>, usize)>)
    requires
        pos <= s@.len(),
    ensures
        match counted(s@, pos as int) {
            None => r is None,
            Some((data, end)) => r matches Some((d, e)) && d@ == data && e == end,
        },
        r matches Some((d, e)) ==> e <= s@.len(),
{
    assert(s@.len() == s.len());
    match read_compact_len(s, pos) {
        None => None,
        Some((n, end)) => {
            if s.len() - end < n as usize {
                return None;
            }
            let stop: usize = end + n as usize;
            Some((to_vec(slice(s, end, stop)), stop))
        },
    }
}

/// A rectangle that was read: its body, the streams to reset, and how many
/// bytes it took.
pub struct TightRect {
    pub part: TightPart,
    pub resets: u8,
    pub used: usize,
}

/// Reads a rectangle. `None` asks for more bytes.
pub fn read_rect(s: &[u8], width: usize, height: usize, format: &PixelFormat) -> (r: Result<
    Option<TightRect>,
    VncError,
>)
    requires
        width * height * 33 + 64 <= u64::MAX,
    ensures
        match tight_read(s@, width as nat, height as nat, *format) {
            TightRead::Short => r matches Ok(None),
            TightRead::Bad(f) => r matches Err(e) && e@ == f,
            TightRead::Done { part, resets, used } => r matches Ok(Some(t)) && t.part@ == part
                && t.resets == resets && t.used == used,
        },
        r matches Ok(Some(t)) ==> t.used <= s@.len() && part_fits(
            t.part@,
            width as nat,
            height as nat,
            *format,
        ),
{
    assert(s@.len() == s.len());
    if s.len() < 1 {
        return Ok(None);
    }
    let resets: u8 = s[0] % 16;
    let kind: u8 = s[0] / 16;
    if kind == 8 {
        let len: usize = format.bytes_per_cpixel();
        if s.len() - 1 < len {
            return Ok(None);
        }
        let colour: u32 = ccolour(format, slice(s, 1, 1 + len));
        return Ok(Some(TightRect { part: TightPart::Fill(colour), resets, used: 1 + len }));
    }
    if kind == 9 {
        return match read_counted(s, 1) {
            None => Ok(None),
            Some((data, used)) => Ok(
                Some(TightRect { part: TightPart::Jpeg(data), resets, used }),
            ),
        };
    }
    if kind > 9 {
        return Err(
            VncError::Protocol(
                concat_text("Invalid Tight control byte: ", decimal(s[0] as u64).as_str()),
            ),
        );
    }
    match read_filter(s, kind >= 4, format) {
        Ok(None) => Ok(None),
        Err(e) => Err(e),
        Ok(Some((filter, pos))) => {
            let size: u64 = size_of_filtered(&filter, width, height, format);
            if size < MIN_TO_COMPRESS {
                let n: usize = size as usize;
                if s.len() - pos < n {
                    return Ok(None);
                }
                let data = to_vec(slice(s, pos, pos + n));
                return Ok(
                    Some(
                        TightRect { part: TightPart::Pixels { filter, data }, resets, used: pos + n },
                    ),
                );
            }
            match read_counted(s, pos) {
                None => Ok(None),
                Some((chunk, used)) => Ok(
                    Some(
                        TightRect {
                            part: TightPart::Packed {
                                stream: (kind % 4) as usize,
                                filter,
                                size,
                                chunk,
                            },
                            resets,
                            used,
                        },
                    ),
                ),
            }
        },
    }
}

fn undo_gradient(data: &[u8], width: usize) -> (r: Vec<u8>)
    requires
        0 < width,
    ensures
        r@ == gradient_bytes(data@, width as int),
{
    assert(data@.len() == data.len());
    let n: usize = data.len();
    let mut out: Vec<u8> = Vec::new();
    let mut i: usize = 0;
    while i < n
        invariant
            0 < width,
            n == data@.len(),
            i <= n,
            out@.len() == i,
            forall|j: int| 0 <= j < i ==> #[trigger] out@[j] == gradient_byte(data@, width as int, j),
        decreases n - i,
    {
        let inner: bool = (i / 3) % width > 0;
        let below: bool = i / 3 >= width;
        assert(inner ==> i >= 3) by {
            if i < 3 {
                assert(i / 3 == 0);
                assert(0int % (width as int) == 0) by (nonlinear_arith)
                    requires
                        width > 0,
                ;
            }
        }
        assert(below <==> i >= 3 * width);
        let left: i32 = if inner {
            out[i - 3] as i32
        } else {
            0
        };
        let above: i32 = if below {
            out[i - 3 * width] as i32
        } else {
            0
        };
        proof {
            if inner && below {
                lemma_beside(i as int, width as int);
            }
        }
        let beside: i32 = if inner && below {
            out[i - 3 * width - 3] as i32
        } else {
            0
        };
        let expected: i32 = left + above - beside;
        let bounded: i32 = if expected < 0 {
            0
        } else if expected > 255 {
            255
        } else {
            expected
        };
        let byte: u8 = ((data[i] as i32 + bounded) % 256) as u8;
        assert(byte == gradient_byte(data@, width as int, i as int));
        out.push(byte);
        i = i + 1;
    }
    assert(out@ =~= gradient_bytes(data@, width as int));
    out
}

proof fn lemma_beside(i: int, width: int)
    requires
        0 < width,
        i >= 3 * width,
        (i / 3) % width > 0,
    ensures
        i >= 3 * width + 3,
{
    let p = i / 3;
    if p == width {
        assert(width % width == 0) by (nonlinear_arith)
            requires
                width > 0,
        ;
    }
    assert(p >= width + 1);
}

fn look_up(data: &[u8], width: usize, height: usize, colours: &[u32]) -> (r: Option<Vec<u32>>)
    requires
        width * height <= usize::MAX,
        data@.len() == filtered_size(
            FilterView::Palette(colours@),
            width as nat,
            height as nat,
            PixelFormat::rgba(),
        ),
    ensures
        match r {
            None => exists|k: int|
                0 <= k < width * height && #[trigger] palette_index(
                    data@,
                    width as int,
                    colours@.len(),
                    k,
                ) >= colours@.len(),
            Some(out) => out@.len() == width * height && forall|k: int|
                0 <= k < width * height ==> #[trigger] palette_index(
                    data@,
                    width as int,
                    colours@.len(),
                    k,
                ) < colours@.len() && out@[k] == colours@[palette_index(
                    data@,
                    width as int,
                    colours@.len(),
                    k,
                )],
        },
{
    assert(data@.len() == data.len());
    let n: usize = width * height;
    let bits: bool = colours.len() <= 2;
    let row: usize = width / 8 + (if width % 8 > 0 {
        1
    } else {
        0
    });
    assert(row == packed_row(width as int, 1));
    let mut out: Vec<u32> = Vec::new();
    let mut k: usize = 0;
    while k < n
        invariant
            k <= n,
            n == width * height,
            data@.len() == data.len(),
            bits == (colours@.len() <= 2),
            row == packed_row(width as int, 1),
            bits ==> data@.len() == row * height,
            !bits ==> data@.len() == n,
            out@.len() == k,
            forall|j: int|
                0 <= j < k ==> #[trigger] palette_index(data@, width as int, colours@.len(), j)
                    < colours@.len() && out@[j] == colours@[palette_index(
                    data@,
                    width as int,
                    colours@.len(),
                    j,
                )],
        decreases n - k,
    {
        let index: usize = if bits {
            assert(width > 0) by (nonlinear_arith)
                requires
                    k < width * height,
                    k >= 0,
                    width >= 0,
            ;
            proof {
                lemma_packed_place(k as int, width as int, height as int, 1);
            }
            let col: usize = k % width;
            let byte: u8 = data[(k / width) * row + col / 8];
            let shift: u8 = (7 - col % 8) as u8;
            let bit: u8 = (byte >> shift) & 1;
            assert(bit == index_in(byte, 1, (col % 8) as int));
            bit as usize
        } else {
            data[k] as usize
        };
        assert(index == palette_index(data@, width as int, colours@.len(), k as int));
        if index >= colours.len() {
            return None;
        }
        out.push(colours[index]);
        k = k + 1;
    }
    Some(out)
}

/// Undoes the filter.
pub fn undo_filter(
    filter: &Filter,
    data: &[u8],
    width: usize,
    height: usize,
    format: &PixelFormat,
) -> (r: Result<Vec<u32>, VncError>)
    requires
        width * height <= usize::MAX,
        filter_fits(filter@, *format),
        data@.len() == filtered_size(filter@, width as nat, height as nat, *format),
    ensures
        match unfiltered(filter@, data@, width as nat, height as nat, *format) {
            Ok(raster) => r matches Ok(v) && v@ == raster,
            Err(f) => r matches Err(e) && e@ == f,
        },
        r matches Ok(v) ==> v@.len() == width * height,
{
    assert(0 <= width * height) by (nonlinear_arith)
        requires
            width >= 0,
            height >= 0,
    ;
    let n: usize = width * height;
    match filter {
        Filter::Copy => Ok(read_ccolours(format, data, n)),
        Filter::Gradient => {
            if width == 0 {
                assert(gradient_bytes(data@, 0) =~= data@) by {
                    assert(0 * height == 0) by (nonlinear_arith);
                    assert(data@.len() == 0);
                }
                return Ok(read_ccolours(format, data, n));
            }
            let bytes = undo_gradient(data, width);
            Ok(read_ccolours(format, &bytes, n))
        },
        Filter::Palette(colours) => match look_up(data, width, height, colours) {
            None => Err(protocol_error("Tight pixel outside its palette")),
            Some(out) => {
                assert(out@ =~= Seq::new(
                    n as nat,
                    |k: int| colours@[palette_index(data@, width as int, colours@.len(), k)],
                ));
                Ok(out)
            },
        },
    }
}

impl TightStreams {
    /// Whether there are four streams.
    pub closed spec fn wf(self) -> bool {
        self.streams@.len() == 4
    }

    /// What each stream has been given so far.
    pub closed spec fn calls(self) -> Seq<Seq<Seq<u8>>> {
        Seq::new(self.streams@.len(), |i: int| self.streams@[i].calls())
    }

    /// Streams that have not been given anything.
    pub fn new() -> (r: TightStreams)
        ensures
            r.wf(),
            r.calls() == seq![
                Seq::<Seq<u8>>::empty(),
                Seq::<Seq<u8>>::empty(),
                Seq::<Seq<u8>>::empty(),
                Seq::<Seq<u8>>::empty(),
            ],
    {
        let mut streams: Vec<SessionInflate> = Vec::new();
        streams.push(SessionInflate::new());
        streams.push(SessionInflate::new());
        streams.push(SessionInflate::new());
        streams.push(SessionInflate::new());
        let r = TightStreams { streams };
        assert(r.calls() =~= seq![
            Seq::<Seq<u8>>::empty(),
            Seq::<Seq<u8>>::empty(),
            Seq::<Seq<u8>>::empty(),
            Seq::<Seq<u8>>::empty(),
        ]);
        r
    }

    fn reset(&mut self, resets: u8)
        requires
            old(self).wf(),
        ensures
            final(self).wf(),
            final(self).calls() == after_resets(old(self).calls(), resets),
    {
        let ghost start = self.calls();
        let mut i: usize = 0;
        let mut rest: u8 = resets;
        while i < 4
            invariant
                i <= 4,
                self.wf(),
                start.len() == 4,
                rest == (if i == 0 {
                    resets as int
                } else if i == 1 {
                    resets as int / 2
                } else if i == 2 {
                    resets as int / 4
                } else if i == 3 {
                    resets as int / 8
                } else {
                    resets as int / 16
                }),
                forall|j: int|
                    0 <= j < 4 ==> #[trigger] self.calls()[j] == (if j < i && resets_stream(
                        resets,
                        j,
                    ) {
                        Seq::empty()
                    } else {
                        start[j]
                    }),
            decreases 4 - i,
        {
            if rest % 2 == 1 {
                let ghost before = self.calls();
                self.streams.set(i, SessionInflate::new());
                assert(self.calls() =~= before.update(i as int, Seq::empty()));
            }
            rest = rest / 2;
            i = i + 1;
        }
        assert(self.calls() =~= after_resets(start, resets));
    }

    /// Decodes the body of a rectangle.
    pub fn decode_part(
        &mut self,
        part: TightPart,
        resets: u8,
        width: usize,
        height: usize,
        format: &PixelFormat,
    ) -> (r: Result<TightImage, VncError>)
        requires
            old(self).wf(),
            width * height <= usize::MAX,
            part_fits(part@, width as nat, height as nat, *format),
        ensures
            final(self).wf(),
            match session_image(
                old(self).calls(),
                resets,
                part@,
                width as nat,
                height as nat,
                *format,
            ) {
                Ok(image) => r matches Ok(v) && v@ == image && final(self).calls() == part_calls(
                    after_resets(old(self).calls(), resets),
                    part@,
                ),
                Err(f) => r matches Err(e) && e@ == f,
            },
            calls_left(after_resets(old(self).calls(), resets), part@, final(self).calls()),
            r matches Ok(TightImage::Raster(v)) ==> v@.len() == width * height,
    {
        self.reset(resets);
        assert(0 <= width * height) by (nonlinear_arith)
            requires
                width >= 0,
                height >= 0,
        ;
        match part {
            TightPart::Fill(colour) => Ok(
                TightImage::Raster(blank_raster(width * height, colour)),
            ),
            TightPart::Jpeg(data) => Ok(TightImage::Jpeg(data)),
            TightPart::Pixels { filter, data } => match undo_filter(
                &filter,
                &data,
                width,
                height,
                format,
            ) {
                Err(e) => Err(e),
                Ok(raster) => Ok(TightImage::Raster(raster)),
            },
            TightPart::Packed { stream, filter, size, chunk } => {
                let ghost before = self.calls();
                assert(before[stream as int] == self.streams@[stream as int].calls());
                let fed = self.streams[stream].feed(&chunk, size, size);
                assert(self.calls() =~= before.update(
                    stream as int,
                    self.streams@[stream as int].calls(),
                ));
                match fed {
                    Err(e) => Err(e),
                    Ok(data) => {
                        match undo_filter(&filter, &data, width, height, format) {
                            Err(e) => Err(e),
                            Ok(raster) => Ok(TightImage::Raster(raster)),
                        }
                    },
                }
            },
        }
    }
}

/// A rectangle that was decoded: how many bytes it took, and the JPEG image
/// that is left to paint, where there is one.
pub struct TightDone {
    pub used: usize,
    pub jpeg: Option<Vec<u8>>,
}

/// Decode a Tight-encoded rectangle into the framebuffer. `None` asks for more
/// bytes. A JPEG image is returned and not painted.
pub fn decode(
    input: &[u8],
    streams: &mut TightStreams,
    fb: &mut Framebuffer,
    rect_x: usize,
    rect_y: usize,
    rect_w: usize,
    rect_h: usize,
    pixel_format: &PixelFormat,
) -> (r: Result<Option<TightDone>, VncError>)
    requires
        old(streams).wf(),
        old(fb).addressable(rect_x, rect_y, rect_w, rect_h),
        rect_w * rect_h <= usize::MAX,
        rect_w * rect_h * 33 + 64 <= u64::MAX,
    ensures
        final(streams).wf(),
        match tight_read(input@, rect_w as nat, rect_h as nat, *pixel_format) {
            TightRead::Short => r matches Ok(None) && final(fb)@ == old(fb)@
                && final(streams).calls() == old(streams).calls(),
            TightRead::Bad(f) => r matches Err(e) && e@ == f && final(fb)@ == old(fb)@
                && final(streams).calls() == old(streams).calls(),
            TightRead::Done { part, resets, used } => match session_image(
                old(streams).calls(),
                resets,
                part,
                rect_w as nat,
                rect_h as nat,
                *pixel_format,
            ) {
                Err(f) => r matches Err(e) && e@ == f && final(fb)@ == old(fb)@ && calls_left(
                    after_resets(old(streams).calls(), resets),
                    part,
                    final(streams).calls(),
                ),
                Ok(image) => {
                    &&& final(streams).calls() == part_calls(
                        after_resets(old(streams).calls(), resets),
                        part,
                    )
                    &&& r matches Ok(Some(done)) && done.used == used && match image {
                        ImageView::Raster(raster) => done.jpeg is None && final(fb)@ == old(
                            fb,
                        )@.with_raster(
                            rect_x as int,
                            rect_y as int,
                            rect_w as int,
                            rect_h as int,
                            raster,
                        ),
                        ImageView::Jpeg(data) => final(fb)@ == old(fb)@ && (done.jpeg matches Some(
                            v,
                        ) && v@ == data),
                    }
                },
            },
        },
{
    match read_rect(input, rect_w, rect_h, pixel_format) {
        Ok(None) => Ok(None),
        Err(e) => Err(e),
        Ok(Some(rect)) => {
            let used: usize = rect.used;
            match streams.decode_part(rect.part, rect.resets, rect_w, rect_h, pixel_format) {
                Err(e) => Err(e),
                Ok(TightImage::Jpeg(data)) => Ok(Some(TightDone { used, jpeg: Some(data) })),
                Ok(TightImage::Raster(raster)) => {
                    paint(fb, rect_x, rect_y, rect_w, rect_h, &raster);
                    Ok(Some(TightDone { used, jpeg: None }))
                },
            }
        },
    }
}

} // verus!
