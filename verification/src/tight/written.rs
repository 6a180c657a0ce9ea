//! A rectangle as a server writes it, and how it is read back.

use vstd::prelude::*;

use super::{
    after_resets, compact, counted, filter_read, filtered_size, gradient_byte, gradient_bytes,
    lemma_compact_round_trip, palette_index, part_image, tight_read, unfiltered, FilterRead,
    FilterView, ImageView, PartView, TightRead,
};
use crate::pixel_format::PixelFormat;
use crate::raster::{blank, ccolour_of};
use crate::trle::ccolours_of;
use crate::trle::written::{
    lemma_packed_reads_back, lemma_palette_reads_back, packs, pixels_valid, shades,
};
use crate::wire::{holds, lemma_holds_both, lemma_joined};

verus! {

/// The pixels of a rectangle as a server writes them. Pixels are given by their
/// bytes.
pub enum Content {
    /// Every pixel, with or without a word that says so.
    Copy { named: bool, pixels: Seq<Seq<u8>> },
    /// Up to 256 pixels, and a number for each place.
    Palette { palette: Seq<Seq<u8>>, numbers: Seq<int>, body: Seq<u8> },
    /// Every pixel, as what it differs by from the one its neighbours suggest.
    Gradient { pixels: Seq<Seq<u8>> },
}

/// A number that is kept between 0 and 255.
pub open spec fn clamped(v: int) -> int {
    if v < 0 {
        0
    } else if v > 255 {
        255
    } else {
        v
    }
}

/// What the neighbours of byte `i` suggest, in rows of `w` pixels of three bytes:
/// left plus above less the one between; what lies outside counts as zero.
pub open spec fn suggested(v: Seq<u8>, w: int, i: int) -> int {
    let inner = i / 3 % w > 0;
    let lower = i / (3 * w) > 0;
    let left: int = if inner {
        v[i - 3] as int
    } else {
        0
    };
    let above: int = if lower {
        v[i - 3 * w] as int
    } else {
        0
    };
    let between: int = if inner && lower {
        v[i - 3 * w - 3] as int
    } else {
        0
    };
    clamped(left + above - between)
}

/// What each byte differs by from the suggestion, modulo 256.
pub open spec fn differences(v: Seq<u8>, w: int) -> Seq<u8> {
    Seq::new(v.len(), |i: int| ((v[i] - suggested(v, w, i)) % 256) as u8)
}

impl Content {
    /// Whether this can be written for a rectangle of `w` by `h` pixels.
    pub open spec fn valid(self, format: PixelFormat, w: int, h: int) -> bool {
        match self {
            Content::Copy { named, pixels } => pixels_valid(format, pixels) && pixels.len() == w
                * h,
            Content::Palette { palette, numbers, body } => {
                &&& 1 <= palette.len() <= 256
                &&& pixels_valid(format, palette)
                &&& numbers.len() == w * h
                &&& forall|k: int|
                    0 <= k < numbers.len() ==> 0 <= #[trigger] numbers[k] < palette.len()
                &&& if palette.len() <= 2 {
                    packs(body, numbers, 1, w, h)
                } else {
                    body.len() == numbers.len() && forall|k: int|
                        0 <= k < numbers.len() ==> #[trigger] body[k] == numbers[k]
                }
            },
            Content::Gradient { pixels } => format.cpixel_len() == 3 && pixels_valid(format, pixels)
                && pixels.len() == w * h,
        }
    }

    /// What says how the pixels are written.
    pub open spec fn head(self) -> Seq<u8> {
        match self {
            Content::Copy { named, pixels } => if named {
                seq![0u8]
            } else {
                Seq::empty()
            },
            Content::Palette { palette, numbers, body } => seq![1u8, (palette.len() - 1) as u8]
                + palette.flatten(),
            Content::Gradient { pixels } => seq![2u8],
        }
    }

    /// Whether there is a word that says how the pixels are written.
    pub open spec fn named(self) -> bool {
        match self {
            Content::Copy { named, pixels } => named,
            _ => true,
        }
    }

    /// The pixels, before they are compressed.
    pub open spec fn data(self, w: int) -> Seq<u8> {
        match self {
            Content::Copy { named, pixels } => pixels.flatten(),
            Content::Palette { palette, numbers, body } => body,
            Content::Gradient { pixels } => differences(pixels.flatten(), w),
        }
    }

    /// The colours of the rectangle, row by row.
    pub open spec fn shown(self, format: PixelFormat) -> Seq<u32> {
        match self {
            Content::Copy { named, pixels } => shades(format, pixels),
            Content::Palette { palette, numbers, body } => Seq::new(
                numbers.len(),
                |k: int| ccolour_of(format, palette[numbers[k]]),
            ),
            Content::Gradient { pixels } => shades(format, pixels),
        }
    }

    spec fn filter(self, format: PixelFormat) -> FilterView {
        match self {
            Content::Copy { named, pixels } => FilterView::Copy,
            Content::Palette { palette, numbers, body } => FilterView::Palette(
                shades(format, palette),
            ),
            Content::Gradient { pixels } => FilterView::Gradient,
        }
    }
}

#[verifier::spinoff_prover]
proof fn lemma_neighbours(w: int, i: int)
    requires
        0 < w,
        0 <= i,
    ensures
        i / (3 * w) > 0 <==> i >= 3 * w,
        i / 3 % w > 0 ==> i >= 3,
        i / 3 % w > 0 && i >= 3 * w ==> i >= 3 * w + 3,
{
    vstd::arithmetic::div_mod::lemma_fundamental_div_mod(i, 3 * w);
    let q = i / (3 * w);
    assert(q > 0 <==> i >= 3 * w) by (nonlinear_arith)
        requires
            i == (3 * w) * q + i % (3 * w),
            0 <= i % (3 * w) < 3 * w,
            0 <= i,
            0 < w,
    ;
    if i < 3 {
        assert(i / 3 == 0);
        vstd::arithmetic::div_mod::lemma_small_mod(0, w as nat);
    }
    if 3 * w <= i < 3 * w + 3 {
        assert(i / 3 == w);
        vstd::arithmetic::div_mod::lemma_mod_self_0(w);
    }
}

proof fn lemma_difference(v: int, s: int)
    requires
        0 <= v < 256,
        0 <= s < 256,
    ensures
        0 <= (v - s) % 256 < 256,
        ((v - s) % 256 + s) % 256 == v,
{
}

#[verifier::spinoff_prover]
proof fn lemma_gradient_byte(v: Seq<u8>, w: int, i: int)
    requires
        0 < w,
        0 <= i < v.len(),
    ensures
        gradient_byte(differences(v, w), w, i) == v[i],
    decreases i,
{
    let data = differences(v, w);
    lemma_neighbours(w, i);
    let lower = i / (3 * w) > 0;
    let inner = i / 3 % w > 0;
    if inner {
        lemma_gradient_byte(v, w, i - 3);
    }
    if lower {
        lemma_gradient_byte(v, w, i - 3 * w);
    }
    if inner && lower {
        lemma_gradient_byte(v, w, i - 3 * w - 3);
    }
    let s = suggested(v, w, i);
    lemma_difference(v[i] as int, s);
    assert(data[i] == (v[i] - s) % 256);
}

/// Pixels that were written as differences from what their neighbours suggest
/// come out as they were.
pub proof fn lemma_gradient_reads_back(v: Seq<u8>, w: int)
    requires
        0 < w,
    ensures
        gradient_bytes(differences(v, w), w) == v,
{
    let out = gradient_bytes(differences(v, w), w);
    assert forall|i: int| 0 <= i < v.len() implies out[i] == v[i] by {
        lemma_gradient_byte(v, w, i);
    }
    assert(out =~= v);
}

proof fn lemma_pixels_come_out(format: PixelFormat, pixels: Seq<Seq<u8>>)
    requires
        pixels_valid(format, pixels),
    ensures
        ccolours_of(format, pixels.flatten(), pixels.len()) == shades(format, pixels),
        pixels.flatten().len() == pixels.len() * format.cpixel_len(),
{
    let s = pixels.flatten();
    lemma_palette_reads_back(s, 0, format, pixels);
    assert(s.subrange(0, s.len() as int) =~= s);
}

/// Whatever way the pixels are written, they come out as the colours that were
/// written.
#[verifier::spinoff_prover]
proof fn lemma_content_reads_back(content: Content, format: PixelFormat, w: nat, h: nat)
    requires
        0 < w,
        content.valid(format, w as int, h as int),
    ensures
        unfiltered(content.filter(format), content.data(w as int), w, h, format) == Ok::<
            Seq<u32>,
            crate::error::Failure,
        >(content.shown(format)),
        content.shown(format).len() == w * h,
{
    match content {
        Content::Copy { named, pixels } => {
            lemma_pixels_come_out(format, pixels);
        },
        Content::Gradient { pixels } => {
            lemma_pixels_come_out(format, pixels);
            lemma_gradient_reads_back(pixels.flatten(), w as int);
        },
        Content::Palette { palette, numbers, body } => {
            let size = palette.len();
            assert forall|k: int| 0 <= k < w * h implies #[trigger] palette_index(
                body,
                w as int,
                size,
                k,
            ) == numbers[k] && 0 <= numbers[k] < size by {
                if size <= 2 {
                    lemma_packed_reads_back(body, numbers, 1, w as int, h as int, k);
                } else {
                    assert(body[k] == numbers[k]);
                }
            }
            let colours = shades(format, palette);
            assert(Seq::new(
                w * h,
                |k: int| colours[palette_index(body, w as int, colours.len(), k)],
            ) =~= content.shown(format));
        },
    }
}

/// A rectangle as a server writes it.
pub enum WrittenRect {
    /// One pixel for all.
    Fill { pixel: Seq<u8> },
    /// A JPEG image.
    Jpeg { data: Seq<u8> },
    /// Few enough bytes of pixels to come as they are.
    Pixels { stream: int, content: Content },
    /// Pixels that were compressed into a chunk of one of four streams.
    Packed { stream: int, content: Content, chunk: Seq<u8> },
}

/// A length: seven bits to a byte, the lowest first, and the high bit of a byte
/// says that another follows. A third byte has eight bits.
pub open spec fn length_bytes(n: int) -> Seq<u8> {
    if n < 128 {
        seq![n as u8]
    } else if n < 16384 {
        seq![(n % 128 + 128) as u8, (n / 128) as u8]
    } else {
        seq![(n % 128 + 128) as u8, (n / 128 % 128 + 128) as u8, (n / 16384) as u8]
    }
}

/// The first byte: the kind in the high half, and in the low half a bit for each
/// stream that starts anew.
pub open spec fn control(kind: int, resets: int) -> Seq<u8> {
    seq![(kind * 16 + resets) as u8]
}

/// The kind of a rectangle of pixels.
pub open spec fn pixels_kind(stream: int, content: Content) -> int {
    if content.named() {
        stream + 4
    } else {
        stream
    }
}

impl WrittenRect {
    /// Whether this can be written for a rectangle of `w` by `h` pixels.
    pub open spec fn valid(self, format: PixelFormat, w: int, h: int) -> bool {
        match self {
            WrittenRect::Fill { pixel } => pixel.len() == format.cpixel_len(),
            WrittenRect::Jpeg { data } => data.len() < 0x40_0000,
            WrittenRect::Pixels { stream, content } => {
                &&& 0 <= stream < 4
                &&& content.valid(format, w, h)
                &&& content.data(w).len() < 12
            },
            WrittenRect::Packed { stream, content, chunk } => {
                &&& 0 <= stream < 4
                &&& content.valid(format, w, h)
                &&& content.data(w).len() >= 12
                &&& chunk.len() < 0x40_0000
            },
        }
    }

    /// The bytes of the rectangle.
    pub open spec fn bytes(self, resets: int, w: int) -> Seq<u8> {
        match self {
            WrittenRect::Fill { pixel } => control(8, resets) + pixel,
            WrittenRect::Jpeg { data } => control(9, resets) + (length_bytes(data.len() as int)
                + data),
            WrittenRect::Pixels { stream, content } => control(
                pixels_kind(stream, content),
                resets,
            ) + (content.head() + content.data(w)),
            WrittenRect::Packed { stream, content, chunk } => control(
                pixels_kind(stream, content),
                resets,
            ) + (content.head() + (length_bytes(chunk.len() as int) + chunk)),
        }
    }

    spec fn part(self, format: PixelFormat, w: int) -> PartView {
        match self {
            WrittenRect::Fill { pixel } => PartView::Fill(ccolour_of(format, pixel)),
            WrittenRect::Jpeg { data } => PartView::Jpeg(data),
            WrittenRect::Pixels { stream, content } => PartView::Pixels {
                filter: content.filter(format),
                data: content.data(w),
            },
            WrittenRect::Packed { stream, content, chunk } => PartView::Packed {
                stream: stream as nat,
                filter: content.filter(format),
                size: content.data(w).len(),
                chunk,
            },
        }
    }
}

proof fn lemma_counted(s: Seq<u8>, pos: int, data: Seq<u8>)
    requires
        data.len() < 0x40_0000,
        holds(s, pos, length_bytes(data.len() as int) + data),
    ensures
        counted(s, pos) == Some(
            (data, (pos + length_bytes(data.len() as int).len() + data.len()) as int),
        ),
{
    let n = data.len() as u32;
    let head = length_bytes(data.len() as int);
    lemma_holds_both(s, pos, head, data);
    assert(head =~= compact(n));
    let (pre, post) = (s.take(pos), s.skip(pos + head.len()));
    lemma_compact_round_trip(pre, n, post);
    assert(s =~= pre + compact(n) + post);
    let at = pos + head.len();
    assert(s.subrange(at, at + data.len()) =~= data);
}

#[verifier::spinoff_prover]
proof fn lemma_head_reads_back(
    s: Seq<u8>,
    content: Content,
    format: PixelFormat,
    w: int,
    h: int,
    rest: Seq<u8>,
)
    requires
        content.valid(format, w, h),
        holds(s, 1, content.head() + rest),
    ensures
        filter_read(s, content.named(), format) == (FilterRead::Done {
            filter: content.filter(format),
            pos: 1 + content.head().len() as int,
        }),
{
    lemma_holds_both(s, 1, content.head(), rest);
    let head = content.head();
    let one: int = 1;
    match content {
        Content::Copy { named, pixels } => {
            if named {
                assert(s[one + 0] == head[0]);
            }
        },
        Content::Palette { palette, numbers, body } => {
            lemma_holds_both(
                s,
                1,
                seq![1u8, (palette.len() - 1) as u8],
                palette.flatten(),
            );
            assert(s[one + 0] == head[0] && s[one + 1] == head[1]);
            lemma_palette_reads_back(s, 3, format, palette);
        },
        Content::Gradient { pixels } => {
            assert(s[one + 0] == head[0]);
        },
    }
}

proof fn lemma_data_len(content: Content, format: PixelFormat, w: nat, h: nat)
    requires
        content.valid(format, w as int, h as int),
    ensures
        filtered_size(content.filter(format), w, h, format) == content.data(w as int).len(),
{
    match content {
        Content::Copy { named, pixels } => {
            lemma_joined(pixels, format.cpixel_len() as int);
        },
        Content::Gradient { pixels } => {
            lemma_joined(pixels, format.cpixel_len() as int);
        },
        _ => {},
    }
}

#[verifier::rlimit(30)]
#[verifier::spinoff_prover]
proof fn lemma_bytes_read_back(
    s: Seq<u8>,
    written: WrittenRect,
    resets: int,
    format: PixelFormat,
    w: nat,
    h: nat,
)
    requires
        0 <= resets < 16,
        written.valid(format, w as int, h as int),
        holds(s, 0, written.bytes(resets, w as int)),
    ensures
        tight_read(s, w, h, format) == (TightRead::Done {
            part: written.part(format, w as int),
            resets: resets as u8,
            used: written.bytes(resets, w as int).len() as int,
        }),
{
    let all = written.bytes(resets, w as int);
    let z: int = 0;
    assert(s[z + 0] == all[0]);
    match written {
        WrittenRect::Fill { pixel } => {
            lemma_holds_both(s, 0, control(8, resets), pixel);
            assert(s.subrange(1, 1 + pixel.len() as int) =~= pixel);
        },
        WrittenRect::Jpeg { data } => {
            let body = length_bytes(data.len() as int) + data;
            lemma_holds_both(s, 0, control(9, resets), body);
            lemma_counted(s, 1, data);
        },
        WrittenRect::Pixels { stream, content } => {
            let kind = pixels_kind(stream, content);
            let data = content.data(w as int);
            lemma_holds_both(s, 0, control(kind, resets), content.head() + data);
            assert(s[0] / 16 == kind && s[0] % 16 == resets);
            lemma_head_reads_back(s, content, format, w as int, h as int, data);
            lemma_data_len(content, format, w, h);
            lemma_holds_both(s, 1, content.head(), data);
            let pos = 1 + content.head().len() as int;
            assert(s.subrange(pos, pos + data.len()) =~= data);
        },
        WrittenRect::Packed { stream, content, chunk } => {
            let kind = pixels_kind(stream, content);
            let tail = length_bytes(chunk.len() as int) + chunk;
            lemma_holds_both(s, 0, control(kind, resets), content.head() + tail);
            assert(s[0] / 16 == kind && s[0] % 16 == resets);
            lemma_head_reads_back(s, content, format, w as int, h as int, tail);
            lemma_data_len(content, format, w, h);
            lemma_holds_both(s, 1, content.head(), tail);
            lemma_counted(s, 1 + content.head().len() as int, chunk);
        },
    }
}

/// A rectangle that was written is read up to the byte where it ends, and comes
/// to the picture that was written: one colour, a JPEG image, or the pixels,
/// given that the chunk of a compressed one inflates to what was compressed.
#[verifier::rlimit(30)]
#[verifier::spinoff_prover]
pub proof fn lemma_rectangle_reads_back(
    s: Seq<u8>,
    written: WrittenRect,
    resets: int,
    out: Option<Seq<u8>>,
    format: PixelFormat,
    w: nat,
    h: nat,
)
    requires
        0 < w,
        0 <= resets < 16,
        written.valid(format, w as int, h as int),
        holds(s, 0, written.bytes(resets, w as int)),
        written matches WrittenRect::Packed { stream, content, chunk } ==> out == Some(
            content.data(w as int),
        ),
    ensures
        tight_read(s, w, h, format) matches TightRead::Done { part, resets: fresh, used } && {
            &&& used == written.bytes(resets, w as int).len()
            &&& fresh == resets
            &&& match written {
                WrittenRect::Packed { stream, content, chunk } => part matches PartView::Packed {
                    stream: i,
                    size: n,
                    chunk: c,
                    ..
                } && i == stream && c == chunk && n == content.data(w as int).len(),
                _ => !(part is Packed),
            }
            &&& part_image(part, out, w, h, format) matches Ok(image) && match written {
                WrittenRect::Fill { pixel } => image == ImageView::Raster(
                    Seq::new(w * h, |i: int| ccolour_of(format, pixel)),
                ),
                WrittenRect::Jpeg { data } => image == ImageView::Jpeg(data),
                WrittenRect::Pixels { stream, content } => image == ImageView::Raster(
                    content.shown(format),
                ) && content.shown(format).len() == w * h,
                WrittenRect::Packed { stream, content, chunk } => image == ImageView::Raster(
                    content.shown(format),
                ) && content.shown(format).len() == w * h,
            }
        },
{
    lemma_bytes_read_back(s, written, resets, format, w, h);
    match written {
        WrittenRect::Fill { pixel } => {
            let colour = ccolour_of(format, pixel);
            assert(blank(w * h, colour) =~= Seq::new(w * h, |i: int| ccolour_of(format, pixel)));
        },
        WrittenRect::Jpeg { data } => {},
        WrittenRect::Pixels { stream, content } => {
            lemma_content_reads_back(content, format, w, h);
        },
        WrittenRect::Packed { stream, content, chunk } => {
            lemma_content_reads_back(content, format, w, h);
        },
    }
}

/// Each of the four low bits of the first byte of a rectangle starts one stream
/// anew, the lowest the first; the other streams keep what they were given.
pub proof fn lemma_streams_start_anew(
    calls: Seq<Seq<Seq<u8>>>,
    first: bool,
    second: bool,
    third: bool,
    fourth: bool,
)
    requires
        calls.len() == 4,
    ensures
        ({
            let resets = (if first {
                1int
            } else {
                0
            }) + (if second {
                2int
            } else {
                0
            }) + (if third {
                4int
            } else {
                0
            }) + (if fourth {
                8int
            } else {
                0
            });
            let after = after_resets(calls, resets as u8);
            &&& after.len() == 4
            &&& after[0] == if first { Seq::empty() } else { calls[0] }
            &&& after[1] == if second { Seq::empty() } else { calls[1] }
            &&& after[2] == if third { Seq::empty() } else { calls[2] }
            &&& after[3] == if fourth { Seq::empty() } else { calls[3] }
        }),
{
}

} // verus!
