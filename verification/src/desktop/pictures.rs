//! What a rectangle leaves on the screen, pixel by pixel.

use vstd::prelude::*;

use super::rects::{body_outcome, decoded_body, frame_painted, plain_done};
use super::{outcome, Outcome, Scene, Task};
use crate::event::Event;
use crate::framebuffer::{lemma_region_keeps_size, pixels_written, Image, Move};
use crate::hextile::{self, HextileState};
use crate::messages::RectHeader;
use crate::pixel_format::PixelFormat;
use crate::raster::{lemma_place, lemma_place_in, raster_bytes, Decoded};
use crate::rre;
use crate::trle;
use crate::wire::{holds, u16_of};

verus! {

/// Whether the input starts with the header of a rectangle of `w` by `h` pixels
/// at `(x, y)`. Numbers have their most significant byte first, and `code` is
/// the encoding modulo 2 to the 32nd.
pub open spec fn announces(input: Seq<u8>, x: int, y: int, w: int, h: int, code: int) -> bool {
    &&& input.len() >= 12
    &&& input[0] * 256 + input[1] == x
    &&& input[2] * 256 + input[3] == y
    &&& input[4] * 256 + input[5] == w
    &&& input[6] * 256 + input[7] == h
    &&& input[8] * 0x100_0000 + input[9] * 0x1_0000 + input[10] * 256 + input[11] == code
}

impl Image {
    /// Channel `k` of the pixel in column `u` of row `v`: rows follow one
    /// another, and a pixel has four bytes.
    pub open spec fn dot(self, u: int, v: int, k: int) -> u8 {
        self.data[v * (self.width * 4) + (u * 4 + k)]
    }

    /// Whether this image has the size of another, shows the same way up, and
    /// differs from it at most in a rectangle.
    pub open spec fn differs_within(self, other: Image, x: int, y: int, w: int, h: int) -> bool {
        &&& self.width == other.width
        &&& self.height == other.height
        &&& self.transform == other.transform
        &&& self.data.len() == other.data.len()
        &&& forall|u: int, v: int, k: int|
            0 <= u < self.width && 0 <= v < self.height && 0 <= k < 4 && !(x <= u < x + w && y <= v
                < y + h) ==> #[trigger] self.dot(u, v, k) == other.dot(u, v, k)
    }
}

/// The scene that a rectangle leads to, where it is complete at once and reports
/// nothing but the update of its area.
pub open spec fn painted_scene(o: Outcome, x: int, y: int, w: int, h: int, used: int) -> Option<
    Scene,
> {
    match o {
        Outcome::Done { scene, used: n, events, replies, task } => if n == used && events.len() == 1
            && (events[0] matches Event::FramebufferUpdate { x: a, y: b, width: c, height: d } && a
            == x && b == y && c == w && d == h) && replies.len() == 0 && task == Task::Nothing {
            Some(scene)
        } else {
            None
        },
        _ => None,
    }
}

pub(crate) proof fn lemma_header(input: Seq<u8>, x: int, y: int, w: int, h: int, code: int)
    requires
        announces(input, x, y, w, h, code),
    ensures
        ({
            let head = RectHeader::read(input);
            &&& head.x == x
            &&& head.y == y
            &&& head.width == w
            &&& head.height == h
            &&& code < 0x8000_0000 ==> head.encoding == code
            &&& code >= 0x8000_0000 ==> head.encoding == code - 0x1_0000_0000
        }),
{
}

/// What a body that is done at once makes of the scene.
#[verifier::rlimit(30)]
#[verifier::spinoff_prover]
proof fn lemma_painted(
    s: Scene,
    input: Seq<u8>,
    ends: Seq<usize>,
    x: int,
    y: int,
    w: int,
    h: int,
    code: int,
    opened: Scene,
    after: Scene,
    used: int,
)
    requires
        s.pending > 0,
        announces(input, x, y, w, h, code),
        w <= 16384,
        h <= 16384,
        opened == s.rect_opened(RectHeader::read(input)),
        body_outcome(opened, RectHeader::read(input), input.skip(12), ends) == plain_done(
            after,
            used,
        ),
    ensures
        painted_scene(outcome(s, input, ends), x, y, w, h, used + 12) == Some(after.rect_closed()),
{
    lemma_header(input, x, y, w, h, code);
}

#[verifier::spinoff_prover]
proof fn lemma_copied(image: Image, sx: int, sy: int, x: int, y: int, w: int, h: int)
    requires
        image.covered(),
        0 <= x,
        0 <= y,
        0 <= w,
        0 <= h,
        0 <= sx,
        0 <= sy,
        x + w <= image.width,
        y + h <= image.height,
        sx + w <= image.width,
        sy + h <= image.height,
    ensures
        image.with_copy(sx, sy, x, y, w, h as nat).differs_within(image, x, y, w, h),
        forall|i: int, j: int, k: int|
            0 <= i < w && 0 <= j < h && 0 <= k < 4 ==> #[trigger] image.with_copy(
                sx,
                sy,
                x,
                y,
                w,
                h as nat,
            ).dot(x + i, y + j, k) == image.dot(sx + i, sy + j, k),
{
    let m = Move {
        stride: image.width as int,
        src_x: sx,
        src_y: sy,
        dst_x: x,
        dst_y: y,
        width: w,
    };
    let rows = image.height as int;
    assert(rows * m.stride * 4 <= image.data.len()) by (nonlinear_arith)
        requires
            image.width * image.height * 4 <= image.data.len(),
            rows == image.height,
            m.stride == image.width,
    ;
    let after = image.with_copy(sx, sy, x, y, w, h as nat);
    lemma_copy_len(m, image.data, h as nat, h as nat);
    assert forall|u: int, v: int, k: int|
        0 <= u < image.width && 0 <= v < rows && 0 <= k < 4 implies #[trigger] after.dot(u, v, k)
        == if x <= u < x + w && y <= v < y + h {
        image.dot(u - x + sx, v - y + sy, k)
    } else {
        image.dot(u, v, k)
    } by {
        m.lemma_copy_moves_the_rectangle(image.data, rows, h as nat, v, u * 4 + k);
    }
    assert forall|i: int, j: int, k: int| 0 <= i < w && 0 <= j < h && 0 <= k
        < 4 implies #[trigger] after.dot(x + i, y + j, k) == image.dot(sx + i, sy + j, k) by {
        assert(after.dot(x + i, y + j, k) == image.dot(x + i - x + sx, y + j - y + sy, k));
    }
}

proof fn lemma_copy_len(m: Move, data: Seq<u8>, height: nat, n: nat)
    ensures
        m.downward(data, n).len() == data.len(),
        m.upward(data, height, n).len() == data.len(),
    decreases n,
{
    if n > 0 {
        lemma_copy_len(m, data, height, (n - 1) as nat);
    }
}

/// A rectangle that is copied inside the desktop arrives as it was: after a
/// CopyRect rectangle at `(x, y)` whose body names `(sx, sy)`, the pixel at
/// `(x + i, y + j)` is the one that was at `(sx + i, sy + j)`, even where the
/// two places overlap, and every pixel outside the rectangle at `(x, y)` is the
/// one that was there.
#[verifier::rlimit(30)]
#[verifier::spinoff_prover]
pub proof fn lemma_copied_rectangle_arrives(
    s: Scene,
    input: Seq<u8>,
    ends: Seq<usize>,
    x: int,
    y: int,
    w: int,
    h: int,
    sx: int,
    sy: int,
)
    requires
        s.pending > 0,
        s.image.covered(),
        announces(input, x, y, w, h, 1),
        input.len() >= 16,
        input[12] * 256 + input[13] == sx,
        input[14] * 256 + input[15] == sy,
        w <= 16384,
        h <= 16384,
        x + w <= s.image.width,
        y + h <= s.image.height,
        sx + w <= s.image.width,
        sy + h <= s.image.height,
    ensures
        painted_scene(outcome(s, input, ends), x, y, w, h, 16) matches Some(scene) && {
            &&& scene.image.differs_within(s.image, x, y, w, h)
            &&& forall|i: int, j: int, k: int|
                0 <= i < w && 0 <= j < h && 0 <= k < 4 ==> #[trigger] scene.image.dot(
                    x + i,
                    y + j,
                    k,
                ) == s.image.dot(sx + i, sy + j, k)
        },
{
    lemma_header(input, x, y, w, h, 1);
    let b = input.skip(12);
    assert(u16_of(b, 0) == sx);
    assert(u16_of(b, 2) == sy);
    lemma_copied(s.image, sx, sy, x, y, w, h);
    let opened = s.rect_opened(RectHeader::read(input));
    let after = opened.with_image(s.image.with_copy(sx, sy, x, y, w, h as nat));
    lemma_painted(s, input, ends, x, y, w, h, 1, opened, after, 4);
}

#[verifier::spinoff_prover]
proof fn lemma_pixels_dots(
    image: Image,
    x: int,
    y: int,
    w: int,
    h: int,
    src: Seq<u8>,
    format: PixelFormat,
    n: nat,
    u: int,
    v: int,
    k: int,
)
    requires
        image.covered(),
        0 <= x,
        0 <= y,
        0 < w,
        0 <= h,
        n <= w * h,
        src.len() >= w * h * format.pixel_len(),
        0 <= u < image.width,
        0 <= v < image.height,
        0 <= k < 4,
    ensures
        ({
            let data = pixels_written(image, x, y, w, src, format, n);
            let at = v * (image.width * 4) + (u * 4 + k);
            let q = (v - y) * w + (u - x);
            let len = format.pixel_len() as int;
            &&& data.len() == image.data.len()
            &&& data[at] == if x <= u < x + w && y <= v && q < n {
                format.rgba_of(src.subrange(q * len, q * len + len))[k]
            } else {
                image.data[at]
            }
        }),
    decreases n,
{
    if n > 0 {
        let p = n - 1;
        let len = format.pixel_len() as int;
        lemma_pixels_dots(image, x, y, w, h, src, format, p as nat, u, v, k);
        let wide = image.width as int;
        let (a, b) = (x + p % w, y + p / w);
        lemma_place_in(p, w, h);
        let q = (v - y) * w + (u - x);
        let at = v * (wide * 4) + (u * 4 + k);
        let to = (b * wide + a) * 4;
        assert(to == b * (wide * 4) + a * 4) by (nonlinear_arith)
            requires
                to == (b * wide + a) * 4,
        ;
        if x <= u < x + w && y <= v {
            lemma_place(u - x, v - y, w);
        }
        if a < wide && b < image.height {
            lemma_dot_inside(image, a, b, 3);
            assert(0 <= p * len && p * len + len <= src.len()) by (nonlinear_arith)
                requires
                    0 <= p < w * h,
                    src.len() >= w * h * len,
                    len >= 0,
            ;
            lemma_dot_inside(image, u, v, k);
            if v != b {
                lemma_dots_apart(b, v, wide, a, u, k);
            }
        }
    }
}

proof fn lemma_dots_apart(b: int, v: int, wide: int, a: int, u: int, k: int)
    requires
        b != v,
        0 <= a < wide,
        0 <= u < wide,
        0 <= k < 4,
    ensures
        !(b * (wide * 4) + a * 4 <= v * (wide * 4) + (u * 4 + k) < b * (wide * 4) + a * 4 + 4),
{
    let s = wide * 4;
    assert(b * s + s <= v * s || v * s + s <= b * s) by (nonlinear_arith)
        requires
            b != v,
            s > 0,
    ;
}

/// The bytes of a pixel of the image are there.
proof fn lemma_dot_inside(image: Image, u: int, v: int, k: int)
    requires
        image.covered(),
        0 <= u < image.width,
        0 <= v < image.height,
        0 <= k < 4,
    ensures
        0 <= v * (image.width * 4) + (u * 4 + k) < image.data.len(),
{
    let s = image.width * 4;
    assert(0 <= v * s && v * s + s <= image.data.len()) by (nonlinear_arith)
        requires
            0 <= v < image.height,
            s == image.width * 4,
            image.width * image.height * 4 <= image.data.len(),
    ;
}

#[verifier::spinoff_prover]
proof fn lemma_region_dots(
    image: Image,
    x: int,
    y: int,
    w: int,
    h: int,
    src: Seq<u8>,
    format: PixelFormat,
    u: int,
    v: int,
    k: int,
)
    requires
        image.covered(),
        0 <= x,
        0 <= y,
        0 <= w,
        0 <= h,
        src.len() == w * h * format.pixel_len(),
        0 <= u < image.width,
        0 <= v < image.height,
        0 <= k < 4,
    ensures
        ({
            let q = (v - y) * w + (u - x);
            let len = format.pixel_len() as int;
            image.with_region(x, y, w, h, src, format).dot(u, v, k) == if x <= u < x + w && y <= v
                < y + h {
                if format == PixelFormat::rgba() {
                    src[q * 4 + k]
                } else {
                    format.rgba_of(src.subrange(q * len, q * len + len))[k]
                }
            } else {
                image.dot(u, v, k)
            }
        }),
{
    let q = (v - y) * w + (u - x);
    if format == PixelFormat::rgba() {
        image.lemma_region_arrives(x, y, w, h as nat, src, v, u * 4 + k);
        assert((v - y) * (w * 4) + (u * 4 + k - x * 4) == q * 4 + k) by (nonlinear_arith)
            requires
                q == (v - y) * w + (u - x),
        ;
    } else if w > 0 {
        assert(w * h >= 0) by (nonlinear_arith)
            requires
                w > 0,
                h >= 0,
        ;
        lemma_pixels_dots(image, x, y, w, h, src, format, (w * h) as nat, u, v, k);
        if x <= u < x + w && y <= v {
            assert(v < y + h <==> q < w * h) by (nonlinear_arith)
                requires
                    q == (v - y) * w + (u - x),
                    0 <= u - x < w,
                    0 <= v - y,
            ;
        }
    } else {
        assert(w * h == 0) by (nonlinear_arith)
            requires
                w == 0,
        ;
    }
}

#[verifier::spinoff_prover]
proof fn lemma_region_differs_within(
    image: Image,
    x: int,
    y: int,
    w: int,
    h: int,
    src: Seq<u8>,
    format: PixelFormat,
)
    requires
        image.covered(),
        0 <= x,
        0 <= y,
        0 <= w,
        0 <= h,
        src.len() == w * h * format.pixel_len(),
    ensures
        image.with_region(x, y, w, h, src, format).differs_within(image, x, y, w, h),
{
    let after = image.with_region(x, y, w, h, src, format);
    lemma_region_keeps_size(image, x, y, w, h, src, format);
    assert forall|u: int, v: int, k: int|
        0 <= u < image.width && 0 <= v < image.height && 0 <= k < 4 && !(x <= u < x + w && y <= v
            < y + h) implies #[trigger] after.dot(u, v, k) == image.dot(u, v, k) by {
        lemma_region_dots(image, x, y, w, h, src, format, u, v, k);
    }
}

#[verifier::spinoff_prover]
proof fn lemma_raw_dot(
    image: Image,
    x: int,
    y: int,
    w: int,
    h: int,
    input: Seq<u8>,
    format: PixelFormat,
    i: int,
    j: int,
    k: int,
)
    requires
        image.covered(),
        0 <= x,
        0 <= y,
        input.len() >= 12 + w * h * format.pixel_len(),
        0 <= i < w,
        0 <= j < h,
        x + i < image.width,
        y + j < image.height,
        0 <= k < 4,
    ensures
        ({
            let len = format.pixel_len() as int;
            let q = j * w + i;
            image.with_region(
                x,
                y,
                w,
                h,
                input.skip(12).take(w * h * len),
                format,
            ).dot(x + i, y + j, k) == if k == 3 && format == PixelFormat::rgba() {
                input[12 + q * 4 + 3]
            } else {
                format.rgba_of(input.subrange(12 + q * len, 12 + q * len + len))[k]
            }
        }),
{
    let len = format.pixel_len() as int;
    let n = w * h * len;
    let src = input.skip(12).take(n);
    let q = j * w + i;
    assert(0 <= q < w * h) by (nonlinear_arith)
        requires
            q == j * w + i,
            0 <= i < w,
            0 <= j < h,
    ;
    assert(0 <= q * len && q * len + len <= n) by (nonlinear_arith)
        requires
            0 <= q < w * h,
            n == w * h * len,
            len >= 0,
    ;
    lemma_region_dots(image, x, y, w, h, src, format, x + i, y + j, k);
    assert((y + j - y) * w + (x + i - x) == q);
    let px = input.subrange(12 + q * len, 12 + q * len + len);
    assert(src.subrange(q * len, q * len + len) =~= px);
    if format == PixelFormat::rgba() {
        PixelFormat::lemma_rgba_keeps_colours(px);
        assert(src[q * 4 + k] == px[k]);
    }
}

#[verifier::spinoff_prover]
pub(crate) proof fn lemma_raw_dots(
    image: Image,
    x: int,
    y: int,
    w: int,
    h: int,
    input: Seq<u8>,
    format: PixelFormat,
)
    requires
        image.covered(),
        0 <= x,
        0 <= y,
        0 <= w,
        0 <= h,
        input.len() >= 12 + w * h * format.pixel_len(),
    ensures
        ({
            let len = format.pixel_len() as int;
            let src = input.skip(12).take(w * h * len);
            let after = image.with_region(x, y, w, h, src, format);
            &&& after.differs_within(image, x, y, w, h)
            &&& forall|i: int, j: int, k: int|
                0 <= i < w && 0 <= j < h && x + i < image.width && y + j < image.height && 0 <= k
                    < 3 ==> #[trigger] after.dot(x + i, y + j, k) == format.rgba_of(
                    input.subrange(12 + (j * w + i) * len, 12 + (j * w + i) * len + len),
                )[k]
            &&& forall|i: int, j: int|
                0 <= i < w && 0 <= j < h && x + i < image.width && y + j < image.height
                    ==> #[trigger] after.dot(x + i, y + j, 3) == if format == PixelFormat::rgba() {
                    input[12 + (j * w + i) * 4 + 3]
                } else {
                    255
                }
        }),
{
    let len = format.pixel_len() as int;
    let n = w * h * len;
    let src = input.skip(12).take(n);
    assert(w * h >= 0 && n >= 0) by (nonlinear_arith)
        requires
            w >= 0,
            h >= 0,
            len >= 0,
            n == w * h * len,
    ;
    let after = image.with_region(x, y, w, h, src, format);
    lemma_region_differs_within(image, x, y, w, h, src, format);
    assert forall|i: int, j: int, k: int|
        0 <= i < w && 0 <= j < h && x + i < image.width && y + j < image.height && 0 <= k
            < 3 implies #[trigger] after.dot(x + i, y + j, k) == format.rgba_of(
        input.subrange(12 + (j * w + i) * len, 12 + (j * w + i) * len + len),
    )[k] by {
        lemma_raw_dot(image, x, y, w, h, input, format, i, j, k);
    }
    assert forall|i: int, j: int|
        0 <= i < w && 0 <= j < h && x + i < image.width && y + j
            < image.height implies #[trigger] after.dot(x + i, y + j, 3) == if format
        == PixelFormat::rgba() {
        input[12 + (j * w + i) * 4 + 3]
    } else {
        255
    } by {
        lemma_raw_dot(image, x, y, w, h, input, format, i, j, 3);
    }
}

#[verifier::rlimit(30)]
#[verifier::spinoff_prover]
proof fn lemma_raw_outcome(
    s: Scene,
    input: Seq<u8>,
    ends: Seq<usize>,
    x: int,
    y: int,
    w: int,
    h: int,
)
    requires
        s.pending > 0,
        announces(input, x, y, w, h, 0),
        w <= 16384,
        h <= 16384,
        input.len() >= 12 + w * h * s.format.pixel_len(),
    ensures
        painted_scene(
            outcome(s, input, ends),
            x,
            y,
            w,
            h,
            12 + w * h * s.format.pixel_len(),
        ) matches Some(scene) && scene.image == s.image.with_region(
            x,
            y,
            w,
            h,
            input.skip(12).take(w * h * s.format.pixel_len()),
            s.format,
        ),
{
    let n = w * h * s.format.pixel_len();
    lemma_header(input, x, y, w, h, 0);
    let after = s.image.with_region(x, y, w, h, input.skip(12).take(n), s.format);
    let opened = s.rect_opened(RectHeader::read(input));
    lemma_painted(s, input, ends, x, y, w, h, 0, opened, opened.with_image(after), n);
}

/// The pixels of a Raw rectangle at `(x, y)` arrive row by row: the one at
/// `(x + i, y + j)` gets the colour of pixel `j * w + i` of the body, as far as
/// it lies on the desktop, and every pixel outside the rectangle stays. The
/// fourth channel is opaque, except that pixels which come as red, green, blue
/// and a fourth byte keep that byte.
#[verifier::rlimit(30)]
#[verifier::spinoff_prover]
pub proof fn lemma_raw_rectangle_arrives(
    s: Scene,
    input: Seq<u8>,
    ends: Seq<usize>,
    x: int,
    y: int,
    w: int,
    h: int,
)
    requires
        s.pending > 0,
        s.image.covered(),
        announces(input, x, y, w, h, 0),
        w <= 16384,
        h <= 16384,
        input.len() >= 12 + w * h * s.format.pixel_len(),
    ensures
        painted_scene(
            outcome(s, input, ends),
            x,
            y,
            w,
            h,
            12 + w * h * s.format.pixel_len(),
        ) matches Some(scene) && {
            let len = s.format.pixel_len() as int;
            let rgba = s.format == PixelFormat::rgba();
            &&& scene.image.differs_within(s.image, x, y, w, h)
            &&& forall|i: int, j: int, k: int|
                0 <= i < w && 0 <= j < h && x + i < s.image.width && y + j < s.image.height && 0
                    <= k < 3 ==> #[trigger] scene.image.dot(x + i, y + j, k) == s.format.rgba_of(
                    input.subrange(12 + (j * w + i) * len, 12 + (j * w + i) * len + len),
                )[k]
            &&& forall|i: int, j: int|
                0 <= i < w && 0 <= j < h && x + i < s.image.width && y + j < s.image.height
                    ==> #[trigger] scene.image.dot(x + i, y + j, 3) == if rgba {
                    input[12 + (j * w + i) * 4 + 3]
                } else {
                    255
                }
        },
{
    lemma_raw_outcome(s, input, ends, x, y, w, h);
    lemma_raw_dots(s.image, x, y, w, h, input, s.format);
}

/// A raster that is painted at `(x, y)` arrives row by row: the pixel at
/// `(x + i, y + j)` gets the colour at place `j * w + i`, whose bytes, most
/// significant first, are its channels. Every pixel outside stays.
#[verifier::spinoff_prover]
pub proof fn lemma_raster_arrives(image: Image, x: int, y: int, w: int, h: int, raster: Seq<u32>)
    requires
        image.covered(),
        0 <= x,
        0 <= y,
        0 <= w,
        0 <= h,
        raster.len() == w * h,
    ensures
        ({
            let after = image.with_raster(x, y, w, h, raster);
            &&& after.differs_within(image, x, y, w, h)
            &&& forall|i: int, j: int|
                0 <= i < w && 0 <= j < h && x + i < image.width && y + j < image.height
                    ==> #[trigger] after.dot(x + i, y + j, 0) * 0x100_0000 + after.dot(
                    x + i,
                    y + j,
                    1,
                ) * 0x1_0000 + after.dot(x + i, y + j, 2) * 256 + after.dot(x + i, y + j, 3)
                    == raster[j * w + i]
        }),
{
    let src = raster_bytes(raster);
    let after = image.with_raster(x, y, w, h, raster);
    assert(src.len() == w * h * 4);
    lemma_region_differs_within(image, x, y, w, h, src, PixelFormat::rgba());
    assert forall|i: int, j: int|
        0 <= i < w && 0 <= j < h && x + i < image.width && y + j < image.height implies #[trigger] after.dot(
        x + i,
        y + j,
        0,
    ) * 0x100_0000 + after.dot(x + i, y + j, 1) * 0x1_0000 + after.dot(x + i, y + j, 2) * 256
        + after.dot(x + i, y + j, 3) == raster[j * w + i] by {
        let q = j * w + i;
        assert((y + j - y) * w + (x + i - x) == q);
        assert(0 <= q < w * h) by (nonlinear_arith)
            requires
                q == j * w + i,
                0 <= i < w,
                0 <= j < h,
        ;
        lemma_region_dots(image, x, y, w, h, src, PixelFormat::rgba(), x + i, y + j, 0);
        lemma_region_dots(image, x, y, w, h, src, PixelFormat::rgba(), x + i, y + j, 1);
        lemma_region_dots(image, x, y, w, h, src, PixelFormat::rgba(), x + i, y + j, 2);
        lemma_region_dots(image, x, y, w, h, src, PixelFormat::rgba(), x + i, y + j, 3);
        assert((q * 4 + 1) / 4 == q && (q * 4 + 2) / 4 == q && (q * 4 + 3) / 4 == q);
    }
}

impl Image {
    /// Whether the image shows a picture of `w` pixels per row at `(x, y)`, as far
    /// as that lies inside. The bytes of a colour, most significant first, are the
    /// channels of its pixel.
    pub open spec fn shows(self, picture: Seq<u32>, x: int, y: int, w: int, h: int) -> bool {
        forall|i: int, j: int|
            0 <= i < w && 0 <= j < h && x + i < self.width && y + j < self.height
                ==> #[trigger] self.dot(x + i, y + j, 0) * 0x100_0000 + self.dot(x + i, y + j, 1)
                * 0x1_0000 + self.dot(x + i, y + j, 2) * 256 + self.dot(x + i, y + j, 3)
                == picture[j * w + i]
    }
}

#[verifier::rlimit(30)]
#[verifier::spinoff_prover]
proof fn lemma_decoded_outcome(
    s: Scene,
    input: Seq<u8>,
    ends: Seq<usize>,
    x: int,
    y: int,
    w: int,
    h: int,
    code: int,
    opened: Scene,
    colours: HextileState,
    picture: Seq<u32>,
    used: nat,
)
    requires
        s.pending > 0,
        s.image.covered(),
        announces(input, x, y, w, h, code),
        w <= 16384,
        h <= 16384,
        picture.len() == w * h,
        opened == s.rect_opened(RectHeader::read(input)),
        body_outcome(opened, RectHeader::read(input), input.skip(12), ends) == decoded_body(
            (Scene { hextile: colours, ..opened }),
            RectHeader::read(input),
            (Decoded::Done { raster: picture, used }),
        ),
    ensures
        painted_scene(outcome(s, input, ends), x, y, w, h, 12 + used as int) matches Some(scene) && {
            &&& scene.image.differs_within(s.image, x, y, w, h)
            &&& scene.image.shows(picture, x, y, w, h)
            &&& scene.hextile == colours
        },
{
    lemma_header(input, x, y, w, h, code);
    lemma_raster_arrives(s.image, x, y, w, h, picture);
    let carried = Scene { hextile: colours, ..opened };
    let after = carried.with_image(s.image.with_raster(x, y, w, h, picture));
    lemma_painted(s, input, ends, x, y, w, h, code, opened, after, used as int);
}

/// A picture that comes as an RRE rectangle at `(x, y)`, a background with
/// patches on it, is then shown there, and every pixel outside stays.
#[verifier::rlimit(30)]
#[verifier::spinoff_prover]
pub proof fn lemma_rre_rectangle_arrives(
    s: Scene,
    input: Seq<u8>,
    ends: Seq<usize>,
    x: int,
    y: int,
    w: int,
    h: int,
    background: Seq<u8>,
    patches: Seq<rre::written::Patch>,
    picture: Seq<u32>,
)
    requires
        s.pending > 0,
        s.image.covered(),
        announces(input, x, y, w, h, 2),
        0 < w <= 16384,
        h <= 16384,
        rre::written::shows(background, patches, s.format, picture, w, h),
        holds(input, 12, rre::written::written(background, patches)),
    ensures
        painted_scene(
            outcome(s, input, ends),
            x,
            y,
            w,
            h,
            12 + rre::written::written(background, patches).len() as int,
        ) matches Some(scene) && {
            &&& scene.image.differs_within(s.image, x, y, w, h)
            &&& scene.image.shows(picture, x, y, w, h)
            &&& scene.hextile == s.hextile
        },
{
    let bytes = rre::written::written(background, patches);
    let b = input.skip(12);
    lemma_holds_behind(input, 12, bytes);
    lemma_header(input, x, y, w, h, 2);
    rre::written::lemma_picture_reads_back(
        b,
        background,
        patches,
        s.format,
        picture,
        w as nat,
        h as nat,
    );
    let opened = s.rect_opened(RectHeader::read(input));
    assert(Scene { hextile: s.hextile, ..opened } == opened);
    lemma_decoded_outcome(
        s,
        input,
        ends,
        x,
        y,
        w,
        h,
        2,
        opened,
        s.hextile,
        picture,
        bytes.len(),
    );
}

pub(crate) proof fn lemma_holds_behind(input: Seq<u8>, n: int, bytes: Seq<u8>)
    requires
        n >= 0,
        holds(input, n, bytes),
    ensures
        holds(input.skip(n), 0, bytes),
{
    assert forall|i: int| 0 <= i < bytes.len() implies input.skip(n)[0 + i] == #[trigger] bytes[i] by {
        assert(input[n + i] == bytes[i]);
    }
}

/// A picture that comes as a Hextile rectangle at `(x, y)` is then shown there,
/// every pixel outside stays, and the colours that were named last are kept for
/// the next such rectangle.
#[verifier::rlimit(30)]
#[verifier::spinoff_prover]
pub proof fn lemma_hextile_rectangle_arrives(
    s: Scene,
    input: Seq<u8>,
    ends: Seq<usize>,
    x: int,
    y: int,
    w: int,
    h: int,
    tiles: Seq<hextile::written::WrittenTile>,
    picture: Seq<u32>,
)
    requires
        s.pending > 0,
        s.image.covered(),
        announces(input, x, y, w, h, 5),
        0 < w <= 16384,
        h <= 16384,
        picture.len() == w * h,
        hextile::written::tiles_show(tiles, s.format, s.hextile, picture, w, h),
        holds(input, 12, hextile::written::tiles_bytes(tiles)),
    ensures
        painted_scene(
            outcome(s, input, ends),
            x,
            y,
            w,
            h,
            12 + hextile::written::tiles_bytes(tiles).len() as int,
        ) matches Some(scene) && {
            &&& scene.image.differs_within(s.image, x, y, w, h)
            &&& scene.image.shows(picture, x, y, w, h)
            &&& scene.hextile == hextile::written::inherited(tiles, s.format, s.hextile)
        },
{
    let bytes = hextile::written::tiles_bytes(tiles);
    let b = input.skip(12);
    lemma_holds_behind(input, 12, bytes);
    lemma_header(input, x, y, w, h, 5);
    hextile::written::lemma_picture_reads_back(
        b,
        tiles,
        s.format,
        s.hextile,
        picture,
        w as nat,
        h as nat,
    );
    let opened = s.rect_opened(RectHeader::read(input));
    lemma_decoded_outcome(
        s,
        input,
        ends,
        x,
        y,
        w,
        h,
        5,
        opened,
        hextile::written::inherited(tiles, s.format, s.hextile),
        picture,
        bytes.len(),
    );
}

/// A picture that comes as a TRLE rectangle at `(x, y)` is then shown there, and
/// every pixel outside stays.
#[verifier::rlimit(30)]
#[verifier::spinoff_prover]
pub proof fn lemma_trle_rectangle_arrives(
    s: Scene,
    input: Seq<u8>,
    ends: Seq<usize>,
    x: int,
    y: int,
    w: int,
    h: int,
    tiles: Seq<trle::written::WrittenTile>,
    picture: Seq<u32>,
)
    requires
        s.pending > 0,
        s.image.covered(),
        announces(input, x, y, w, h, 15),
        0 < w <= 16384,
        h <= 16384,
        picture.len() == w * h,
        trle::written::tiles_show(tiles, s.format, picture, w, h),
        holds(input, 12, trle::written::tiles_bytes(tiles)),
    ensures
        painted_scene(
            outcome(s, input, ends),
            x,
            y,
            w,
            h,
            12 + trle::written::tiles_bytes(tiles).len() as int,
        ) matches Some(scene) && {
            &&& scene.image.differs_within(s.image, x, y, w, h)
            &&& scene.image.shows(picture, x, y, w, h)
            &&& scene.hextile == s.hextile
        },
{
    let bytes = trle::written::tiles_bytes(tiles);
    let b = input.skip(12);
    lemma_holds_behind(input, 12, bytes);
    lemma_header(input, x, y, w, h, 15);
    trle::written::lemma_picture_reads_back(b, tiles, s.format, picture, w as nat, h as nat);
    let opened = s.rect_opened(RectHeader::read(input));
    assert(Scene { hextile: s.hextile, ..opened } == opened);
    lemma_decoded_outcome(
        s,
        input,
        ends,
        x,
        y,
        w,
        h,
        15,
        opened,
        s.hextile,
        picture,
        bytes.len(),
    );
}

/// A decoded frame of `w` by `h` pixels is shown at the place of its rectangle,
/// channel by channel, as far as that lies on the desktop, and every pixel
/// outside stays. Its size is the one that the decoder reports; where it reports
/// none it is that of the rectangle, and a frame too short for that is left out.
#[verifier::spinoff_prover]
pub proof fn lemma_frame_arrives(
    image: Image,
    head: RectHeader,
    rgba: Seq<u8>,
    size: Option<(u16, u16)>,
    w: int,
    h: int,
)
    requires
        image.covered(),
        match size {
            Some((a, b)) => w == a && h == b && rgba.len() == w * h * 4,
            None => w == head.width && h == head.height && rgba.len() >= w * h * 4,
        },
    ensures
        ({
            let after = frame_painted(image, head, rgba, size);
            &&& after.differs_within(image, head.x as int, head.y as int, w, h)
            &&& forall|i: int, j: int, k: int|
                0 <= i < w && 0 <= j < h && head.x + i < image.width && head.y + j < image.height
                    && 0 <= k < 4 ==> #[trigger] after.dot(head.x + i, head.y + j, k) == rgba[(j * w
                    + i) * 4 + k]
        }),
{
    let (x, y) = (head.x as int, head.y as int);
    assert(w * 4 * h == w * h * 4) by (nonlinear_arith);
    assert(w * h * 4 >= 0) by (nonlinear_arith)
        requires
            w >= 0,
            h >= 0,
    ;
    let src = rgba.take(w * h * 4);
    if size is Some {
        assert(src =~= rgba);
    }
    let after = frame_painted(image, head, rgba, size);
    assert(after == image.with_region(x, y, w, h, src, PixelFormat::rgba()));
    lemma_region_differs_within(image, x, y, w, h, src, PixelFormat::rgba());
    assert forall|i: int, j: int, k: int|
        0 <= i < w && 0 <= j < h && head.x + i < image.width && head.y + j < image.height && 0 <= k
            < 4 implies #[trigger] after.dot(head.x + i, head.y + j, k) == rgba[(j * w + i) * 4
        + k] by {
        lemma_region_dots(image, x, y, w, h, src, PixelFormat::rgba(), x + i, y + j, k);
        let q = j * w + i;
        assert((y + j - y) * w + (x + i - x) == q);
        assert(0 <= q < w * h) by (nonlinear_arith)
            requires
                q == j * w + i,
                0 <= i < w,
                0 <= j < h,
        ;
    }
}

/// A pixel is shown where the transform says: its four channels are those of the
/// place of the image that it comes from, and outside of what is shown there is
/// none.
#[verifier::spinoff_prover]
pub proof fn lemma_shown_pixel(image: Image, x: int, y: int)
    requires
        image.covered(),
        0 <= x,
        0 <= y,
    ensures
        ({
            let (w, h) = (image.width as int, image.height as int);
            let t = image.transform;
            let (u, v) = t.source(x, y, w, h);
            let inside = x < t.shown_width(w, h) && y < t.shown_height(w, h);
            &&& !inside ==> image.shown(x, y) is None
            &&& inside ==> (image.shown(x, y) matches Some(px) && px.len() == 4 && forall|k: int|
                0 <= k < 4 ==> #[trigger] px[k] == image.dot(u, v, k))
        }),
{
    let (w, h) = (image.width as int, image.height as int);
    let t = image.transform;
    let (u, v) = t.source(x, y, w, h);
    if x < t.shown_width(w, h) && y < t.shown_height(w, h) {
        assert(0 <= u < w && 0 <= v < h);
        lemma_dot_inside(image, u, v, 0);
        lemma_dot_inside(image, u, v, 3);
        assert((v * w + u) * 4 == v * (w * 4) + u * 4) by (nonlinear_arith);
        let px = image.shown(x, y)->0;
        assert forall|k: int| 0 <= k < 4 implies #[trigger] px[k] == image.dot(u, v, k) by {}
    }
}

/// A copy from below the image, or to below it, changes nothing.
#[verifier::spinoff_prover]
pub proof fn lemma_copy_outside_changes_nothing(
    image: Image,
    sx: int,
    sy: int,
    x: int,
    y: int,
    w: int,
    h: nat,
)
    requires
        image.complete(),
        0 <= sx,
        0 <= sy,
        0 <= x,
        0 <= y,
        0 < w,
        sy >= image.height || y >= image.height,
    ensures
        image.with_copy(sx, sy, x, y, w, h) == image,
{
    let m = Move {
        stride: image.width as int,
        src_x: sx,
        src_y: sy,
        dst_x: x,
        dst_y: y,
        width: w,
    };
    lemma_rows_outside(m, image, h, h);
}

proof fn lemma_rows_outside(m: Move, image: Image, height: nat, n: nat)
    requires
        image.complete(),
        m.stride == image.width,
        0 <= m.src_x,
        0 <= m.src_y,
        0 <= m.dst_x,
        0 <= m.dst_y,
        0 < m.width,
        m.src_y >= image.height || m.dst_y >= image.height,
        n <= height,
    ensures
        m.downward(image.data, n) == image.data,
        m.upward(image.data, height, n) == image.data,
    decreases n,
{
    if n > 0 {
        lemma_rows_outside(m, image, height, (n - 1) as nat);
        lemma_row_outside(m, image, n - 1);
        lemma_row_outside(m, image, height - n);
    }
}

#[verifier::spinoff_prover]
proof fn lemma_row_outside(m: Move, image: Image, row: int)
    requires
        image.complete(),
        m.stride == image.width,
        0 <= m.src_x,
        0 <= m.src_y,
        0 <= m.dst_x,
        0 <= m.dst_y,
        0 < m.width,
        m.src_y >= image.height || m.dst_y >= image.height,
        0 <= row,
    ensures
        m.row(image.data, row) == image.data,
{
    let y = if m.src_y >= image.height {
        m.src_y
    } else {
        m.dst_y
    };
    assert((y + row) * m.stride * 4 >= image.width * image.height * 4) by (nonlinear_arith)
        requires
            y + row >= image.height,
            m.stride == image.width,
            image.width >= 0,
    ;
}

} // verus!
