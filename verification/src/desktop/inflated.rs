//! What a compressed rectangle leaves on the screen, pixel by pixel.

use vstd::prelude::*;

use super::pictures::{
    announces, lemma_header, lemma_holds_behind, lemma_raster_arrives, lemma_raw_dots,
    painted_scene,
};
use super::rects::{
    body_outcome, calls_with, outcome_with, task_done, work_outcome, StreamCalls, WorkOutcome,
};
use super::{outcome, Outcome, Scene, Task};
use crate::framebuffer::Image;
use crate::messages::RectHeader;
use crate::pixel_format::PixelFormat;
use crate::tight::written::WrittenRect;
use crate::tight::{after_resets, part_inflation, tight_read};
use crate::trle::written::lemma_picture_reads_back;
use crate::trle;
use crate::wire::{holds, u32_of, zeros};
use crate::zlib::{held, inflation};

verus! {

/// A body that waits for work makes the rectangle wait.
#[verifier::rlimit(30)]
#[verifier::spinoff_prover]
proof fn lemma_waits(
    s: Scene,
    input: Seq<u8>,
    ends: Seq<usize>,
    x: int,
    y: int,
    w: int,
    h: int,
    code: int,
    opened: Scene,
    used: int,
    task: Task,
)
    requires
        s.pending > 0,
        announces(input, x, y, w, h, code),
        w <= 16384,
        h <= 16384,
        task.defers(),
        opened == s.rect_opened(RectHeader::read(input)),
        body_outcome(opened, RectHeader::read(input), input.skip(12), ends) == task_done(
            opened,
            used,
            task,
        ),
    ensures
        outcome(s, input, ends) == (Outcome::Done {
            scene: Scene { waiting: Some(RectHeader::read(input)), ..opened },
            used: used + 12,
            events: Seq::empty(),
            replies: Seq::empty(),
            task,
        }),
{
    lemma_header(input, x, y, w, h, code);
}

/// Work that paints an image completes the rectangle.
#[verifier::rlimit(30)]
#[verifier::spinoff_prover]
proof fn lemma_worked(
    s: Scene,
    input: Seq<u8>,
    ends: Seq<usize>,
    t: StreamCalls,
    x: int,
    y: int,
    w: int,
    h: int,
    code: int,
    used: int,
    task: Task,
    image: Image,
    waiting: Scene,
)
    requires
        announces(input, x, y, w, h, code),
        waiting.waiting == Some(RectHeader::read(input)),
        outcome(s, input, ends) == (Outcome::Done {
            scene: waiting,
            used: used + 12,
            events: Seq::empty(),
            replies: Seq::empty(),
            task,
        }),
        work_outcome(waiting, RectHeader::read(input), task, t) == WorkOutcome::Painted(image),
    ensures
        painted_scene(outcome_with(s, input, ends, t), x, y, w, h, used + 12) matches Some(scene)
            && scene.image == image && scene.hextile == waiting.hextile,
{
    lemma_header(input, x, y, w, h, code);
}

/// A chunk behind its length is read whole.
proof fn lemma_chunk(input: Seq<u8>, n: int, chunk: Seq<u8>)
    requires
        input.len() >= 16 + n,
        input[12] * 0x100_0000 + input[13] * 0x1_0000 + input[14] * 256 + input[15] == n,
        n <= 0x400_0000,
        chunk == input.subrange(16, 16 + n),
    ensures
        crate::zlib::chunk_read(input.skip(12), 0x400_0000) == (crate::zlib::ChunkRead::Done {
            data: chunk,
            used: (4 + n) as nat,
        }),
{
    let b = input.skip(12);
    assert(u32_of(b, 0) == n);
    assert(b.subrange(4, 4 + n) =~= chunk);
}

#[verifier::rlimit(30)]
#[verifier::spinoff_prover]
proof fn lemma_zlib_outcome(
    s: Scene,
    input: Seq<u8>,
    ends: Seq<usize>,
    t: StreamCalls,
    x: int,
    y: int,
    w: int,
    h: int,
    n: int,
    out: Seq<u8>,
    last: Seq<Seq<u8>>,
)
    requires
        s.pending > 0,
        announces(input, x, y, w, h, 6),
        w <= 16384,
        h <= 16384,
        input.len() >= 16 + n,
        input[12] * 0x100_0000 + input[13] * 0x1_0000 + input[14] * 256 + input[15] == n,
        n <= 0x400_0000,
        out.len() == w * h * s.format.pixel_len(),
        inflation(t.zlib, input.subrange(16, 16 + n), held(out.len())) == Some((out, last)),
    ensures
        painted_scene(outcome_with(s, input, ends, t), x, y, w, h, 16 + n) matches Some(scene)
            && scene.image == s.image.with_region(x, y, w, h, out, s.format),
        calls_with(s, input, ends, t) == (StreamCalls { zlib: last, ..t }),
{
    lemma_header(input, x, y, w, h, 6);
    let chunk = input.subrange(16, 16 + n);
    lemma_chunk(input, n, chunk);
    let head = RectHeader::read(input);
    let opened = s.rect_opened(head);
    let task = Task::InflatePixels { chunk };
    lemma_waits(s, input, ends, x, y, w, h, 6, opened, 4 + n, task);
    let waiting = Scene { waiting: Some(head), ..opened };
    let image = s.image.with_region(x, y, w, h, out, s.format);
    assert(head.width as nat * head.height as nat * s.format.pixel_len() == out.len());
    lemma_worked(s, input, ends, t, x, y, w, h, 6, 4 + n, task, image, waiting);
}

/// A Zlib rectangle at `(x, y)` shows the pixels that its chunk inflates to, row
/// by row, as a Raw rectangle does, every pixel outside stays, and only the
/// stream that took the chunk goes on.
#[verifier::rlimit(30)]
#[verifier::spinoff_prover]
pub proof fn lemma_zlib_rectangle_arrives(
    s: Scene,
    input: Seq<u8>,
    ends: Seq<usize>,
    t: StreamCalls,
    x: int,
    y: int,
    w: int,
    h: int,
    n: int,
    out: Seq<u8>,
    last: Seq<Seq<u8>>,
)
    requires
        s.pending > 0,
        s.image.covered(),
        announces(input, x, y, w, h, 6),
        w <= 16384,
        h <= 16384,
        input.len() >= 16 + n,
        input[12] * 0x100_0000 + input[13] * 0x1_0000 + input[14] * 256 + input[15] == n,
        n <= 0x400_0000,
        out.len() == w * h * s.format.pixel_len(),
        inflation(t.zlib, input.subrange(16, 16 + n), held(out.len())) == Some((out, last)),
    ensures
        painted_scene(outcome_with(s, input, ends, t), x, y, w, h, 16 + n) matches Some(scene) && {
            let len = s.format.pixel_len() as int;
            &&& scene.image.differs_within(s.image, x, y, w, h)
            &&& forall|i: int, j: int, k: int|
                0 <= i < w && 0 <= j < h && x + i < s.image.width && y + j < s.image.height && 0
                    <= k < 3 ==> #[trigger] scene.image.dot(x + i, y + j, k) == s.format.rgba_of(
                    out.subrange((j * w + i) * len, (j * w + i) * len + len),
                )[k]
        },
        calls_with(s, input, ends, t) == (StreamCalls { zlib: last, ..t }),
{
    lemma_zlib_outcome(s, input, ends, t, x, y, w, h, n, out, last);
    lemma_region_shown(s.image, x, y, w, h, out, s.format);
}

#[verifier::spinoff_prover]
proof fn lemma_region_shown(
    image: Image,
    x: int,
    y: int,
    w: int,
    h: int,
    out: Seq<u8>,
    format: PixelFormat,
)
    requires
        image.covered(),
        0 <= x,
        0 <= y,
        0 <= w,
        0 <= h,
        out.len() == w * h * format.pixel_len(),
    ensures
        ({
            let len = format.pixel_len() as int;
            let after = image.with_region(x, y, w, h, out, format);
            &&& after.differs_within(image, x, y, w, h)
            &&& forall|i: int, j: int, k: int|
                0 <= i < w && 0 <= j < h && x + i < image.width && y + j < image.height && 0 <= k
                    < 3 ==> #[trigger] after.dot(x + i, y + j, k) == format.rgba_of(
                    out.subrange((j * w + i) * len, (j * w + i) * len + len),
                )[k]
        }),
{
    let len = format.pixel_len() as int;
    let padded = zeros(12) + out;
    lemma_raw_dots(image, x, y, w, h, padded, format);
    assert(padded.skip(12).take(w * h * len) =~= out);
    let after = image.with_region(x, y, w, h, out, format);
    assert forall|i: int, j: int, k: int|
        0 <= i < w && 0 <= j < h && x + i < image.width && y + j < image.height && 0 <= k
            < 3 implies #[trigger] after.dot(x + i, y + j, k) == format.rgba_of(
        out.subrange((j * w + i) * len, (j * w + i) * len + len),
    )[k] by {
        let q = j * w + i;
        assert(0 <= q < w * h) by (nonlinear_arith)
            requires
                q == j * w + i,
                0 <= i < w,
                0 <= j < h,
        ;
        assert(0 <= q * len && q * len + len <= out.len()) by (nonlinear_arith)
            requires
                0 <= q < w * h,
                out.len() == w * h * len,
                len >= 0,
        ;
        assert(padded.subrange(12 + q * len, 12 + q * len + len) =~= out.subrange(
            q * len,
            q * len + len,
        ));
    }
}

/// Whether a chunk starts with the header of a zlib stream: deflate, a window of
/// at most 32 kilobytes, and a check that makes it a multiple of 31.
pub open spec fn opens_stream(chunk: Seq<u8>) -> bool {
    chunk.len() >= 2 && chunk[0] % 16 == 8 && chunk[0] / 16 <= 7 && (chunk[0] * 256 + chunk[1]) % 31
        == 0
}

#[verifier::rlimit(30)]
#[verifier::spinoff_prover]
proof fn lemma_zrle_outcome(
    s: Scene,
    input: Seq<u8>,
    ends: Seq<usize>,
    t: StreamCalls,
    x: int,
    y: int,
    w: int,
    h: int,
    n: int,
    calls: Seq<Seq<u8>>,
    most: nat,
    out: Seq<u8>,
    last: Seq<Seq<u8>>,
    tiles: Seq<trle::written::WrittenTile>,
    picture: Seq<u32>,
)
    requires
        s.pending > 0,
        announces(input, x, y, w, h, 16),
        0 < w <= 16384,
        h <= 16384,
        input.len() >= 16 + n,
        input[12] * 0x100_0000 + input[13] * 0x1_0000 + input[14] * 256 + input[15] == n,
        n <= 0x400_0000,
        if opens_stream(input.subrange(16, 16 + n)) {
            calls == Seq::<Seq<u8>>::empty()
        } else {
            t.zrle == Some(calls)
        },
        most == w * h * (s.format.cpixel_len() + 1) + ((w + 63) / 64) * ((h + 63) / 64) + 64,
        inflation(calls, input.subrange(16, 16 + n), held(most)) == Some((out, last)),
        out.len() <= most,
        picture.len() == w * h,
        trle::written::tiles_show(tiles, s.format, picture, w, h),
        holds(out, 0, trle::written::tiles_bytes(tiles)),
    ensures
        painted_scene(outcome_with(s, input, ends, t), x, y, w, h, 16 + n) matches Some(scene)
            && scene.image == s.image.with_raster(x, y, w, h, picture),
        calls_with(s, input, ends, t) == (StreamCalls { zrle: Some(last), ..t }),
{
    lemma_header(input, x, y, w, h, 16);
    let chunk = input.subrange(16, 16 + n);
    lemma_chunk(input, n, chunk);
    let head = RectHeader::read(input);
    let opened = s.rect_opened(head);
    let task = Task::InflateTiles { chunk };
    lemma_waits(s, input, ends, x, y, w, h, 16, opened, 4 + n, task);
    let waiting = Scene { waiting: Some(head), ..opened };
    let image = s.image.with_raster(x, y, w, h, picture);
    lemma_picture_reads_back(out, tiles, s.format, picture, w as nat, h as nat);
    assert(crate::zrle::max_output(head.width as nat, head.height as nat, s.format) == most);
    lemma_worked(s, input, ends, t, x, y, w, h, 16, 4 + n, task, image, waiting);
}

/// A ZRLE rectangle at `(x, y)` shows the picture whose tiles its chunk inflates
/// to, every pixel outside stays, and only the stream that took the chunk goes
/// on: a fresh one where the chunk starts a stream, else that of the session.
#[verifier::rlimit(30)]
#[verifier::spinoff_prover]
pub proof fn lemma_zrle_rectangle_arrives(
    s: Scene,
    input: Seq<u8>,
    ends: Seq<usize>,
    t: StreamCalls,
    x: int,
    y: int,
    w: int,
    h: int,
    n: int,
    calls: Seq<Seq<u8>>,
    most: nat,
    out: Seq<u8>,
    last: Seq<Seq<u8>>,
    tiles: Seq<trle::written::WrittenTile>,
    picture: Seq<u32>,
)
    requires
        s.pending > 0,
        s.image.covered(),
        announces(input, x, y, w, h, 16),
        0 < w <= 16384,
        h <= 16384,
        input.len() >= 16 + n,
        input[12] * 0x100_0000 + input[13] * 0x1_0000 + input[14] * 256 + input[15] == n,
        n <= 0x400_0000,
        if opens_stream(input.subrange(16, 16 + n)) {
            calls == Seq::<Seq<u8>>::empty()
        } else {
            t.zrle == Some(calls)
        },
        most == w * h * (s.format.cpixel_len() + 1) + ((w + 63) / 64) * ((h + 63) / 64) + 64,
        inflation(calls, input.subrange(16, 16 + n), held(most)) == Some((out, last)),
        out.len() <= most,
        picture.len() == w * h,
        trle::written::tiles_show(tiles, s.format, picture, w, h),
        holds(out, 0, trle::written::tiles_bytes(tiles)),
    ensures
        painted_scene(outcome_with(s, input, ends, t), x, y, w, h, 16 + n) matches Some(scene) && {
            &&& scene.image.differs_within(s.image, x, y, w, h)
            &&& scene.image.shows(picture, x, y, w, h)
        },
        calls_with(s, input, ends, t) == (StreamCalls { zrle: Some(last), ..t }),
{
    lemma_zrle_outcome(
        s,
        input,
        ends,
        t,
        x,
        y,
        w,
        h,
        n,
        calls,
        most,
        out,
        last,
        tiles,
        picture,
    );
    lemma_raster_arrives(s.image, x, y, w, h, picture);
}

/// The picture of a Tight rectangle that is not a JPEG image.
pub open spec fn tight_picture(written: WrittenRect, format: PixelFormat, n: nat) -> Seq<u32> {
    match written {
        WrittenRect::Fill { pixel } => Seq::new(
            n,
            |i: int| crate::raster::ccolour_of(format, pixel),
        ),
        WrittenRect::Jpeg { data } => Seq::empty(),
        WrittenRect::Pixels { stream, content } => content.shown(format),
        WrittenRect::Packed { stream, content, chunk } => content.shown(format),
    }
}

/// Whether the chunk of a compressed rectangle inflates to what was compressed,
/// in its stream, after those that start anew have done so.
pub open spec fn inflates_back(
    written: WrittenRect,
    calls: Seq<Seq<Seq<u8>>>,
    resets: int,
    w: int,
) -> bool {
    written matches WrittenRect::Packed { stream, content, chunk } ==> {
        let data = content.data(w);
        inflation(after_resets(calls, resets as u8)[stream], chunk, held(data.len())) matches Some(
            (out, last),
        ) && out == data
    }
}

#[verifier::rlimit(30)]
#[verifier::spinoff_prover]
proof fn lemma_tight_outcome(
    s: Scene,
    input: Seq<u8>,
    ends: Seq<usize>,
    t: StreamCalls,
    x: int,
    y: int,
    w: int,
    h: int,
    written: WrittenRect,
    resets: int,
)
    requires
        s.pending > 0,
        announces(input, x, y, w, h, 7),
        0 < w <= 16384,
        h <= 16384,
        0 <= resets < 16,
        written.valid(s.format, w, h),
        holds(input, 12, written.bytes(resets, w)),
        inflates_back(written, t.tight, resets, w),
    ensures
        ({
            let used = 12 + written.bytes(resets, w).len() as int;
            match written {
                WrittenRect::Jpeg { data } => outcome_with(s, input, ends, t) == (Outcome::Done {
                    scene: Scene {
                        waiting: Some(RectHeader::read(input)),
                        ..s.rect_opened(RectHeader::read(input))
                    },
                    used,
                    events: Seq::empty(),
                    replies: Seq::empty(),
                    task: Task::DecodeJpeg { data },
                }),
                _ => {
                    let picture = tight_picture(written, s.format, (w * h) as nat);
                    &&& picture.len() == w * h
                    &&& painted_scene(
                        outcome_with(s, input, ends, t),
                        x,
                        y,
                        w,
                        h,
                        used,
                    ) matches Some(scene) && scene.image == s.image.with_raster(
                        x,
                        y,
                        w,
                        h,
                        picture,
                    )
                },
            }
        }),
{
    lemma_header(input, x, y, w, h, 7);
    let b = input.skip(12);
    let bytes = written.bytes(resets, w);
    lemma_holds_behind(input, 12, bytes);
    let calls = after_resets(t.tight, resets as u8);
    let out = match written {
        WrittenRect::Packed { stream, content, chunk } => Some(content.data(w)),
        _ => None,
    };
    assert(w * h >= 0) by (nonlinear_arith)
        requires
            w >= 0,
            h >= 0,
    ;
    crate::tight::written::lemma_rectangle_reads_back(
        b,
        written,
        resets,
        out,
        s.format,
        w as nat,
        h as nat,
    );
    let part = tight_read(b, w as nat, h as nat, s.format)->part;
    assert(crate::zlib::inflation_bytes(part_inflation(calls, part)) == out);
    let head = RectHeader::read(input);
    let opened = s.rect_opened(head);
    let task = Task::DecodeTight { part, resets: resets as u8 };
    lemma_waits(s, input, ends, x, y, w, h, 7, opened, bytes.len() as int, task);
    let waiting = Scene { waiting: Some(head), ..opened };
    if !(written is Jpeg) {
        let picture = tight_picture(written, s.format, (w * h) as nat);
        let image = s.image.with_raster(x, y, w, h, picture);
        lemma_worked(
            s,
            input,
            ends,
            t,
            x,
            y,
            w,
            h,
            7,
            bytes.len() as int,
            task,
            image,
            waiting,
        );
    }
}

/// A Tight rectangle at `(x, y)` shows the picture that was written, and every
/// pixel outside stays; a JPEG image is handed on as it came.
#[verifier::rlimit(30)]
#[verifier::spinoff_prover]
pub proof fn lemma_tight_rectangle_arrives(
    s: Scene,
    input: Seq<u8>,
    ends: Seq<usize>,
    t: StreamCalls,
    x: int,
    y: int,
    w: int,
    h: int,
    written: WrittenRect,
    resets: int,
)
    requires
        s.pending > 0,
        s.image.covered(),
        announces(input, x, y, w, h, 7),
        0 < w <= 16384,
        h <= 16384,
        0 <= resets < 16,
        written.valid(s.format, w, h),
        holds(input, 12, written.bytes(resets, w)),
        inflates_back(written, t.tight, resets, w),
    ensures
        ({
            let n = 12 + written.bytes(resets, w).len() as int;
            match written {
                WrittenRect::Jpeg { data } => outcome_with(s, input, ends, t) matches Outcome::Done {
                    scene,
                    used,
                    task,
                    ..
                } && scene.image == s.image && used == n && task == (Task::DecodeJpeg { data }),
                _ => painted_scene(outcome_with(s, input, ends, t), x, y, w, h, n) matches Some(
                    scene,
                ) && {
                    let picture = tight_picture(written, s.format, (w * h) as nat);
                    &&& picture.len() == w * h
                    &&& scene.image.differs_within(s.image, x, y, w, h)
                    &&& scene.image.shows(picture, x, y, w, h)
                },
            }
        }),
{
    lemma_tight_outcome(s, input, ends, t, x, y, w, h, written, resets);
    if !(written is Jpeg) {
        lemma_raster_arrives(s.image, x, y, w, h, tight_picture(written, s.format, (w * h) as nat));
    }
}

} // verus!
