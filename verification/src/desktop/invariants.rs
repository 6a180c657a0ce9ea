//! What every message and every rectangle keeps.

use vstd::prelude::*;

use super::apple_rects::{apple_body, record_end};
use super::rects::{
    body_outcome, decoded_body, frame_painted, outcome_with, pixels_inflation, tiles_inflation,
    work_closed, StreamCalls,
};
use super::{outcome, BodyOutcome, Outcome, Scene, Task};
use crate::encodings::{encoding_of, Encoding};
use crate::framebuffer::{lemma_region_keeps_size, Image, Move};
use crate::hextile::{after_all, hextile_decoded};
use crate::messages::{RectHeader, RECT_HEADER_LEN};
use crate::pixel_format::PixelFormat;
use crate::raster::{raster_bytes, Decoded};
use crate::rre::rre_decoded;
use crate::tight::{lemma_tight_fits, session_image, ImageView};
use crate::trle::tiles_decoded;
use crate::wire::u16_of;
use crate::zlib::{inflation_bytes, pixels_verdict};
use crate::zrle::{calls_for, zrle_verdict};

verus! {

impl Image {
    /// Whether the image has exactly the bytes of its pixels.
    pub open spec fn complete(self) -> bool {
        self.data.len() == self.width * self.height * 4
    }
}

impl Scene {
    /// Whether the image has the size of the desktop and is complete.
    pub open spec fn in_step(self) -> bool {
        &&& self.image.width == self.width
        &&& self.image.height == self.height
        &&& self.image.complete()
    }
}

proof fn lemma_region_stays_complete(
    image: Image,
    x: int,
    y: int,
    width: int,
    height: int,
    src: Seq<u8>,
    format: PixelFormat,
)
    requires
        image.complete(),
    ensures
        image.with_region(x, y, width, height, src, format).complete(),
{
    lemma_region_keeps_size(image, x, y, width, height, src, format);
}

proof fn lemma_downward_keeps_size(m: Move, data: Seq<u8>, n: nat)
    ensures
        m.downward(data, n).len() == data.len(),
    decreases n,
{
    if n > 0 {
        lemma_downward_keeps_size(m, data, (n - 1) as nat);
    }
}

proof fn lemma_upward_keeps_size(m: Move, data: Seq<u8>, height: nat, n: nat)
    ensures
        m.upward(data, height, n).len() == data.len(),
    decreases n,
{
    if n > 0 {
        lemma_upward_keeps_size(m, data, height, (n - 1) as nat);
    }
}

/// What the body of a rectangle leaves alone.
spec fn keeps(s: Scene, scene: Scene, used: int) -> bool {
    &&& scene.pending == s.pending
    &&& scene.waiting == s.waiting
    &&& scene.transport == s.transport
    &&& scene.format == s.format
    &&& scene.image.transform == s.image.transform
    &&& used >= 0
    &&& s.in_step() ==> scene.in_step()
}

proof fn lemma_image_keeps(s: Scene, x: int, y: int, w: int, h: int, src: Seq<u8>, f: PixelFormat)
    ensures
        s.in_step() ==> s.with_image(s.image.with_region(x, y, w, h, src, f)).in_step(),
{
    if s.in_step() {
        lemma_region_stays_complete(s.image, x, y, w, h, src, f);
    }
}

proof fn lemma_apple_body_keeps(s: Scene, h: RectHeader, value: i32, b: Seq<u8>, ends: Seq<usize>)
    ensures
        apple_body(s, h, value, b, ends) matches BodyOutcome::Done { scene, used, .. } ==> keeps(
            s,
            scene,
            used,
        ),
{
    lemma_record_end(ends, 12, 0);
}

/// The record end that is found for a place lies at it or behind it.
pub(crate) proof fn lemma_record_end(ends: Seq<usize>, at: int, from: int)
    ensures
        record_end(ends, at, from) matches Some(end) ==> end >= at,
    decreases ends.len() - from,
{
    if 0 <= from < ends.len() {
        lemma_record_end(ends, at, from + 1);
    }
}

proof fn lemma_body_keeps(s: Scene, h: RectHeader, b: Seq<u8>, ends: Seq<usize>)
    ensures
        body_outcome(s, h, b, ends) matches BodyOutcome::Done { scene, used, .. } ==> keeps(
            s,
            scene,
            used,
        ),
{
    let o = body_outcome(s, h, b, ends);
    let (w, t) = (h.width as nat, h.height as nat);
    match encoding_of(h.encoding) {
        Some(Encoding::Raw) => {
            let n = h.width * h.height * s.format.pixel_len();
            assert(n >= 0) by (nonlinear_arith)
                requires
                    n == h.width * h.height * s.format.pixel_len(),
                    s.format.pixel_len() >= 0,
            ;
            lemma_image_keeps(
                s,
                h.x as int,
                h.y as int,
                w as int,
                t as int,
                b.take(n),
                s.format,
            );
        },
        Some(Encoding::CopyRect) => {
            let m = Move {
                stride: s.image.width as int,
                src_x: u16_of(b, 0) as int,
                src_y: u16_of(b, 2) as int,
                dst_x: h.x as int,
                dst_y: h.y as int,
                width: h.width as int,
            };
            lemma_downward_keeps_size(m, s.image.data, t);
            lemma_upward_keeps_size(m, s.image.data, t, t);
        },
        Some(Encoding::Rre) => {
            lemma_decoded_keeps(s, h, rre_decoded(b, w, t, s.format));
        },
        Some(Encoding::Hextile) => {
            let next = after_all(b, w, t, s.format, s.hextile);
            let after = Scene {
                hextile: match next {
                    Some(p) => p.colours,
                    None => s.hextile,
                },
                ..s
            };
            lemma_decoded_keeps(after, h, hextile_decoded(b, w, t, s.format, s.hextile));
        },
        Some(Encoding::Trle) => {
            lemma_decoded_keeps(s, h, tiles_decoded(b, w, t, s.format));
        },
        Some(Encoding::Tight) => {
            lemma_tight_fits(b, w, t, s.format);
        },
        Some(Encoding::AppleHp(value)) => {
            lemma_apple_body_keeps(s, h, value, b, ends);
        },
        _ => {},
    }
}

proof fn lemma_decoded_keeps(s: Scene, h: RectHeader, d: Decoded)
    ensures
        decoded_body(s, h, d) matches BodyOutcome::Done { scene, used, .. } ==> keeps(
            s,
            scene,
            used,
        ),
{
    if let Decoded::Done { raster, used } = d {
        lemma_image_keeps(
            s,
            h.x as int,
            h.y as int,
            h.width as int,
            h.height as int,
            raster_bytes(raster),
            PixelFormat::rgba(),
        );
    }
}

/// Inside an update, each rectangle that is complete lowers the number of
/// those to come by one; one that waits for work keeps it, and is the one that
/// is on record as waiting.
pub proof fn lemma_rectangles_count_down(s: Scene, input: Seq<u8>, ends: Seq<usize>)
    requires
        s.pending > 0,
    ensures
        outcome(s, input, ends) matches Outcome::Done { scene, task, .. } ==> if task.defers() {
            scene.pending == s.pending && scene.waiting == Some(RectHeader::read(input))
        } else {
            scene.pending == s.pending - 1 && scene.waiting is None
        },
{
    let h = RectHeader::read(input);
    lemma_body_keeps(s.rect_opened(h), h, input.skip(RECT_HEADER_LEN as int), ends);
}

/// Whatever is read from the input, or refused, takes at least one byte of it,
/// so that reading a finite input comes to an end.
pub proof fn lemma_input_is_consumed(s: Scene, input: Seq<u8>, ends: Seq<usize>)
    ensures
        outcome(s, input, ends) matches Outcome::Done { used, .. } ==> used > 0,
        outcome(s, input, ends) matches Outcome::Bad(_, used) ==> used > 0,
{
    if s.pending > 0 {
        let h = RectHeader::read(input);
        lemma_body_keeps(s.rect_opened(h), h, input.skip(RECT_HEADER_LEN as int), ends);
    }
}

/// No message and no rectangle takes the image out of step with the size
/// of the desktop, turns it, or changes the transport or the pixel format.
pub proof fn lemma_sizes_stay_in_step(s: Scene, input: Seq<u8>, ends: Seq<usize>)
    ensures
        outcome(s, input, ends) matches Outcome::Done { scene, .. } ==> {
            &&& s.in_step() ==> scene.in_step()
            &&& scene.image.transform == s.image.transform
            &&& scene.transport == s.transport
            &&& scene.format == s.format
        },
{
    if s.pending > 0 {
        let h = RectHeader::read(input);
        lemma_body_keeps(s.rect_opened(h), h, input.skip(RECT_HEADER_LEN as int), ends);
    }
}

/// Inflating a compressed rectangle on the way keeps the image in step with the
/// desktop as well, and completes the rectangle.
pub proof fn lemma_inflated_sizes_stay_in_step(
    s: Scene,
    input: Seq<u8>,
    ends: Seq<usize>,
    t: StreamCalls,
)
    requires
        s.pending > 0,
    ensures
        outcome_with(s, input, ends, t) matches Outcome::Done { scene, task, .. } ==> {
            &&& s.in_step() ==> scene.in_step()
            &&& scene.image.transform == s.image.transform
            &&& !task.defers() ==> scene.pending == s.pending - 1 && scene.waiting is None
        },
{
    lemma_sizes_stay_in_step(s, input, ends);
    lemma_rectangles_count_down(s, input, ends);
    if let Outcome::Done { scene, task, .. } = outcome(s, input, ends) {
        let h = scene.waiting.unwrap();
        let (x, y, w, n) = (h.x as int, h.y as int, h.width as int, h.height as int);
        let f = scene.format;
        match task {
            Task::InflatePixels { chunk } => {
                if let Ok(px) = pixels_verdict(
                    inflation_bytes(pixels_inflation(t.zlib, h, f, chunk)),
                    w as nat,
                    n as nat,
                    f,
                ) {
                    lemma_image_keeps(scene, x, y, w, n, px, f);
                }
            },
            Task::InflateTiles { chunk } => {
                if let Some(calls) = calls_for(t.zrle, chunk) {
                    if let Ok(raster) = zrle_verdict(
                        inflation_bytes(tiles_inflation(calls, h, f, chunk)),
                        w as nat,
                        n as nat,
                        f,
                    ) {
                        lemma_image_keeps(
                            scene,
                            x,
                            y,
                            w,
                            n,
                            raster_bytes(raster),
                            PixelFormat::rgba(),
                        );
                    }
                }
            },
            Task::DecodeTight { part, resets } => {
                if let Ok(ImageView::Raster(raster)) = session_image(
                    t.tight,
                    resets,
                    part,
                    w as nat,
                    n as nat,
                    f,
                ) {
                    lemma_image_keeps(
                        scene,
                        x,
                        y,
                        w,
                        n,
                        raster_bytes(raster),
                        PixelFormat::rgba(),
                    );
                }
            },
            _ => {},
        }
    }
}

/// A decoded video frame keeps the image in step with the desktop and
/// completes its rectangle.
pub proof fn lemma_frames_stay_in_step(
    s: Scene,
    h: RectHeader,
    rgba: Seq<u8>,
    video_size: Option<(u16, u16)>,
)
    requires
        s.pending > 0,
    ensures
        s.in_step() ==> work_closed(s, frame_painted(s.image, h, rgba, video_size)).in_step(),
        work_closed(s, frame_painted(s.image, h, rgba, video_size)).pending == s.pending - 1,
{
    let (w, t) = match video_size {
        Some((w, t)) => (w as int, t as int),
        None => (h.width as int, h.height as int),
    };
    let n = h.width * 4 * h.height;
    lemma_image_keeps(s, h.x as int, h.y as int, w, t, rgba, PixelFormat::rgba());
    lemma_image_keeps(s, h.x as int, h.y as int, w, t, rgba.take(n), PixelFormat::rgba());
}

} // verus!
