//! The rectangles of an update.

use vstd::prelude::*;

use crate::cursor::{shape_len, shape_of, CursorShape};
use crate::desktop::apple_rects::apple_body;
use crate::desktop::{
    body_reports, outcome, refused, turn_reports, update_event, Body, BodyOutcome, Desktop,
    Outcome, Refusal, Scene, Task, Turn, Work,
};
use crate::encodings::{encoding_of, from_i32, Encoding};
use crate::error::{protocol_error, Failure, VncError};
use crate::event::{event_views, no_events, one_event, push_event, Event, VncEvent};
use crate::framebuffer::{Framebuffer, Image};
use crate::hextile::{self, after_all, hextile_decoded};
use crate::messages::{
    read_screen_list, screen_list, size_ok, RectHeader, MAX_DIMENSION, MAX_TEXT_LEN,
    RECT_HEADER_LEN,
};
use crate::pixel_format::PixelFormat;
use crate::raster::{paint, Decoded};
use crate::rre::{self, rre_decoded};
use crate::text::{
    concat_text, decimal, decimal_text, lossy_string, lossy_text, signed, signed_text,
};
use crate::tight::{
    after_resets, calls_left, lemma_tight_fits, part_calls, part_fits, read_rect, session_image,
    tight_read, ImageView, TightImage, TightPart, TightRead, TightStreams,
};
use crate::trle::{self, tiles_decoded};
use crate::wire::{slice, to_vec, u16_at, u16_of, u32_at, u32_of};
use crate::zlib::{
    chunk_read, held, inflation, inflation_bytes, is_zlib_header, paint_pixels, pixels_verdict,
    read_len_prefixed, ChunkRead, SessionInflate, MAX_COMPRESSED_LEN,
};
use crate::zrle::{
    calls_for, calls_of, max_output, output_limit, paint_tiles, tiles_verdict, zrle_verdict,
};

verus! {

/// A body that took `used` bytes and says nothing besides.
pub open spec fn plain_done(scene: Scene, used: int) -> BodyOutcome {
    BodyOutcome::Done {
        scene,
        used,
        events: Seq::empty(),
        replies: Seq::empty(),
        quiet: false,
        task: Task::Nothing,
    }
}

/// A body that took `used` bytes and reports `events`.
pub open spec fn events_done(scene: Scene, used: int, events: Seq<Event>) -> BodyOutcome {
    BodyOutcome::Done {
        scene,
        used,
        events,
        replies: Seq::empty(),
        quiet: false,
        task: Task::Nothing,
    }
}

/// A body that took `used` bytes and needs work done elsewhere.
pub open spec fn task_done(scene: Scene, used: int, task: Task) -> BodyOutcome {
    BodyOutcome::Done {
        scene,
        used,
        events: Seq::empty(),
        replies: Seq::empty(),
        quiet: false,
        task,
    }
}

fn plain_body(used: usize) -> (r: Body)
    ensures
        r.used == used,
        event_views(r.events@) == Seq::<Event>::empty(),
        r.replies@ == Seq::<u8>::empty(),
        !r.quiet,
        r.work@ == Task::Nothing,
{
    Body { used, events: no_events(), replies: Vec::new(), quiet: false, work: Work::Nothing }
}

fn event_body(used: usize, event: VncEvent) -> (r: Body)
    ensures
        r.used == used,
        event_views(r.events@) == seq![event@],
        r.replies@ == Seq::<u8>::empty(),
        !r.quiet,
        r.work@ == Task::Nothing,
{
    Body { used, events: one_event(event), replies: Vec::new(), quiet: false, work: Work::Nothing }
}

fn work_body(used: usize, work: Work) -> (r: Body)
    ensures
        r.used == used,
        event_views(r.events@) == Seq::<Event>::empty(),
        r.replies@ == Seq::<u8>::empty(),
        !r.quiet,
        r.work@ == work@,
{
    Body { used, events: no_events(), replies: Vec::new(), quiet: false, work }
}

impl Scene {
    /// The scene with another image.
    pub open spec fn with_image(self, image: Image) -> Scene {
        Scene { image, ..self }
    }
}

/// Pixels as they are.
pub open spec fn raw_body(s: Scene, h: RectHeader, b: Seq<u8>) -> BodyOutcome {
    let n = h.width * h.height * s.format.pixel_len();
    if b.len() < n {
        BodyOutcome::Short
    } else {
        plain_done(
            s.with_image(
                s.image.with_region(
                    h.x as int,
                    h.y as int,
                    h.width as int,
                    h.height as int,
                    b.take(n),
                    s.format,
                ),
            ),
            n,
        )
    }
}

/// A place to copy from.
pub open spec fn copy_body(s: Scene, h: RectHeader, b: Seq<u8>) -> BodyOutcome {
    if b.len() < 4 {
        BodyOutcome::Short
    } else {
        plain_done(
            s.with_image(
                s.image.with_copy(
                    u16_of(b, 0) as int,
                    u16_of(b, 2) as int,
                    h.x as int,
                    h.y as int,
                    h.width as int,
                    h.height as nat,
                ),
            ),
            4,
        )
    }
}

/// A rectangle that a decoder reads.
pub open spec fn decoded_body(s: Scene, h: RectHeader, d: Decoded) -> BodyOutcome {
    match d {
        Decoded::Incomplete => BodyOutcome::Short,
        Decoded::Refused(f) => BodyOutcome::Bad(f, s, 0),
        Decoded::Done { raster, used } => plain_done(
            s.with_image(
                s.image.with_raster(
                    h.x as int,
                    h.y as int,
                    h.width as int,
                    h.height as int,
                    raster,
                ),
            ),
            used as int,
        ),
    }
}

/// Tiles with colours that carry over.
pub open spec fn hextile_body(s: Scene, h: RectHeader, b: Seq<u8>) -> BodyOutcome {
    let next = after_all(b, h.width as nat, h.height as nat, s.format, s.hextile);
    decoded_body(
        Scene {
            hextile: match next {
                Some(p) => p.colours,
                None => s.hextile,
            },
            ..s
        },
        h,
        hextile_decoded(b, h.width as nat, h.height as nat, s.format, s.hextile),
    )
}

/// A chunk of one of the zlib streams.
pub open spec fn chunk_body(s: Scene, b: Seq<u8>, tiles: bool) -> BodyOutcome {
    match chunk_read(b, MAX_COMPRESSED_LEN as nat) {
        ChunkRead::Short => BodyOutcome::Short,
        ChunkRead::Bad(f) => BodyOutcome::Bad(f, s, 4),
        ChunkRead::Done { data, used } => task_done(
            s,
            used as int,
            if tiles {
                Task::InflateTiles { chunk: data }
            } else {
                Task::InflatePixels { chunk: data }
            },
        ),
    }
}

/// A Tight rectangle.
pub open spec fn tight_body(s: Scene, h: RectHeader, b: Seq<u8>) -> BodyOutcome {
    match tight_read(b, h.width as nat, h.height as nat, s.format) {
        TightRead::Short => BodyOutcome::Short,
        TightRead::Bad(f) => BodyOutcome::Bad(f, s, 0),
        TightRead::Done { part, resets, used } => task_done(
            s,
            used,
            Task::DecodeTight { part, resets },
        ),
    }
}

/// The longest H.264 access unit that a rectangle may carry.
pub open spec fn h264_bound(h: RectHeader) -> int {
    h.width * h.height * 3 + 65536
}

/// An H.264 access unit behind its length and a word of flags.
pub open spec fn h264_body(s: Scene, h: RectHeader, b: Seq<u8>) -> BodyOutcome {
    if b.len() < 8 {
        BodyOutcome::Short
    } else {
        let n = u32_of(b, 0);
        if n == 0 {
            plain_done(s, 8)
        } else if n > h264_bound(h) {
            BodyOutcome::Bad(
                Failure::Protocol(
                    "OpenH264 payload length "@ + decimal_text(n as nat) + " exceeds bound "@
                        + decimal_text(h264_bound(h) as nat) + " for "@ + decimal_text(
                        h.width as nat,
                    ) + "x"@ + decimal_text(h.height as nat) + " frame"@,
                ),
                s,
                8,
            )
        } else if b.len() < 8 + n {
            BodyOutcome::Short
        } else {
            task_done(s, 8 + n, Task::DecodeH264 { data: b.subrange(8, 8 + n) })
        }
    }
}

/// A new size.
pub open spec fn size_body(s: Scene, h: RectHeader) -> BodyOutcome {
    events_done(
        s.with_size(h.width, h.height),
        0,
        seq![Event::GeometryChanged { width: h.width, height: h.height }],
    )
}

/// A cursor image.
pub open spec fn cursor_body(s: Scene, h: RectHeader, b: Seq<u8>) -> BodyOutcome {
    let n = shape_len(h.width as nat, h.height as nat, s.format);
    if b.len() < n {
        BodyOutcome::Short
    } else {
        events_done(
            s,
            n as int,
            seq![
                Event::CursorShape(
                    shape_of(h.width, h.height, h.x, h.y, b.take(n as int), s.format),
                ),
            ],
        )
    }
}

/// A new name.
pub open spec fn name_body(s: Scene, b: Seq<u8>) -> BodyOutcome {
    if b.len() < 4 {
        BodyOutcome::Short
    } else {
        let n = u32_of(b, 0);
        if n > MAX_TEXT_LEN {
            BodyOutcome::Bad(
                Failure::Protocol("Desktop name length exceeds limit: "@ + decimal_text(n as nat)),
                s,
                4,
            )
        } else if b.len() < 4 + n {
            BodyOutcome::Short
        } else {
            let name = lossy_text(b.subrange(4, 4 + n));
            events_done(Scene { name, ..s }, 4 + n, seq![Event::NameChanged(name)])
        }
    }
}

/// A new size with a list of screens.
pub open spec fn screens_body(s: Scene, h: RectHeader, b: Seq<u8>) -> BodyOutcome {
    if b.len() < 4 || b.len() < 4 + 16 * b[0] {
        BodyOutcome::Short
    } else {
        events_done(
            s.with_size(h.width, h.height),
            4 + 16 * b[0],
            seq![
                Event::GeometryChanged { width: h.width, height: h.height },
                Event::ScreenLayout(screen_list(b)),
            ],
        )
    }
}

/// A fence inside an update.
pub open spec fn fence_body(s: Scene, b: Seq<u8>) -> BodyOutcome {
    if b.len() < 5 || b.len() < 5 + b[4] {
        BodyOutcome::Short
    } else {
        events_done(
            s,
            5 + b[4],
            seq![Event::Fence { flags: u32_of(b, 0), data: b.subrange(5, 5 + b[4]) }],
        )
    }
}

/// What the body of a rectangle means.
pub open spec fn body_outcome(s: Scene, h: RectHeader, b: Seq<u8>, ends: Seq<usize>) -> BodyOutcome {
    let (w, t) = (h.width as nat, h.height as nat);
    match encoding_of(h.encoding) {
        Some(Encoding::Raw) => raw_body(s, h, b),
        Some(Encoding::CopyRect) => copy_body(s, h, b),
        Some(Encoding::Rre) => decoded_body(s, h, rre_decoded(b, w, t, s.format)),
        Some(Encoding::Hextile) => hextile_body(s, h, b),
        Some(Encoding::Zlib) => chunk_body(s, b, false),
        Some(Encoding::Tight) => tight_body(s, h, b),
        Some(Encoding::Trle) => decoded_body(s, h, tiles_decoded(b, w, t, s.format)),
        Some(Encoding::Zrle) => chunk_body(s, b, true),
        Some(Encoding::OpenH264) => h264_body(s, h, b),
        Some(Encoding::DesktopSize) => size_body(s, h),
        Some(Encoding::CursorPos) => events_done(s, 0, seq![Event::CursorPos { x: h.x, y: h.y }]),
        Some(Encoding::Cursor) => cursor_body(s, h, b),
        Some(Encoding::DesktopName) => name_body(s, b),
        Some(Encoding::ExtendedDesktopSize) => screens_body(s, h, b),
        Some(Encoding::ExtendedClipboard) => plain_done(s, 0),
        Some(Encoding::Fence) => fence_body(s, b),
        Some(Encoding::AppleHp(value)) => apple_body(s, h, value, b, ends),
        _ => BodyOutcome::Bad(
            Failure::Protocol("Unsupported encoding: "@ + signed_text(h.encoding as int)),
            s,
            0,
        ),
    }
}

proof fn lemma_rect_area(w: u16, h: u16, len: int)
    by (nonlinear_arith)
    requires
        w <= 16384,
        h <= 16384,
        0 <= len <= 33,
    ensures
        0 <= w * h <= 0x1000_0000,
        0 <= w * h * len <= 0x1000_0000 * 33,
        0 <= w * h * len <= w * h * 33,
{
}

proof fn lemma_addressable(fb: Framebuffer, x: u16, y: u16, w: u16, h: u16)
    requires
        fb.width <= MAX_DIMENSION,
    ensures
        fb.addressable(x as usize, y as usize, w as usize, h as usize),
{
    let stride = fb.width as int;
    assert(((y + h) * stride + x + w) * 4 <= u64::MAX && w * h * 32 <= u64::MAX) by (
    nonlinear_arith)
        requires
            0 <= stride <= 16384,
            0 <= x <= 0xffff,
            0 <= y <= 0xffff,
            0 <= w <= 0xffff,
            0 <= h <= 0xffff,
    ;
}

/// Whether a rectangle has passed the size check.
pub open spec fn admitted(h: RectHeader) -> bool {
    size_ok(h.width as u32, h.height as u32)
}

impl Desktop {
    fn handle_raw_encoding(&mut self, h: &RectHeader, b: &[u8]) -> (r: Result<
        Option<Body>,
        Refusal,
    >)
        requires
            old(self).wf(),
            admitted(*h),
        ensures
            body_reports(r, old(self)@, final(self)@, raw_body(old(self)@, *h, b@)),
            final(self).wf(),
            final(self).pending == old(self).pending,
            r matches Ok(Some(body)) ==> body.used <= b@.len(),
            r matches Err(e) ==> e.used <= b@.len(),
    {
        let format = self.pixel_format;
        let len: usize = format.bytes_per_pixel();
        proof {
            lemma_rect_area(h.width, h.height, len as int);
            lemma_addressable(self.framebuffer, h.x, h.y, h.width, h.height);
            assert(b@.len() == b.len());
        }
        let n: u64 = h.width as u64 * h.height as u64 * len as u64;
        if (b.len() as u64) < n {
            return Ok(None);
        }
        let n: usize = n as usize;
        let px = slice(b, 0, n);
        assert(px@ =~= b@.take(n as int));
        paint_pixels(
            &mut self.framebuffer,
            h.x as usize,
            h.y as usize,
            h.width as usize,
            h.height as usize,
            &format,
            px,
        );
        Ok(Some(plain_body(n)))
    }

    fn handle_copyrect_encoding(&mut self, h: &RectHeader, b: &[u8]) -> (r: Result<
        Option<Body>,
        Refusal,
    >)
        requires
            old(self).wf(),
            admitted(*h),
        ensures
            body_reports(r, old(self)@, final(self)@, copy_body(old(self)@, *h, b@)),
            final(self).wf(),
            final(self).pending == old(self).pending,
            r matches Ok(Some(body)) ==> body.used <= b@.len(),
            r matches Err(e) ==> e.used <= b@.len(),
    {
        if b.len() < 4 {
            return Ok(None);
        }
        let src_x: u16 = u16_at(b, 0);
        let src_y: u16 = u16_at(b, 2);
        proof {
            lemma_addressable(self.framebuffer, src_x, src_y, h.width, h.height);
            lemma_addressable(self.framebuffer, h.x, h.y, h.width, h.height);
        }
        self.framebuffer.copy_rect(
            src_x as usize,
            src_y as usize,
            h.x as usize,
            h.y as usize,
            h.width as usize,
            h.height as usize,
        );
        Ok(Some(plain_body(4)))
    }

    fn handle_rre_encoding(&mut self, h: &RectHeader, b: &[u8]) -> (r: Result<
        Option<Body>,
        Refusal,
    >)
        requires
            old(self).wf(),
            admitted(*h),
        ensures
            body_reports(
                r,
                old(self)@,
                final(self)@,
                decoded_body(
                    old(self)@,
                    *h,
                    rre_decoded(b@, h.width as nat, h.height as nat, old(self)@.format),
                ),
            ),
            final(self).wf(),
            final(self).pending == old(self).pending,
            r matches Ok(Some(body)) ==> body.used <= b@.len(),
            r matches Err(e) ==> e.used <= b@.len(),
    {
        let format = self.pixel_format;
        proof {
            lemma_rect_area(h.width, h.height, 1);
            lemma_addressable(self.framebuffer, h.x, h.y, h.width, h.height);
        }
        match rre::decode(
            b,
            &mut self.framebuffer,
            h.x as usize,
            h.y as usize,
            h.width as usize,
            h.height as usize,
            &format,
        ) {
            Ok(Some(used)) => Ok(Some(plain_body(used))),
            Ok(None) => Ok(None),
            Err(error) => Err(Refusal { error, used: 0 }),
        }
    }

    fn handle_hextile_encoding(&mut self, h: &RectHeader, b: &[u8]) -> (r: Result<
        Option<Body>,
        Refusal,
    >)
        requires
            old(self).wf(),
            admitted(*h),
        ensures
            body_reports(r, old(self)@, final(self)@, hextile_body(old(self)@, *h, b@)),
            final(self).wf(),
            final(self).pending == old(self).pending,
            r matches Ok(Some(body)) ==> body.used <= b@.len(),
            r matches Err(e) ==> e.used <= b@.len(),
    {
        let format = self.pixel_format;
        proof {
            lemma_rect_area(h.width, h.height, 1);
            lemma_addressable(self.framebuffer, h.x, h.y, h.width, h.height);
        }
        match hextile::decode(
            b,
            &mut self.framebuffer,
            h.x as usize,
            h.y as usize,
            h.width as usize,
            h.height as usize,
            &format,
            &mut self.hextile,
        ) {
            Ok(Some(used)) => Ok(Some(plain_body(used))),
            Ok(None) => Ok(None),
            Err(error) => Err(Refusal { error, used: 0 }),
        }
    }

    fn handle_trle_encoding(&mut self, h: &RectHeader, b: &[u8]) -> (r: Result<
        Option<Body>,
        Refusal,
    >)
        requires
            old(self).wf(),
            admitted(*h),
        ensures
            body_reports(
                r,
                old(self)@,
                final(self)@,
                decoded_body(
                    old(self)@,
                    *h,
                    tiles_decoded(b@, h.width as nat, h.height as nat, old(self)@.format),
                ),
            ),
            final(self).wf(),
            final(self).pending == old(self).pending,
            r matches Ok(Some(body)) ==> body.used <= b@.len(),
            r matches Err(e) ==> e.used <= b@.len(),
    {
        let format = self.pixel_format;
        proof {
            lemma_rect_area(h.width, h.height, 1);
            lemma_addressable(self.framebuffer, h.x, h.y, h.width, h.height);
        }
        match trle::decode(
            b,
            &mut self.framebuffer,
            h.x as usize,
            h.y as usize,
            h.width as usize,
            h.height as usize,
            &format,
        ) {
            Ok(Some(used)) => Ok(Some(plain_body(used))),
            Ok(None) => Ok(None),
            Err(error) => Err(Refusal { error, used: 0 }),
        }
    }
}

fn read_chunk_body(b: &[u8], tiles: bool, Ghost(s): Ghost<Scene>) -> (r: Result<
    Option<Body>,
    Refusal,
>)
    ensures
        body_reports(r, s, s, chunk_body(s, b@, tiles)),
        r matches Ok(Some(body)) ==> body.used <= b@.len(),
        r matches Err(e) ==> e.used <= b@.len(),
{
    match read_len_prefixed(b, MAX_COMPRESSED_LEN) {
        Ok(None) => Ok(None),
        Err(error) => Err(Refusal { error, used: 4 }),
        Ok(Some((chunk, used))) => Ok(
            Some(
                work_body(
                    used,
                    if tiles {
                        Work::InflateTiles { chunk }
                    } else {
                        Work::InflatePixels { chunk }
                    },
                ),
            ),
        ),
    }
}

impl Desktop {
    fn handle_tight_encoding(&self, h: &RectHeader, b: &[u8]) -> (r: Result<Option<Body>, Refusal>)
        requires
            admitted(*h),
        ensures
            body_reports(r, self@, self@, tight_body(self@, *h, b@)),
            r matches Ok(Some(body)) ==> body.used <= b@.len(),
            r matches Err(e) ==> e.used <= b@.len(),
    {
        proof {
            lemma_rect_area(h.width, h.height, 33);
        }
        match read_rect(b, h.width as usize, h.height as usize, &self.pixel_format) {
            Ok(None) => Ok(None),
            Err(error) => Err(Refusal { error, used: 0 }),
            Ok(Some(t)) => Ok(
                Some(work_body(t.used, Work::DecodeTight { part: t.part, resets: t.resets })),
            ),
        }
    }

    fn handle_openh264_encoding(&self, h: &RectHeader, b: &[u8]) -> (r: Result<
        Option<Body>,
        Refusal,
    >)
        requires
            admitted(*h),
        ensures
            body_reports(r, self@, self@, h264_body(self@, *h, b@)),
            r matches Ok(Some(body)) ==> body.used <= b@.len(),
            r matches Err(e) ==> e.used <= b@.len(),
    {
        if b.len() < 8 {
            return Ok(None);
        }
        let n: u32 = u32_at(b, 0);
        if n == 0 {
            return Ok(Some(plain_body(8)));
        }
        proof {
            lemma_rect_area(h.width, h.height, 3);
            assert(b@.len() == b.len());
        }
        let bound: u64 = h.width as u64 * h.height as u64 * 3 + 65536;
        if n as u64 > bound {
            let t = concat_text("OpenH264 payload length ", decimal(n as u64).as_str());
            let t = concat_text(t.as_str(), " exceeds bound ");
            let t = concat_text(t.as_str(), decimal(bound).as_str());
            let t = concat_text(t.as_str(), " for ");
            let t = concat_text(t.as_str(), decimal(h.width as u64).as_str());
            let t = concat_text(t.as_str(), "x");
            let t = concat_text(t.as_str(), decimal(h.height as u64).as_str());
            let error = VncError::Protocol(concat_text(t.as_str(), " frame"));
            return Err(Refusal { error, used: 8 });
        }
        if ((b.len() - 8) as u64) < n as u64 {
            return Ok(None);
        }
        let end: usize = 8 + n as usize;
        let data = to_vec(slice(b, 8, end));
        Ok(Some(work_body(end, Work::DecodeH264 { data })))
    }

    fn handle_desktop_size_pseudo_encoding(&mut self, h: &RectHeader) -> (r: Result<
        Option<Body>,
        Refusal,
    >)
        requires
            old(self).wf(),
            admitted(*h),
        ensures
            body_reports(r, old(self)@, final(self)@, size_body(old(self)@, *h)),
            final(self).wf(),
            final(self).pending == old(self).pending,
            r matches Ok(Some(body)) ==> body.used == 0,
    {
        self.resize(h.width, h.height);
        Ok(
            Some(
                event_body(
                    0,
                    VncEvent::GeometryChanged { width: h.width, height: h.height },
                ),
            ),
        )
    }

    fn handle_cursor_pseudo_encoding(&self, h: &RectHeader, b: &[u8]) -> (r: Result<
        Option<Body>,
        Refusal,
    >)
        requires
            admitted(*h),
        ensures
            body_reports(r, self@, self@, cursor_body(self@, *h, b@)),
            r matches Ok(Some(body)) ==> body.used <= b@.len(),
            r matches Err(e) ==> e.used <= b@.len(),
    {
        let n: u64 = CursorShape::wire_len(h.width, h.height, &self.pixel_format);
        assert(b@.len() == b.len());
        if (b.len() as u64) < n {
            return Ok(None);
        }
        let n: usize = n as usize;
        let data = slice(b, 0, n);
        proof {
            lemma_rect_area(h.width, h.height, 4);
            assert(data@ =~= b@.take(n as int));
        }
        let shape = CursorShape::decode(h.width, h.height, h.x, h.y, data, &self.pixel_format);
        Ok(Some(event_body(n, VncEvent::CursorShape(shape))))
    }

    fn handle_desktop_name_pseudo_encoding(&mut self, b: &[u8]) -> (r: Result<
        Option<Body>,
        Refusal,
    >)
        requires
            old(self).wf(),
        ensures
            body_reports(r, old(self)@, final(self)@, name_body(old(self)@, b@)),
            final(self).wf(),
            final(self).pending == old(self).pending,
            r matches Ok(Some(body)) ==> body.used <= b@.len(),
            r matches Err(e) ==> e.used <= b@.len(),
    {
        if b.len() < 4 {
            return Ok(None);
        }
        let n: u32 = u32_at(b, 0);
        if n as usize > MAX_TEXT_LEN {
            let error = VncError::Protocol(
                concat_text("Desktop name length exceeds limit: ", decimal(n as u64).as_str()),
            );
            return Err(Refusal { error, used: 4 });
        }
        let end: usize = 4 + n as usize;
        if b.len() < end {
            return Ok(None);
        }
        self.name = lossy_string(slice(b, 4, end));
        let told = self.name.as_str().to_owned();
        Ok(Some(event_body(end, VncEvent::NameChanged(told))))
    }

    fn handle_extended_desktop_size_pseudo_encoding(&mut self, h: &RectHeader, b: &[u8]) -> (r:
        Result<Option<Body>, Refusal>)
        requires
            old(self).wf(),
            admitted(*h),
        ensures
            body_reports(r, old(self)@, final(self)@, screens_body(old(self)@, *h, b@)),
            final(self).wf(),
            final(self).pending == old(self).pending,
            r matches Ok(Some(body)) ==> body.used <= b@.len(),
            r matches Err(e) ==> e.used <= b@.len(),
    {
        match read_screen_list(b) {
            None => Ok(None),
            Some((screens, used)) => {
                self.resize(h.width, h.height);
                let mut events = one_event(
                    VncEvent::GeometryChanged { width: h.width, height: h.height },
                );
                push_event(&mut events, VncEvent::ScreenLayout(screens));
                assert(event_views(events@) =~= seq![
                    Event::GeometryChanged { width: h.width, height: h.height },
                    Event::ScreenLayout(screens@),
                ]);
                Ok(
                    Some(
                        Body {
                            used,
                            events,
                            replies: Vec::new(),
                            quiet: false,
                            work: Work::Nothing,
                        },
                    ),
                )
            },
        }
    }

    fn handle_fence_pseudo_encoding(&self, b: &[u8]) -> (r: Result<Option<Body>, Refusal>)
        ensures
            body_reports(r, self@, self@, fence_body(self@, b@)),
            r matches Ok(Some(body)) ==> body.used <= b@.len(),
            r matches Err(e) ==> e.used <= b@.len(),
    {
        if b.len() < 5 {
            return Ok(None);
        }
        let end: usize = 5 + b[4] as usize;
        if b.len() < end {
            return Ok(None);
        }
        let flags: u32 = u32_at(b, 0);
        let data = to_vec(slice(b, 5, end));
        Ok(Some(event_body(end, VncEvent::Fence { flags, data })))
    }

    /// Reads the body of a rectangle. `None` asks for more bytes.
    #[verifier::rlimit(40)]
    pub fn read_body(&mut self, h: &RectHeader, b: &[u8], ends: &[usize]) -> (r: Result<
        Option<Body>,
        Refusal,
    >)
        requires
            old(self).wf(),
            admitted(*h),
        ensures
            body_reports(r, old(self)@, final(self)@, body_outcome(old(self)@, *h, b@, ends@)),
            final(self).wf(),
            final(self).pending == old(self).pending,
            r matches Ok(Some(body)) ==> body.used <= b@.len(),
            r matches Err(e) ==> e.used <= b@.len(),
    {
        match from_i32(h.encoding) {
            Some(Encoding::Raw) => self.handle_raw_encoding(h, b),
            Some(Encoding::CopyRect) => self.handle_copyrect_encoding(h, b),
            Some(Encoding::Rre) => self.handle_rre_encoding(h, b),
            Some(Encoding::Hextile) => self.handle_hextile_encoding(h, b),
            Some(Encoding::Zlib) => read_chunk_body(b, false, Ghost(self@)),
            Some(Encoding::Tight) => self.handle_tight_encoding(h, b),
            Some(Encoding::Trle) => self.handle_trle_encoding(h, b),
            Some(Encoding::Zrle) => read_chunk_body(b, true, Ghost(self@)),
            Some(Encoding::OpenH264) => self.handle_openh264_encoding(h, b),
            Some(Encoding::DesktopSize) => self.handle_desktop_size_pseudo_encoding(h),
            Some(Encoding::CursorPos) => Ok(
                Some(event_body(0, VncEvent::CursorPos { x: h.x, y: h.y })),
            ),
            Some(Encoding::Cursor) => self.handle_cursor_pseudo_encoding(h, b),
            Some(Encoding::DesktopName) => self.handle_desktop_name_pseudo_encoding(b),
            Some(Encoding::ExtendedDesktopSize) => {
                self.handle_extended_desktop_size_pseudo_encoding(h, b)
            },
            Some(Encoding::ExtendedClipboard) => Ok(Some(plain_body(0))),
            Some(Encoding::Fence) => self.handle_fence_pseudo_encoding(b),
            Some(Encoding::AppleHp(value)) => self.handle_apple(h, value, b, ends),
            _ => {
                let error = VncError::Protocol(
                    concat_text("Unsupported encoding: ", signed(h.encoding as i64).as_str()),
                );
                Err(Refusal { error, used: 0 })
            },
        }
    }
}

/// The scene once the work on a rectangle has given its image.
pub open spec fn work_closed(s: Scene, image: Image) -> Scene {
    s.with_image(image).rect_closed()
}

/// The image with a decoded video frame: at the size of the video where that is
/// known, else at the size of the rectangle, if the frame is that large.
pub open spec fn frame_painted(
    image: Image,
    h: RectHeader,
    rgba: Seq<u8>,
    video_size: Option<(u16, u16)>,
) -> Image {
    match video_size {
        Some((w, t)) => image.with_region(
            h.x as int,
            h.y as int,
            w as int,
            t as int,
            rgba,
            PixelFormat::rgba(),
        ),
        None => {
            let n = h.width * 4 * h.height;
            if rgba.len() >= n {
                image.with_region(
                    h.x as int,
                    h.y as int,
                    h.width as int,
                    h.height as int,
                    rgba.take(n),
                    PixelFormat::rgba(),
                )
            } else {
                image
            }
        },
    }
}

/// The zlib streams of a session.
pub struct Streams {
    pub zlib: SessionInflate,
    pub zrle: Option<SessionInflate>,
    pub tight: TightStreams,
}

/// What the streams of a session have been given.
pub struct StreamCalls {
    pub zlib: Seq<Seq<u8>>,
    pub zrle: Option<Seq<Seq<u8>>>,
    pub tight: Seq<Seq<Seq<u8>>>,
}

impl View for Streams {
    type V = StreamCalls;

    open spec fn view(&self) -> StreamCalls {
        StreamCalls {
            zlib: self.zlib.calls(),
            zrle: calls_of(self.zrle),
            tight: self.tight.calls(),
        }
    }
}

impl Streams {
    /// Whether the Tight streams are complete.
    pub open spec fn wf(&self) -> bool {
        self.tight.wf()
    }

    /// Streams at the start of a session.
    pub fn new() -> (r: Streams)
        ensures
            r.wf(),
            r@ == (StreamCalls {
                zlib: Seq::empty(),
                zrle: None,
                tight: seq![Seq::empty(), Seq::empty(), Seq::empty(), Seq::empty()],
            }),
    {
        Streams { zlib: SessionInflate::new(), zrle: None, tight: TightStreams::new() }
    }
}

/// What the work on a rectangle comes to.
pub enum WorkOutcome {
    /// It is not work for the streams of the session.
    Left,
    Bad(Failure),
    /// The rectangle is painted.
    Painted(Image),
    /// A JPEG image is left to decode.
    Jpeg(Seq<u8>),
}

/// What the chunk of a Zlib rectangle inflates to, and what the stream has been
/// given then.
pub open spec fn pixels_inflation(
    calls: Seq<Seq<u8>>,
    h: RectHeader,
    format: PixelFormat,
    chunk: Seq<u8>,
) -> Option<(Seq<u8>, Seq<Seq<u8>>)> {
    inflation(calls, chunk, held(h.width as nat * h.height as nat * format.pixel_len()))
}

/// What the chunk of a ZRLE rectangle inflates to, and what the stream has been
/// given then.
pub open spec fn tiles_inflation(
    calls: Seq<Seq<u8>>,
    h: RectHeader,
    format: PixelFormat,
    chunk: Seq<u8>,
) -> Option<(Seq<u8>, Seq<Seq<u8>>)> {
    inflation(calls, chunk, held(max_output(h.width as nat, h.height as nat, format)))
}

/// The image with the raster of a rectangle.
pub open spec fn rect_painted(image: Image, h: RectHeader, raster: Seq<u32>) -> Image {
    image.with_raster(h.x as int, h.y as int, h.width as int, h.height as int, raster)
}

/// What the streams make of the work on the rectangle `h`.
pub open spec fn work_outcome(s: Scene, h: RectHeader, task: Task, t: StreamCalls) -> WorkOutcome {
    let (w, n) = (h.width as nat, h.height as nat);
    match task {
        Task::InflatePixels { chunk } => match pixels_verdict(
            inflation_bytes(pixels_inflation(t.zlib, h, s.format, chunk)),
            w,
            n,
            s.format,
        ) {
            Err(f) => WorkOutcome::Bad(f),
            Ok(px) => WorkOutcome::Painted(
                s.image.with_region(h.x as int, h.y as int, w as int, n as int, px, s.format),
            ),
        },
        Task::InflateTiles { chunk } => match calls_for(t.zrle, chunk) {
            None => WorkOutcome::Bad(Failure::Protocol("ZRLE decompressor not initialized"@)),
            Some(calls) => match zrle_verdict(
                inflation_bytes(tiles_inflation(calls, h, s.format, chunk)),
                w,
                n,
                s.format,
            ) {
                Err(f) => WorkOutcome::Bad(f),
                Ok(raster) => WorkOutcome::Painted(rect_painted(s.image, h, raster)),
            },
        },
        Task::DecodeTight { part, resets } => match session_image(
            t.tight,
            resets,
            part,
            w,
            n,
            s.format,
        ) {
            Err(f) => WorkOutcome::Bad(f),
            Ok(ImageView::Raster(raster)) => WorkOutcome::Painted(
                rect_painted(s.image, h, raster),
            ),
            Ok(ImageView::Jpeg(data)) => WorkOutcome::Jpeg(data),
        },
        _ => WorkOutcome::Left,
    }
}

/// What the streams have been given once the work on the rectangle `h` is done.
pub open spec fn calls_after(s: Scene, h: RectHeader, task: Task, t: StreamCalls) -> StreamCalls {
    match task {
        Task::InflatePixels { chunk } => StreamCalls {
            zlib: pixels_inflation(t.zlib, h, s.format, chunk).unwrap().1,
            ..t
        },
        Task::InflateTiles { chunk } => StreamCalls {
            zrle: Some(
                tiles_inflation(
                    calls_for(t.zrle, chunk).unwrap(),
                    h,
                    s.format,
                    chunk,
                ).unwrap().1,
            ),
            ..t
        },
        Task::DecodeTight { part, resets } => StreamCalls {
            tight: part_calls(after_resets(t.tight, resets), part),
            ..t
        },
        _ => t,
    }
}

/// Whether `after` is what the streams can have been given once the work on the
/// rectangle `h` is done or refused. Nothing is said of a stream whose chunk does
/// not inflate.
pub open spec fn work_leaves(
    s: Scene,
    h: RectHeader,
    task: Task,
    t: StreamCalls,
    after: StreamCalls,
) -> bool {
    match task {
        Task::InflatePixels { chunk } => {
            &&& after == (StreamCalls { zlib: after.zlib, ..t })
            &&& pixels_inflation(t.zlib, h, s.format, chunk) matches Some((_, calls)) ==> after.zlib
                == calls
        },
        Task::InflateTiles { chunk } => {
            &&& after == (StreamCalls { zrle: after.zrle, ..t })
            &&& match calls_for(t.zrle, chunk) {
                None => after.zrle is None,
                Some(calls) => after.zrle is Some && (tiles_inflation(
                    calls,
                    h,
                    s.format,
                    chunk,
                ) matches Some((_, last)) ==> after.zrle == Some(last)),
            }
        },
        Task::DecodeTight { part, resets } => {
            &&& after == (StreamCalls { tight: after.tight, ..t })
            &&& calls_left(after_resets(t.tight, resets), part, after.tight)
        },
        _ => after == t,
    }
}

/// Whether `after` is what the streams can have been given once the front of the
/// input is read or refused. Input that reaches no stream leaves them all.
pub open spec fn streams_left(
    s: Scene,
    input: Seq<u8>,
    ends: Seq<usize>,
    t: StreamCalls,
    after: StreamCalls,
) -> bool {
    match outcome(s, input, ends) {
        Outcome::Done { scene, task, .. } => work_leaves(
            scene,
            scene.waiting.unwrap(),
            task,
            t,
            after,
        ),
        _ => after == t,
    }
}

/// The desktop once the front of the input is refused, or the stream of a
/// rectangle fails.
pub open spec fn refused_with(s: Scene, input: Seq<u8>, ends: Seq<usize>) -> Scene {
    match outcome(s, input, ends) {
        Outcome::Done { scene, .. } => scene.given_up(),
        _ => refused(s, input, ends),
    }
}

/// What the front of the input means, with the streams of the session at hand.
pub open spec fn outcome_with(
    s: Scene,
    input: Seq<u8>,
    ends: Seq<usize>,
    t: StreamCalls,
) -> Outcome {
    match outcome(s, input, ends) {
        Outcome::Done { scene, used, events, replies, task } => {
            let h = scene.waiting.unwrap();
            match work_outcome(scene, h, task, t) {
                WorkOutcome::Left => Outcome::Done { scene, used, events, replies, task },
                WorkOutcome::Bad(f) => Outcome::Bad(f, used),
                WorkOutcome::Painted(image) => Outcome::Done {
                    scene: work_closed(scene, image),
                    used,
                    events: events.push(update_event(h)),
                    replies,
                    task: Task::Nothing,
                },
                WorkOutcome::Jpeg(data) => Outcome::Done {
                    scene,
                    used,
                    events,
                    replies,
                    task: Task::DecodeJpeg { data },
                },
            }
        },
        other => other,
    }
}

/// What the streams have been given behind the front of the input.
pub open spec fn calls_with(
    s: Scene,
    input: Seq<u8>,
    ends: Seq<usize>,
    t: StreamCalls,
) -> StreamCalls {
    match outcome(s, input, ends) {
        Outcome::Done { scene, task, .. } => calls_after(scene, scene.waiting.unwrap(), task, t),
        _ => t,
    }
}

impl Desktop {
    /// Completes a rectangle with the video frame that was decoded for it.
    pub fn finish_decoded(&mut self, rgba: &[u8], video_size: Option<(u16, u16)>) -> (r: VncEvent)
        requires
            old(self).wf(),
            old(self)@.waiting is Some,
            old(self)@.pending > 0,
            video_size matches Some((w, t)) ==> t > 0 ==> (t - 1) * (w * 4) <= rgba@.len(),
        ensures
            final(self)@ == work_closed(
                old(self)@,
                frame_painted(
                    old(self)@.image,
                    old(self)@.waiting.unwrap(),
                    rgba@,
                    video_size,
                ),
            ),
            r@ == update_event(old(self)@.waiting.unwrap()),
            final(self).wf(),
    {
        let h: RectHeader = self.waiting.unwrap();
        match video_size {
            Some((w, t)) => {
                proof {
                    lemma_addressable(self.framebuffer, h.x, h.y, w, t);
                }
                self.framebuffer.write_region(
                    h.x as usize,
                    h.y as usize,
                    w as usize,
                    t as usize,
                    rgba,
                    &PixelFormat::rgba32(),
                );
            },
            None => {
                proof {
                    lemma_addressable(self.framebuffer, h.x, h.y, h.width, h.height);
                    lemma_frame_area(h.width, h.height);
                    assert(rgba@.len() == rgba.len());
                }
                let n: u64 = h.width as u64 * 4 * h.height as u64;
                if rgba.len() as u64 >= n {
                    let px = slice(rgba, 0, n as usize);
                    assert(px@ =~= rgba@.take(n as int));
                    self.framebuffer.write_region(
                        h.x as usize,
                        h.y as usize,
                        h.width as usize,
                        h.height as usize,
                        px,
                        &PixelFormat::rgba32(),
                    );
                }
            },
        }
        self.close_rect();
        VncEvent::FramebufferUpdate { x: h.x, y: h.y, width: h.width, height: h.height }
    }

    /// Completes a rectangle with the pixels that its chunk inflated to.
    pub fn finish_pixels(&mut self, px: &[u8]) -> (r: VncEvent)
        requires
            old(self).wf(),
            old(self)@.waiting is Some,
            old(self)@.pending > 0,
            px@.len() >= old(self)@.waiting.unwrap().width * old(self)@.waiting.unwrap().height
                * old(self)@.format.pixel_len(),
        ensures
            final(self)@ == work_closed(
                old(self)@,
                old(self)@.image.with_region(
                    old(self)@.waiting.unwrap().x as int,
                    old(self)@.waiting.unwrap().y as int,
                    old(self)@.waiting.unwrap().width as int,
                    old(self)@.waiting.unwrap().height as int,
                    px@,
                    old(self)@.format,
                ),
            ),
            r@ == update_event(old(self)@.waiting.unwrap()),
            final(self).wf(),
    {
        let h: RectHeader = self.waiting.unwrap();
        let format = self.pixel_format;
        proof {
            lemma_addressable(self.framebuffer, h.x, h.y, h.width, h.height);
        }
        paint_pixels(
            &mut self.framebuffer,
            h.x as usize,
            h.y as usize,
            h.width as usize,
            h.height as usize,
            &format,
            px,
        );
        self.close_rect();
        VncEvent::FramebufferUpdate { x: h.x, y: h.y, width: h.width, height: h.height }
    }

    /// Completes a rectangle with the tiles that its chunk inflated to.
    pub fn finish_tiles(&mut self, data: &[u8]) -> (r: Result<VncEvent, VncError>)
        requires
            old(self).wf(),
            old(self)@.waiting is Some,
            old(self)@.pending > 0,
            admitted(old(self)@.waiting.unwrap()),
        ensures
            ({
                let h = old(self)@.waiting.unwrap();
                match tiles_verdict(data@, h.width as nat, h.height as nat, old(self)@.format) {
                    Err(f) => r matches Err(e) && e@ == f && final(self)@ == old(self)@,
                    Ok(raster) => r matches Ok(event) && event@ == update_event(h) && final(self)@
                        == work_closed(
                        old(self)@,
                        old(self)@.image.with_raster(
                            h.x as int,
                            h.y as int,
                            h.width as int,
                            h.height as int,
                            raster,
                        ),
                    ),
                }
            }),
            final(self).wf(),
    {
        let h: RectHeader = self.waiting.unwrap();
        let format = self.pixel_format;
        proof {
            lemma_addressable(self.framebuffer, h.x, h.y, h.width, h.height);
            lemma_rect_area(h.width, h.height, 1);
        }
        match paint_tiles(
            data,
            &mut self.framebuffer,
            h.x as usize,
            h.y as usize,
            h.width as usize,
            h.height as usize,
            &format,
        ) {
            Err(e) => Err(e),
            Ok(()) => {
                self.close_rect();
                Ok(VncEvent::FramebufferUpdate { x: h.x, y: h.y, width: h.width, height: h.height })
            },
        }
    }
}

impl Desktop {
    /// Completes a rectangle with the raster that was decoded for it.
    pub fn finish_raster(&mut self, raster: &[u32]) -> (r: VncEvent)
        requires
            old(self).wf(),
            old(self)@.waiting is Some,
            old(self)@.pending > 0,
            raster@.len() == old(self)@.waiting.unwrap().width * old(
                self,
            )@.waiting.unwrap().height,
        ensures
            final(self)@ == work_closed(
                old(self)@,
                rect_painted(old(self)@.image, old(self)@.waiting.unwrap(), raster@),
            ),
            r@ == update_event(old(self)@.waiting.unwrap()),
            final(self).wf(),
    {
        let h: RectHeader = self.waiting.unwrap();
        proof {
            lemma_addressable(self.framebuffer, h.x, h.y, h.width, h.height);
        }
        paint(
            &mut self.framebuffer,
            h.x as usize,
            h.y as usize,
            h.width as usize,
            h.height as usize,
            raster,
        );
        self.close_rect();
        VncEvent::FramebufferUpdate { x: h.x, y: h.y, width: h.width, height: h.height }
    }
}

/// Whether work on a rectangle can be done: the rectangle is on record, within
/// the limits, and fits what is known of it.
pub open spec fn work_ready(s: Scene, task: Task) -> bool {
    match task {
        Task::InflatePixels { .. } | Task::InflateTiles { .. } => s.pending > 0 && (
        s.waiting matches Some(h) && admitted(h)),
        Task::DecodeTight { part, .. } => s.pending > 0 && (s.waiting matches Some(h) && admitted(h)
            && part_fits(part, h.width as nat, h.height as nat, s.format)),
        _ => true,
    }
}

#[verifier::rlimit(30)]
proof fn lemma_work_is_ready(s: Scene, input: Seq<u8>, ends: Seq<usize>)
    ensures
        outcome(s, input, ends) matches Outcome::Done { scene, task, .. } ==> work_ready(
            scene,
            task,
        ),
{
    crate::desktop::server::lemma_messages_leave_no_work(s, input);
    if s.pending > 0 && input.len() >= RECT_HEADER_LEN {
        let h = RectHeader::read(input);
        lemma_tight_fits(
            input.skip(RECT_HEADER_LEN as int),
            h.width as nat,
            h.height as nat,
            s.format,
        );
    }
}

/// What work on a rectangle has come to.
enum Progress {
    Left(Work),
    Painted(VncEvent),
    Jpeg(Vec<u8>),
}

impl Desktop {
    fn inflate_pixels(&mut self, streams: &mut Streams, chunk: &[u8]) -> (r: Result<
        VncEvent,
        VncError,
    >)
        requires
            old(self).wf(),
            old(streams).wf(),
            work_ready(old(self)@, Task::InflatePixels { chunk: chunk@ }),
        ensures
            final(self).wf(),
            final(streams).wf(),
            ({
                let s = old(self)@;
                let h = s.waiting.unwrap();
                let task = Task::InflatePixels { chunk: chunk@ };
                &&& work_leaves(s, h, task, old(streams)@, final(streams)@)
                &&& match work_outcome(s, h, task, old(streams)@) {
                    WorkOutcome::Painted(image) => r matches Ok(e) && e@ == update_event(h)
                        && final(self)@ == work_closed(s, image) && final(streams)@ == calls_after(
                        s,
                        h,
                        task,
                        old(streams)@,
                    ),
                    WorkOutcome::Bad(f) => r matches Err(e) && e@ == f && final(self)@ == s,
                    _ => false,
                }
            }),
    {
        let h: RectHeader = self.waiting.unwrap();
        let len: usize = self.pixel_format.bytes_per_pixel();
        proof {
            lemma_rect_area(h.width, h.height, len as int);
        }
        let size: u64 = h.width as u64 * h.height as u64 * len as u64;
        match streams.zlib.feed(chunk, size, size) {
            Err(e) => Err(e),
            Ok(px) => Ok(self.finish_pixels(&px)),
        }
    }

    fn inflate_tiles(&mut self, streams: &mut Streams, chunk: &[u8]) -> (r: Result<
        VncEvent,
        VncError,
    >)
        requires
            old(self).wf(),
            old(streams).wf(),
            work_ready(old(self)@, Task::InflateTiles { chunk: chunk@ }),
        ensures
            final(self).wf(),
            final(streams).wf(),
            ({
                let s = old(self)@;
                let h = s.waiting.unwrap();
                let task = Task::InflateTiles { chunk: chunk@ };
                &&& work_leaves(s, h, task, old(streams)@, final(streams)@)
                &&& match work_outcome(s, h, task, old(streams)@) {
                    WorkOutcome::Painted(image) => r matches Ok(e) && e@ == update_event(h)
                        && final(self)@ == work_closed(s, image) && final(streams)@ == calls_after(
                        s,
                        h,
                        task,
                        old(streams)@,
                    ),
                    WorkOutcome::Bad(f) => r matches Err(e) && e@ == f && final(self)@ == s,
                    _ => false,
                }
            }),
    {
        let h: RectHeader = self.waiting.unwrap();
        if is_zlib_header(chunk) {
            streams.zrle = Some(SessionInflate::new());
        }
        match streams.zrle.take() {
            None => Err(protocol_error("ZRLE decompressor not initialized")),
            Some(session) => {
                let mut session = session;
                proof {
                    lemma_rect_area(h.width, h.height, 33);
                }
                let most: u64 = output_limit(
                    h.width as usize,
                    h.height as usize,
                    &self.pixel_format,
                );
                let fed = session.feed(chunk, 0, most);
                streams.zrle = Some(session);
                match fed {
                    Err(e) => Err(e),
                    Ok(data) => self.finish_tiles(&data),
                }
            },
        }
    }

    fn decode_tight(&mut self, streams: &mut Streams, part: TightPart, resets: u8) -> (r: Result<
        Progress,
        VncError,
    >)
        requires
            old(self).wf(),
            old(streams).wf(),
            work_ready(old(self)@, Task::DecodeTight { part: part@, resets }),
        ensures
            final(self).wf(),
            final(streams).wf(),
            ({
                let s = old(self)@;
                let h = s.waiting.unwrap();
                let task = Task::DecodeTight { part: part@, resets };
                &&& work_leaves(s, h, task, old(streams)@, final(streams)@)
                &&& match work_outcome(s, h, task, old(streams)@) {
                    WorkOutcome::Painted(image) => r matches Ok(Progress::Painted(e)) && e@
                        == update_event(h) && final(self)@ == work_closed(s, image)
                        && final(streams)@ == calls_after(s, h, task, old(streams)@),
                    WorkOutcome::Jpeg(data) => r matches Ok(Progress::Jpeg(d)) && d@ == data
                        && final(self)@ == s && final(streams)@ == calls_after(
                        s,
                        h,
                        task,
                        old(streams)@,
                    ),
                    WorkOutcome::Bad(f) => r matches Err(e) && e@ == f && final(self)@ == s,
                    _ => false,
                }
            }),
    {
        let h: RectHeader = self.waiting.unwrap();
        proof {
            lemma_rect_area(h.width, h.height, 33);
        }
        match streams.tight.decode_part(
            part,
            resets,
            h.width as usize,
            h.height as usize,
            &self.pixel_format,
        ) {
            Err(e) => Err(e),
            Ok(TightImage::Jpeg(data)) => Ok(Progress::Jpeg(data)),
            Ok(TightImage::Raster(raster)) => Ok(Progress::Painted(self.finish_raster(&raster))),
        }
    }

    fn do_work(&mut self, streams: &mut Streams, work: Work) -> (r: Result<Progress, VncError>)
        requires
            old(self).wf(),
            old(streams).wf(),
            work_ready(old(self)@, work@),
        ensures
            final(self).wf(),
            final(streams).wf(),
            ({
                let s = old(self)@;
                let h = s.waiting.unwrap();
                &&& r is Ok ==> final(streams)@ == calls_after(s, h, work@, old(streams)@)
                &&& work_leaves(s, h, work@, old(streams)@, final(streams)@)
                &&& match work_outcome(s, h, work@, old(streams)@) {
                    WorkOutcome::Painted(image) => r matches Ok(Progress::Painted(e)) && e@
                        == update_event(h) && final(self)@ == work_closed(s, image),
                    WorkOutcome::Jpeg(data) => r matches Ok(Progress::Jpeg(d)) && d@ == data
                        && final(self)@ == s,
                    WorkOutcome::Bad(f) => r matches Err(e) && e@ == f && final(self)@ == s,
                    WorkOutcome::Left => r matches Ok(Progress::Left(w)) && w@ == work@
                        && final(self)@ == s,
                }
            }),
    {
        match work {
            Work::InflatePixels { chunk } => match self.inflate_pixels(streams, &chunk) {
                Err(e) => Err(e),
                Ok(event) => Ok(Progress::Painted(event)),
            },
            Work::InflateTiles { chunk } => match self.inflate_tiles(streams, &chunk) {
                Err(e) => Err(e),
                Ok(event) => Ok(Progress::Painted(event)),
            },
            Work::DecodeTight { part, resets } => self.decode_tight(streams, part, resets),
            other => Ok(Progress::Left(other)),
        }
    }

    /// Takes one message, or one rectangle of an update, off the front of the
    /// input, and does the work of the zlib streams at once.
    #[verifier::rlimit(30)]
    pub fn advance_with(&mut self, streams: &mut Streams, input: &[u8], ends: &[usize]) -> (r:
        Result<Option<Turn>, Refusal>)
        requires
            old(self).wf(),
            old(streams).wf(),
            old(self)@.waiting is None,
        ensures
            turn_reports(
                r,
                old(self)@,
                final(self)@,
                outcome_with(old(self)@, input@, ends@, old(streams)@),
            ),
            r is Ok ==> final(streams)@ == calls_with(old(self)@, input@, ends@, old(streams)@),
            streams_left(old(self)@, input@, ends@, old(streams)@, final(streams)@),
            r is Err ==> final(self)@ == refused_with(old(self)@, input@, ends@),
            final(self).wf(),
            final(streams).wf(),
            r matches Ok(Some(t)) ==> t.used <= input@.len(),
            r matches Err(e) ==> e.used <= input@.len(),
    {
        proof {
            lemma_work_is_ready(self@, input@, ends@);
        }
        match self.advance(input, ends) {
            Err(e) => Err(e),
            Ok(None) => Ok(None),
            Ok(Some(t)) => {
                let Turn { used, events, replies, work } = t;
                let mut events = events;
                match self.do_work(streams, work) {
                    Err(error) => {
                        self.give_up();
                        Err(Refusal { error, used })
                    },
                    Ok(Progress::Left(work)) => Ok(Some(Turn { used, events, replies, work })),
                    Ok(Progress::Jpeg(data)) => Ok(
                        Some(Turn { used, events, replies, work: Work::DecodeJpeg { data } }),
                    ),
                    Ok(Progress::Painted(event)) => {
                        push_event(&mut events, event);
                        Ok(Some(Turn { used, events, replies, work: Work::Nothing }))
                    },
                }
            },
        }
    }
}

proof fn lemma_frame_area(w: u16, h: u16)
    by (nonlinear_arith)
    ensures
        0 <= w * 4 <= 0x4_0000,
        0 <= w * 4 * h <= 0x4_0000 * 0x1_0000,
        h > 0 ==> (h - 1) * (w * 4) <= w * 4 * h,
{
}

} // verus!
