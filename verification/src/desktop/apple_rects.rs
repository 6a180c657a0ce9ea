//! Apple's own rectangles.

use vstd::prelude::*;

use crate::apple_control::{
    device_of, input_source_of, layout_of, parse_apple_device_info, parse_apple_display_layout,
    parse_apple_keyboard_input_source, Layout,
};
use crate::apple_media::answer::answer_from;
use crate::apple_media::{init_of, parse_media_stream_answer, parse_media_stream_init};
use crate::apple_record_layer::{auto_framebuffer_update, build_auto_framebuffer_update};
use crate::cursor::{
    cached, decode_apple_cursor_store, select_shape, selected_shape, store_limit, stored_cursor,
    with_cursor,
};
use crate::desktop::rects::admitted;
use crate::desktop::{body_reports, Body, BodyOutcome, Desktop, Refusal, Scene, Task, Transport, Work};
use crate::error::{protocol_error, Failure, VncError};
use crate::event::{event_views, no_events, one_event, push_event, Event, VncEvent};
use crate::inflate::{inflated, inflated_upto, zlib_decompress};
use crate::messages::{
    build_update_request, check_dimensions, size_failure, size_ok, update_request, Area, RectHeader,
};
use crate::protocol::apple;
use crate::text::{concat_text, decimal, decimal_text, signed, signed_text};
use crate::wire::{push_all, slice, to_vec, u16_at, u16_of, u32_at, u32_of};

verus! {

/// Longest still image that is accepted.
pub const MAX_STILL_IMAGE_LEN: usize = 0x200_0000;

/// A body that took `used` bytes and does not count as an update.
pub open spec fn quiet_done(scene: Scene, used: int, events: Seq<Event>) -> BodyOutcome {
    BodyOutcome::Done {
        scene,
        used,
        events,
        replies: Seq::empty(),
        quiet: true,
        task: Task::Nothing,
    }
}

fn quiet_body(used: usize, events: Vec<VncEvent>) -> (r: Body)
    ensures
        r.used == used,
        event_views(r.events@) == event_views(events@),
        r.replies@ == Seq::<u8>::empty(),
        r.quiet,
        r.work@ == Task::Nothing,
{
    Body { used, events, replies: Vec::new(), quiet: true, work: Work::Nothing }
}

/// Key material for the record layer, which must be in use.
pub open spec fn rekey_body(s: Scene, b: Seq<u8>) -> BodyOutcome {
    if b.len() < 36 {
        BodyOutcome::Short
    } else if s.transport != Transport::AppleHp {
        BodyOutcome::Bad(Failure::Protocol("Apple record layer not active"@), s, 36)
    } else {
        BodyOutcome::Done {
            scene: s,
            used: 36,
            events: Seq::empty(),
            replies: Seq::empty(),
            quiet: true,
            task: Task::Rekey { body: b.take(36) },
        }
    }
}

/// Longest payload of a stored cursor.
pub open spec fn store_bound(h: RectHeader) -> int {
    h.width * h.height * 5 + 65536
}

/// A cursor to store under an id, or the id of one to show.
pub open spec fn apple_cursor_body(s: Scene, h: RectHeader, b: Seq<u8>) -> BodyOutcome {
    if b.len() < 8 {
        BodyOutcome::Short
    } else {
        let id = u32_of(b, 0);
        let n = u32_of(b, 4);
        if n == 0 {
            quiet_done(
                s,
                8,
                match cached(s.cursors, id) {
                    Some(image) => seq![Event::CursorShape(selected_shape(image, h.x, h.y))],
                    None => Seq::empty(),
                },
            )
        } else if n > store_bound(h) {
            BodyOutcome::Bad(
                Failure::Protocol(
                    "Apple cursor STORE length "@ + decimal_text(n as nat) + " exceeds bound "@
                        + decimal_text(store_bound(h) as nat) + " for "@ + decimal_text(
                        h.width as nat,
                    ) + "x"@ + decimal_text(h.height as nat) + " cursor"@,
                ),
                s,
                8,
            )
        } else if b.len() < 8 + n {
            BodyOutcome::Short
        } else {
            match stored_cursor(
                h.width,
                h.height,
                inflated_upto(b.subrange(8, 8 + n), store_limit(h.width, h.height)),
            ) {
                Err(f) => BodyOutcome::Bad(f, s, 8 + n),
                Ok(image) => quiet_done(
                    Scene { cursors: with_cursor(s.cursors, id, image), ..s },
                    8 + n,
                    Seq::empty(),
                ),
            }
        }
    }
}

/// What re-arms the server's framebuffer sender: free-running updates, and a
/// request for the whole desktop.
pub open spec fn rearm(width: u16, height: u16) -> Seq<u8> {
    auto_framebuffer_update(apple::SELECTED_SCREEN_ALL, 0, 0, width, height) + update_request(
        false,
        Area { x: 0, y: 0, width, height },
    )
}

/// The scene with the size in points that a layout gives.
pub open spec fn layout_scaled(s: Scene, l: Layout) -> Scene {
    Scene {
        scaled_size: if l.scaled_width > 0 && l.scaled_height > 0 {
            Some((l.scaled_width, l.scaled_height))
        } else {
            s.scaled_size
        },
        ..s
    }
}

/// What a display layout makes of a scene, and what it reports.
pub open spec fn layout_applied(s: Scene, l: Layout) -> (Scene, Seq<Event>) {
    let scaled = layout_scaled(s, l);
    let sized = l.backing_width > 0 && l.backing_height > 0;
    let first = if sized {
        seq![Event::GeometryChanged { width: l.backing_width, height: l.backing_height }]
    } else {
        Seq::empty()
    };
    (
        if sized {
            scaled.with_size(l.backing_width, l.backing_height)
        } else {
            scaled
        },
        if l.screens.len() > 0 {
            first.push(Event::ScreenLayout(l.screens))
        } else {
            first
        },
    )
}

/// A display layout. Whatever it says, the server's sender is armed again.
pub open spec fn layout_body(s: Scene, b: Seq<u8>) -> BodyOutcome {
    if b.len() < 2 || b.len() < 2 + u16_of(b, 0) {
        BodyOutcome::Short
    } else {
        let used = 2 + u16_of(b, 0) as int;
        match layout_of(b.subrange(2, used)) {
            None => BodyOutcome::Done {
                scene: s,
                used,
                events: Seq::empty(),
                replies: rearm(s.width, s.height),
                quiet: true,
                task: Task::Nothing,
            },
            Some(l) => if l.backing_width > 0 && l.backing_height > 0 && !size_ok(
                l.backing_width as u32,
                l.backing_height as u32,
            ) {
                BodyOutcome::Bad(
                    size_failure(l.backing_width as u32, l.backing_height as u32),
                    layout_scaled(s, l),
                    used,
                )
            } else {
                let (scene, events) = layout_applied(s, l);
                BodyOutcome::Done {
                    scene,
                    used,
                    events,
                    replies: rearm(scene.width, scene.height),
                    quiet: true,
                    task: Task::Nothing,
                }
            },
        }
    }
}

/// A payload behind its 16-bit length, which is skipped.
pub open spec fn skipped_body(s: Scene, b: Seq<u8>) -> BodyOutcome {
    if b.len() < 2 || b.len() < 2 + u16_of(b, 0) {
        BodyOutcome::Short
    } else {
        quiet_done(s, 2 + u16_of(b, 0), Seq::empty())
    }
}

/// A keyboard input source.
pub open spec fn input_source_body(s: Scene, b: Seq<u8>) -> BodyOutcome {
    if b.len() < 2 {
        BodyOutcome::Short
    } else {
        let n = u16_of(b, 0);
        if n < 8 {
            BodyOutcome::Bad(
                Failure::Protocol(
                    "Apple keyboard input source prefix length too small: "@ + decimal_text(
                        n as nat,
                    ),
                ),
                s,
                2,
            )
        } else if b.len() < 2 + n {
            BodyOutcome::Short
        } else {
            match input_source_of(b.subrange(2, 2 + n)) {
                None => BodyOutcome::Bad(
                    Failure::Protocol("Apple keyboard input source payload malformed"@),
                    s,
                    2 + n,
                ),
                Some(info) => quiet_done(
                    s,
                    2 + n,
                    seq![
                        Event::KeyboardInputSource {
                            input_source_id: info.input_source_id,
                            secure_event_input: info.secure_event_input,
                        },
                    ],
                ),
            }
        }
    }
}

/// Device information.
pub open spec fn device_body(s: Scene, b: Seq<u8>) -> BodyOutcome {
    if b.len() < 2 {
        BodyOutcome::Short
    } else {
        let n = u16_of(b, 0);
        if n < 16 {
            BodyOutcome::Bad(Failure::Protocol("Apple device info message size too small"@), s, 2)
        } else if b.len() < 2 + n {
            BodyOutcome::Short
        } else {
            match device_of(b.subrange(2, 2 + n)) {
                None => BodyOutcome::Bad(
                    Failure::Protocol("Apple device info payload malformed"@),
                    s,
                    2 + n,
                ),
                Some(d) => quiet_done(
                    s,
                    2 + n,
                    seq![
                        Event::DeviceInfo {
                            device_identifier: d.device_identifier,
                            device_color: d.device_color,
                            enclosure_color: d.enclosure_color,
                            enclosure_rgb_color: d.enclosure_rgb_color,
                            housing_color: d.housing_color,
                        },
                    ],
                ),
            }
        }
    }
}

/// What a media announcement, length included, reports: an init, else an
/// answer, else nothing.
pub open spec fn media_events(prefixed: Seq<u8>) -> Seq<Event> {
    match init_of(prefixed) {
        Some(init) => seq![Event::MediaStreamInit(init)],
        None => match answer_from(prefixed, 0) {
            Some(answer) => seq![Event::MediaStreamAnswer(answer)],
            None => Seq::empty(),
        },
    }
}

/// A media announcement.
pub open spec fn media_body(s: Scene, b: Seq<u8>) -> BodyOutcome {
    if b.len() < 2 || b.len() < 2 + u16_of(b, 0) {
        BodyOutcome::Short
    } else {
        let used = 2 + u16_of(b, 0) as int;
        quiet_done(s, used, media_events(b.take(used)))
    }
}

/// The first end of a record at or behind position `at`.
pub open spec fn record_end(ends: Seq<usize>, at: int, from: int) -> Option<usize>
    decreases ends.len() - from,
{
    if from < 0 || from >= ends.len() {
        None
    } else if ends[from] >= at {
        Some(ends[from])
    } else {
        record_end(ends, at, from + 1)
    }
}

/// A media answer that takes the rest of its record, compressed or not.
pub open spec fn record_body(s: Scene, b: Seq<u8>, ends: Seq<usize>) -> BodyOutcome {
    if s.transport != Transport::AppleHp {
        BodyOutcome::Bad(
            Failure::Protocol("read_remaining_record only available for Apple HP record layer"@),
            s,
            0,
        )
    } else {
        match record_end(ends, 12, 0) {
            None => BodyOutcome::Short,
            Some(end) => if end - 12 > b.len() {
                BodyOutcome::Short
            } else {
                let body = b.take(end - 12);
                let plain = match inflated(body) {
                    Some(p) => p,
                    None => body,
                };
                quiet_done(
                    s,
                    end - 12,
                    match answer_from(plain, 0) {
                        Some(answer) => seq![Event::MediaStreamAnswer(answer)],
                        None => Seq::empty(),
                    },
                )
            },
        }
    }
}

/// A still image, which is skipped.
pub open spec fn still_body(s: Scene, b: Seq<u8>) -> BodyOutcome {
    if b.len() < 4 {
        BodyOutcome::Short
    } else if u32_of(b, 0) > MAX_STILL_IMAGE_LEN {
        BodyOutcome::Bad(
            Failure::Protocol(
                "Apple still-image payload length "@ + decimal_text(u32_of(b, 0) as nat)
                    + " exceeds limit"@,
            ),
            s,
            4,
        )
    } else if b.len() < 4 + u32_of(b, 0) {
        BodyOutcome::Short
    } else {
        quiet_done(s, 4 + u32_of(b, 0), Seq::empty())
    }
}

/// What the body of one of Apple's rectangles means.
pub open spec fn apple_body(
    s: Scene,
    h: RectHeader,
    value: i32,
    b: Seq<u8>,
    ends: Seq<usize>,
) -> BodyOutcome {
    if value == apple::ENC_REKEY {
        rekey_body(s, b)
    } else if value == apple::ENC_CURSOR {
        apple_cursor_body(s, h, b)
    } else if value == apple::ENC_DISPLAY_LAYOUT {
        layout_body(s, b)
    } else if value == apple::ENC_VENDOR_KEYSYMS {
        skipped_body(s, b)
    } else if value == apple::ENC_KEYBOARD_INPUT_SOURCE {
        input_source_body(s, b)
    } else if value == apple::ENC_DEVICE_INFO {
        device_body(s, b)
    } else if value == apple::ENC_MEDIA_STREAM || value == apple::ENC_HIGH_QUALITY || value
        == apple::ENC_MULTI_VARIANT_SCALED {
        media_body(s, b)
    } else if value == 0x1c {
        record_body(s, b, ends)
    } else if value == apple::ENC_LOW_QUALITY || value == apple::ENC_MEDIUM_QUALITY {
        still_body(s, b)
    } else {
        BodyOutcome::Bad(
            Failure::Protocol("Unsupported encoding: "@ + signed_text(value as int)),
            s,
            0,
        )
    }
}

fn build_rearm(width: u16, height: u16) -> (r: Vec<u8>)
    ensures
        r@ == rearm(width, height),
{
    let mut out = build_auto_framebuffer_update(apple::SELECTED_SCREEN_ALL, 0, 0, width, height);
    push_all(&mut out, &build_update_request(false, Area { x: 0, y: 0, width, height }));
    out
}

fn find_record_end(ends: &[usize], at: usize) -> (r: Option<usize>)
    ensures
        r == record_end(ends@, at as int, 0),
        r matches Some(end) ==> end >= at,
{
    let n: usize = ends.len();
    let mut i: usize = 0;
    while i < n
        invariant
            n == ends@.len(),
            i <= n,
            record_end(ends@, at as int, 0) == record_end(ends@, at as int, i as int),
        decreases n - i,
    {
        if ends[i] >= at {
            return Some(ends[i]);
        }
        i = i + 1;
    }
    None
}

impl Desktop {
    fn handle_rekey(&self, b: &[u8]) -> (r: Result<Option<Body>, Refusal>)
        ensures
            body_reports(r, self@, self@, rekey_body(self@, b@)),
            r matches Ok(Some(body)) ==> body.used <= b@.len(),
            r matches Err(e) ==> e.used <= b@.len(),
    {
        if b.len() < 36 {
            return Ok(None);
        }
        if self.transport != Transport::AppleHp {
            let error = protocol_error("Apple record layer not active");
            return Err(Refusal { error, used: 36 });
        }
        let body = to_vec(slice(b, 0, 36));
        assert(body@ =~= b@.take(36));
        Ok(
            Some(
                Body {
                    used: 36,
                    events: no_events(),
                    replies: Vec::new(),
                    quiet: true,
                    work: Work::Rekey { body },
                },
            ),
        )
    }

    /// Emit a `CursorShape` event for a SELECT-style Apple cursor rectangle.
    pub fn handle_apple_cursor_select(&self, x: u16, y: u16, cache_id: u32) -> (r: Vec<VncEvent>)
        ensures
            event_views(r@) == match cached(self@.cursors, cache_id) {
                Some(image) => seq![Event::CursorShape(selected_shape(image, x, y))],
                None => Seq::empty(),
            },
    {
        match self.cursors.get(cache_id) {
            Some(cursor) => one_event(VncEvent::CursorShape(select_shape(cursor, x, y))),
            None => no_events(),
        }
    }

    /// Handle the Apple cursor image pseudo-encoding: a cursor to store under an
    /// id, or the id of one to show.
    fn handle_apple_cursor_encoding(&mut self, h: &RectHeader, b: &[u8]) -> (r: Result<
        Option<Body>,
        Refusal,
    >)
        requires
            old(self).wf(),
            admitted(*h),
        ensures
            body_reports(r, old(self)@, final(self)@, apple_cursor_body(old(self)@, *h, b@)),
            final(self).wf(),
            final(self).pending == old(self).pending,
            r matches Ok(Some(body)) ==> body.used <= b@.len(),
            r matches Err(e) ==> e.used <= b@.len(),
    {
        if b.len() < 8 {
            return Ok(None);
        }
        let id: u32 = u32_at(b, 0);
        let n: u32 = u32_at(b, 4);
        if n == 0 {
            return Ok(Some(quiet_body(8, self.handle_apple_cursor_select(h.x, h.y, id))));
        }
        assert(0 <= h.width * h.height <= 0x1000_0000) by (nonlinear_arith)
            requires
                0 <= h.width <= 16384,
                0 <= h.height <= 16384,
        ;
        assert(b@.len() == b.len());
        let bound: u64 = h.width as u64 * h.height as u64 * 5 + 65536;
        if n as u64 > bound {
            let t = concat_text("Apple cursor STORE length ", decimal(n as u64).as_str());
            let t = concat_text(t.as_str(), " exceeds bound ");
            let t = concat_text(t.as_str(), decimal(bound).as_str());
            let t = concat_text(t.as_str(), " for ");
            let t = concat_text(t.as_str(), decimal(h.width as u64).as_str());
            let t = concat_text(t.as_str(), "x");
            let t = concat_text(t.as_str(), decimal(h.height as u64).as_str());
            let error = VncError::Protocol(concat_text(t.as_str(), " cursor"));
            return Err(Refusal { error, used: 8 });
        }
        if ((b.len() - 8) as u64) < n as u64 {
            return Ok(None);
        }
        let end: usize = 8 + n as usize;
        match decode_apple_cursor_store(h.width, h.height, slice(b, 8, end)) {
            Err(error) => Err(Refusal { error, used: end }),
            Ok(cursor) => {
                self.cursors.insert(id, cursor);
                Ok(Some(quiet_body(end, no_events())))
            },
        }
    }

    fn apply_layout(
        &mut self,
        backing_width: u16,
        backing_height: u16,
        screens: Vec<crate::messages::Screen>,
    ) -> (r: Vec<VncEvent>)
        requires
            old(self).wf(),
            backing_width > 0 && backing_height > 0 ==> size_ok(
                backing_width as u32,
                backing_height as u32,
            ),
        ensures
            (final(self)@, event_views(r@)) == layout_applied(
                old(self)@,
                Layout {
                    scaled_width: 0,
                    scaled_height: 0,
                    backing_width,
                    backing_height,
                    screens: screens@,
                },
            ),
            final(self).wf(),
            final(self).pending == old(self).pending,
    {
        let mut events = no_events();
        if backing_width > 0 && backing_height > 0 {
            self.resize(backing_width, backing_height);
            push_event(
                &mut events,
                VncEvent::GeometryChanged { width: backing_width, height: backing_height },
            );
            assert(event_views(events@) =~= seq![
                Event::GeometryChanged { width: backing_width, height: backing_height },
            ]);
        }
        if screens.len() > 0 {
            push_event(&mut events, VncEvent::ScreenLayout(screens));
        }
        events
    }

    /// Handle the Apple display layout pseudo-encoding: resize the local
    /// framebuffer to the backing dimensions and report the screens. After
    /// every layout the server's framebuffer sender is armed again, so that
    /// cursor updates keep flowing across login and lock transitions.
    fn handle_apple_display_layout(&mut self, b: &[u8]) -> (r: Result<Option<Body>, Refusal>)
        requires
            old(self).wf(),
        ensures
            body_reports(r, old(self)@, final(self)@, layout_body(old(self)@, b@)),
            final(self).wf(),
            final(self).pending == old(self).pending,
            r matches Ok(Some(body)) ==> body.used <= b@.len(),
            r matches Err(e) ==> e.used <= b@.len(),
    {
        if b.len() < 2 {
            return Ok(None);
        }
        let used: usize = 2 + u16_at(b, 0) as usize;
        if b.len() < used {
            return Ok(None);
        }
        let events = match parse_apple_display_layout(slice(b, 2, used)) {
            None => no_events(),
            Some((sw, sh, bw, bh, screens)) => {
                if sw > 0 && sh > 0 {
                    self.scaled_size = Some((sw, sh));
                }
                if bw > 0 && bh > 0 {
                    if let Err(error) = check_dimensions(bw as u32, bh as u32) {
                        return Err(Refusal { error, used });
                    }
                }
                self.apply_layout(bw, bh, screens)
            },
        };
        let replies = build_rearm(self.width, self.height);
        Ok(Some(Body { used, events, replies, quiet: true, work: Work::Nothing }))
    }

    fn handle_skipped(&self, b: &[u8]) -> (r: Result<Option<Body>, Refusal>)
        ensures
            body_reports(r, self@, self@, skipped_body(self@, b@)),
            r matches Ok(Some(body)) ==> body.used <= b@.len(),
            r matches Err(e) ==> e.used <= b@.len(),
    {
        if b.len() < 2 {
            return Ok(None);
        }
        let used: usize = 2 + u16_at(b, 0) as usize;
        if b.len() < used {
            return Ok(None);
        }
        Ok(Some(quiet_body(used, no_events())))
    }

    /// Handle the Apple keyboard input source pseudo-encoding.
    fn handle_apple_keyboard_input_source(&self, b: &[u8]) -> (r: Result<Option<Body>, Refusal>)
        ensures
            body_reports(r, self@, self@, input_source_body(self@, b@)),
            r matches Ok(Some(body)) ==> body.used <= b@.len(),
            r matches Err(e) ==> e.used <= b@.len(),
    {
        if b.len() < 2 {
            return Ok(None);
        }
        let n: u16 = u16_at(b, 0);
        if n < 8 {
            let error = VncError::Protocol(
                concat_text(
                    "Apple keyboard input source prefix length too small: ",
                    decimal(n as u64).as_str(),
                ),
            );
            return Err(Refusal { error, used: 2 });
        }
        let used: usize = 2 + n as usize;
        if b.len() < used {
            return Ok(None);
        }
        match parse_apple_keyboard_input_source(slice(b, 2, used)) {
            None => {
                let error = protocol_error("Apple keyboard input source payload malformed");
                Err(Refusal { error, used })
            },
            Some(info) => {
                let events = one_event(
                    VncEvent::KeyboardInputSource {
                        input_source_id: info.input_source_id,
                        secure_event_input: info.secure_event_input,
                    },
                );
                Ok(Some(quiet_body(used, events)))
            },
        }
    }

    /// Handle the Apple device information pseudo-encoding. The length covers
    /// the fixed header and the texts behind it, not the length field itself.
    pub fn handle_apple_device_info(&self, b: &[u8]) -> (r: Result<Option<Body>, Refusal>)
        ensures
            body_reports(r, self@, self@, device_body(self@, b@)),
            r matches Ok(Some(body)) ==> body.used <= b@.len(),
            r matches Err(e) ==> e.used <= b@.len(),
    {
        if b.len() < 2 {
            return Ok(None);
        }
        let n: u16 = u16_at(b, 0);
        if n < 16 {
            let error = protocol_error("Apple device info message size too small");
            return Err(Refusal { error, used: 2 });
        }
        let used: usize = 2 + n as usize;
        if b.len() < used {
            return Ok(None);
        }
        match parse_apple_device_info(slice(b, 2, used)) {
            None => {
                let error = protocol_error("Apple device info payload malformed");
                Err(Refusal { error, used })
            },
            Some(info) => {
                let events = one_event(
                    VncEvent::DeviceInfo {
                        device_identifier: info.device_identifier,
                        device_color: info.device_color,
                        enclosure_color: info.enclosure_color,
                        enclosure_rgb_color: info.enclosure_rgb_color,
                        housing_color: info.housing_color,
                    },
                );
                Ok(Some(quiet_body(used, events)))
            },
        }
    }

    fn handle_media_announcement(&self, b: &[u8]) -> (r: Result<Option<Body>, Refusal>)
        ensures
            body_reports(r, self@, self@, media_body(self@, b@)),
            r matches Ok(Some(body)) ==> body.used <= b@.len(),
            r matches Err(e) ==> e.used <= b@.len(),
    {
        if b.len() < 2 {
            return Ok(None);
        }
        let used: usize = 2 + u16_at(b, 0) as usize;
        if b.len() < used {
            return Ok(None);
        }
        let prefixed = slice(b, 0, used);
        assert(prefixed@ =~= b@.take(used as int));
        let events = match parse_media_stream_init(prefixed) {
            Some(init) => one_event(VncEvent::MediaStreamInit(init)),
            None => match parse_media_stream_answer(prefixed) {
                Some(answer) => one_event(VncEvent::MediaStreamAnswer(answer)),
                None => no_events(),
            },
        };
        Ok(Some(quiet_body(used, events)))
    }

    fn handle_record_answer(&self, b: &[u8], ends: &[usize]) -> (r: Result<Option<Body>, Refusal>)
        ensures
            body_reports(r, self@, self@, record_body(self@, b@, ends@)),
            r matches Ok(Some(body)) ==> body.used <= b@.len(),
            r matches Err(e) ==> e.used <= b@.len(),
    {
        if self.transport != Transport::AppleHp {
            let error = protocol_error(
                "read_remaining_record only available for Apple HP record layer",
            );
            return Err(Refusal { error, used: 0 });
        }
        let used: usize = match find_record_end(ends, 12) {
            None => {
                return Ok(None);
            },
            Some(end) => end - 12,
        };
        if b.len() < used {
            return Ok(None);
        }
        let body = slice(b, 0, used);
        assert(body@ =~= b@.take(used as int));
        let answer = match zlib_decompress(body) {
            Some(plain) => parse_media_stream_answer(&plain),
            None => parse_media_stream_answer(body),
        };
        let events = match answer {
            Some(answer) => one_event(VncEvent::MediaStreamAnswer(answer)),
            None => no_events(),
        };
        Ok(Some(quiet_body(used, events)))
    }

    fn handle_still_image(&self, b: &[u8]) -> (r: Result<Option<Body>, Refusal>)
        ensures
            body_reports(r, self@, self@, still_body(self@, b@)),
            r matches Ok(Some(body)) ==> body.used <= b@.len(),
            r matches Err(e) ==> e.used <= b@.len(),
    {
        if b.len() < 4 {
            return Ok(None);
        }
        let n: u32 = u32_at(b, 0);
        if n as usize > MAX_STILL_IMAGE_LEN {
            let t = concat_text("Apple still-image payload length ", decimal(n as u64).as_str());
            let error = VncError::Protocol(concat_text(t.as_str(), " exceeds limit"));
            return Err(Refusal { error, used: 4 });
        }
        if b.len() - 4 < n as usize {
            return Ok(None);
        }
        Ok(Some(quiet_body(4 + n as usize, no_events())))
    }

    /// Reads the body of one of Apple's rectangles. `None` asks for more bytes.
    pub fn handle_apple(&mut self, h: &RectHeader, value: i32, b: &[u8], ends: &[usize]) -> (r:
        Result<Option<Body>, Refusal>)
        requires
            old(self).wf(),
            admitted(*h),
        ensures
            body_reports(r, old(self)@, final(self)@, apple_body(old(self)@, *h, value, b@, ends@)),
            final(self).wf(),
            final(self).pending == old(self).pending,
            r matches Ok(Some(body)) ==> body.used <= b@.len(),
            r matches Err(e) ==> e.used <= b@.len(),
    {
        if value == apple::ENC_REKEY {
            self.handle_rekey(b)
        } else if value == apple::ENC_CURSOR {
            self.handle_apple_cursor_encoding(h, b)
        } else if value == apple::ENC_DISPLAY_LAYOUT {
            self.handle_apple_display_layout(b)
        } else if value == apple::ENC_VENDOR_KEYSYMS {
            self.handle_skipped(b)
        } else if value == apple::ENC_KEYBOARD_INPUT_SOURCE {
            self.handle_apple_keyboard_input_source(b)
        } else if value == apple::ENC_DEVICE_INFO {
            self.handle_apple_device_info(b)
        } else if value == apple::ENC_MEDIA_STREAM || value == apple::ENC_HIGH_QUALITY || value
            == apple::ENC_MULTI_VARIANT_SCALED {
            self.handle_media_announcement(b)
        } else if value == 0x1c {
            self.handle_record_answer(b, ends)
        } else if value == apple::ENC_LOW_QUALITY || value == apple::ENC_MEDIUM_QUALITY {
            self.handle_still_image(b)
        } else {
            let error = VncError::Protocol(
                concat_text("Unsupported encoding: ", signed(value as i64).as_str()),
            );
            Err(Refusal { error, used: 0 })
        }
    }
}

} // verus!
