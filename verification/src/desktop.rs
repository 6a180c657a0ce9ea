//! The remote desktop as the client knows it, and how the server's messages
//! change it.
//!
//! Nothing here reads from a connection. The caller hands over the bytes that
//! have arrived, in order; [`Desktop::advance`] takes one message or one
//! rectangle off their front, or asks for more.

pub mod apple_rects;
pub mod arrival;
pub mod inflated;
pub mod invariants;
pub mod pictures;
pub mod received;
pub mod rects;
pub mod server;

use vstd::prelude::*;

use crate::cursor::{CursorCache, CursorImage};
use crate::error::{Failure, VncError};
use crate::event::{event_views, push_event, Event, VncEvent};
use crate::framebuffer::{Framebuffer, Image};
use crate::hextile::HextileState;
use crate::messages::{check_dimensions, size_failure, size_ok, RectHeader, MAX_DIMENSION, RECT_HEADER_LEN};
use crate::pixel_format::PixelFormat;
use crate::stats::{most_common, most_common_encoding, ConnectionStatsTracker};
use crate::tight::{PartView, TightPart};
use crate::wire::slice;

verus! {

/// How the client talks to the server.
#[derive(Debug, Clone, Copy, PartialEq, Eq, Structural)]
pub enum Transport {
    Disconnected,
    Plain,
    Tls,
    Aes,
    WebSocket,
    /// Apple's encrypted record layer.
    AppleHp,
}

/// The remote desktop.
pub struct Desktop {
    pub framebuffer: Framebuffer,
    pub pixel_format: PixelFormat,
    pub name: String,
    pub width: u16,
    pub height: u16,
    pub transport: Transport,
    pub hextile: HextileState,
    pub stats: ConnectionStatsTracker,
    /// The last message type that was understood.
    pub last_msg_type: Option<u8>,
    /// The encoding of the last rectangle.
    pub last_encoding: Option<i32>,
    /// The encodings of the current or last update.
    pub recent_encodings: Vec<i32>,
    /// Rectangles of the current update that are still to come.
    pub pending: u16,
    /// The rectangle that waits for work done elsewhere.
    pub waiting: Option<RectHeader>,
    pub cursors: CursorCache,
    /// The desktop's size in points, where the server gave one.
    pub scaled_size: Option<(u16, u16)>,
}

/// What a [`Desktop`] holds.
pub struct Scene {
    pub image: Image,
    pub format: PixelFormat,
    pub name: Seq<char>,
    pub width: u16,
    pub height: u16,
    pub transport: Transport,
    pub hextile: HextileState,
    pub stats: ConnectionStatsTracker,
    pub last_msg_type: Option<u8>,
    pub last_encoding: Option<i32>,
    pub recent: Seq<i32>,
    pub pending: u16,
    pub waiting: Option<RectHeader>,
    pub cursors: Map<u64, CursorImage>,
    pub scaled_size: Option<(u16, u16)>,
}

impl View for Desktop {
    type V = Scene;

    open spec fn view(&self) -> Scene {
        Scene {
            image: self.framebuffer@,
            format: self.pixel_format,
            name: self.name@,
            width: self.width,
            height: self.height,
            transport: self.transport,
            hextile: self.hextile,
            stats: self.stats,
            last_msg_type: self.last_msg_type,
            last_encoding: self.last_encoding,
            recent: self.recent_encodings@,
            pending: self.pending,
            waiting: self.waiting,
            cursors: self.cursors@,
            scaled_size: self.scaled_size,
        }
    }
}

/// Work that is left to the caller.
pub enum Work {
    /// None.
    Nothing,
    /// Decode an H.264 access unit, and report with [`Desktop::finish_decoded`].
    DecodeH264 { data: Vec<u8> },
    /// Feed a chunk to the zlib stream of the session, and report with
    /// [`Desktop::finish_pixels`].
    InflatePixels { chunk: Vec<u8> },
    /// Feed a chunk to the ZRLE stream of the session, and report with
    /// [`Desktop::finish_tiles`].
    InflateTiles { chunk: Vec<u8> },
    /// Decode the body of a Tight rectangle with the Tight streams of the
    /// session, and report with [`Desktop::finish_raster`].
    DecodeTight { part: TightPart, resets: u8 },
    /// Decode a JPEG image, and report with [`Desktop::finish_decoded`].
    DecodeJpeg { data: Vec<u8> },
    /// Rekey the record layer.
    Rekey { body: Vec<u8> },
}

/// What a [`Work`] asks for.
pub enum Task {
    Nothing,
    DecodeH264 { data: Seq<u8> },
    InflatePixels { chunk: Seq<u8> },
    InflateTiles { chunk: Seq<u8> },
    DecodeTight { part: PartView, resets: u8 },
    DecodeJpeg { data: Seq<u8> },
    Rekey { body: Seq<u8> },
}

impl View for Work {
    type V = Task;

    open spec fn view(&self) -> Task {
        match self {
            Work::Nothing => Task::Nothing,
            Work::DecodeH264 { data } => Task::DecodeH264 { data: data@ },
            Work::InflatePixels { chunk } => Task::InflatePixels { chunk: chunk@ },
            Work::InflateTiles { chunk } => Task::InflateTiles { chunk: chunk@ },
            Work::DecodeTight { part, resets } => Task::DecodeTight {
                part: part@,
                resets: *resets,
            },
            Work::DecodeJpeg { data } => Task::DecodeJpeg { data: data@ },
            Work::Rekey { body } => Task::Rekey { body: body@ },
        }
    }
}

impl Task {
    /// Whether a rectangle is only complete once the work is done.
    pub open spec fn defers(self) -> bool {
        !(self is Nothing || self is Rekey)
    }
}

/// What came off the front of the input.
pub struct Turn {
    /// How many bytes it took.
    pub used: usize,
    pub events: Vec<VncEvent>,
    /// Bytes to send to the server.
    pub replies: Vec<u8>,
    pub work: Work,
}

/// Why the front of the input is refused.
#[derive(Debug, Clone, PartialEq, Eq)]
pub struct Refusal {
    pub error: VncError,
    /// How many bytes were read until then. What follows them is read as a new
    /// message.
    pub used: usize,
}

/// What the front of the input means.
pub enum Outcome {
    /// More bytes are needed.
    Short,
    /// The server broke the protocol, in this many bytes.
    Bad(Failure, int),
    /// The desktop changes, and this is reported.
    Done { scene: Scene, used: int, events: Seq<Event>, replies: Seq<u8>, task: Task },
}

/// Whether a result reports an outcome. A desktop that asks for more is
/// unchanged.
pub open spec fn turn_reports(
    r: Result<Option<Turn>, Refusal>,
    before: Scene,
    after: Scene,
    o: Outcome,
) -> bool {
    match o {
        Outcome::Short => r matches Ok(None) && after == before,
        Outcome::Bad(f, used) => r matches Err(e) && e.error@ == f && e.used == used,
        Outcome::Done { scene, used, events, replies, task } => r matches Ok(Some(t)) && t.used
            == used && event_views(t.events@) == events && t.replies@ == replies && t.work@ == task
            && after == scene,
    }
}

/// What the body of a rectangle means.
pub enum BodyOutcome {
    Short,
    /// The server broke the protocol; this is what it leaves, and how many bytes
    /// were read until then.
    Bad(Failure, Scene, int),
    /// `quiet` rectangles do not count as an update of the framebuffer.
    Done {
        scene: Scene,
        used: int,
        events: Seq<Event>,
        replies: Seq<u8>,
        quiet: bool,
        task: Task,
    },
}

/// What the body of a rectangle came to.
pub struct Body {
    pub used: usize,
    pub events: Vec<VncEvent>,
    pub replies: Vec<u8>,
    pub quiet: bool,
    pub work: Work,
}

/// Whether a result reports what the body of a rectangle means.
pub open spec fn body_reports(
    r: Result<Option<Body>, Refusal>,
    before: Scene,
    after: Scene,
    o: BodyOutcome,
) -> bool {
    match o {
        BodyOutcome::Short => r matches Ok(None) && after == before,
        BodyOutcome::Bad(f, scene, used) => r matches Err(e) && e.error@ == f && e.used == used
            && after == scene,
        BodyOutcome::Done { scene, used, events, replies, quiet, task } => r matches Ok(Some(b))
            && b.used == used && event_views(b.events@) == events && b.replies@ == replies
            && b.quiet == quiet && b.work@ == task && after == scene,
    }
}

/// The event that reports an updated rectangle.
pub open spec fn update_event(h: RectHeader) -> Event {
    Event::FramebufferUpdate { x: h.x, y: h.y, width: h.width, height: h.height }
}

impl Scene {
    /// The scene once one more rectangle of the update is complete. With the
    /// last one, the update counts as a frame.
    pub open spec fn rect_closed(self) -> Scene {
        if self.pending == 1 {
            Scene {
                pending: 0,
                waiting: None,
                stats: self.stats.after_frame(most_common(self.recent)),
                ..self
            }
        } else {
            Scene { pending: (self.pending - 1) as u16, waiting: None, ..self }
        }
    }

    /// The scene before anything has come. Its clock starts at `now`.
    pub open spec fn blank(format: PixelFormat, now: u64) -> Scene {
        Scene {
            image: Image {
                width: 0,
                height: 0,
                data: Seq::empty(),
                transform: crate::framebuffer::Transform::Identity,
            },
            format,
            name: Seq::empty(),
            width: 0,
            height: 0,
            transport: Transport::Disconnected,
            hextile: HextileState { background: 0xff, foreground: 0xff },
            stats: ConnectionStatsTracker {
                last_sample: now,
                frame_count: 0,
                last_bytes_read: 0,
                last_bytes_written: 0,
                last_encoding: (-1) as i32,
            },
            last_msg_type: None,
            last_encoding: None,
            recent: Seq::empty(),
            pending: 0,
            waiting: None,
            cursors: Map::empty(),
            scaled_size: None,
        }
    }

    /// The scene at another size.
    pub open spec fn with_size(self, width: u16, height: u16) -> Scene {
        Scene {
            width,
            height,
            image: self.image.with_size(width as nat, height as nat),
            ..self
        }
    }

    /// The scene with the rectangle's encoding on record.
    pub open spec fn rect_opened(self, h: RectHeader) -> Scene {
        Scene {
            last_encoding: Some(h.encoding),
            recent: self.recent.push(h.encoding),
            ..self
        }
    }
}

/// What the next rectangle of an update means. `ends` are the positions in the
/// input at which records of the record layer end.
pub open spec fn rect_outcome(s: Scene, input: Seq<u8>, ends: Seq<usize>) -> Outcome {
    if input.len() < RECT_HEADER_LEN {
        Outcome::Short
    } else {
        let h = RectHeader::read(input);
        if !size_ok(h.width as u32, h.height as u32) {
            Outcome::Bad(size_failure(h.width as u32, h.height as u32), RECT_HEADER_LEN as int)
        } else {
            match rects::body_outcome(s.rect_opened(h), h, input.skip(RECT_HEADER_LEN as int), ends) {
                BodyOutcome::Short => Outcome::Short,
                BodyOutcome::Bad(f, _, used) => Outcome::Bad(f, used + RECT_HEADER_LEN),
                BodyOutcome::Done { scene, used, events, replies, quiet, task } => if task.defers() {
                    Outcome::Done {
                        scene: Scene { waiting: Some(h), ..scene },
                        used: used + RECT_HEADER_LEN,
                        events,
                        replies,
                        task,
                    }
                } else {
                    Outcome::Done {
                        scene: scene.rect_closed(),
                        used: used + RECT_HEADER_LEN,
                        events: if quiet {
                            events
                        } else {
                            events.push(update_event(h))
                        },
                        replies,
                        task,
                    }
                },
            }
        }
    }
}

impl Scene {
    /// The scene once an update is given up: what comes next is a new message.
    pub open spec fn given_up(self) -> Scene {
        Scene { pending: 0, waiting: None, ..self }
    }
}

/// The desktop once the front of the input is refused. The encoding of a
/// refused rectangle stays on record, and the rest of its update is given up.
pub open spec fn refused(s: Scene, input: Seq<u8>, ends: Seq<usize>) -> Scene {
    if s.pending > 0 {
        let h = RectHeader::read(input);
        let opened = s.rect_opened(h);
        if !size_ok(h.width as u32, h.height as u32) {
            opened.given_up()
        } else {
            match rects::body_outcome(opened, h, input.skip(RECT_HEADER_LEN as int), ends) {
                BodyOutcome::Bad(_, scene, _) => scene.given_up(),
                _ => opened.given_up(),
            }
        }
    } else {
        server::message_refused(s, input)
    }
}

/// What the front of the input means: a rectangle inside an update, otherwise
/// the start of a message.
pub open spec fn outcome(s: Scene, input: Seq<u8>, ends: Seq<usize>) -> Outcome {
    if s.pending > 0 {
        rect_outcome(s, input, ends)
    } else {
        server::message_outcome(s, input)
    }
}

impl Desktop {
    /// Whether the sizes are within the limits.
    pub open spec fn wf(&self) -> bool {
        &&& self.framebuffer.width <= MAX_DIMENSION
        &&& self.framebuffer.height <= MAX_DIMENSION
    }

    /// A desktop of no size.
    pub fn new(format: PixelFormat, now: u64) -> (r: Desktop)
        ensures
            r.wf(),
            r@ == Scene::blank(format, now),
    {
        let framebuffer = Framebuffer::new(0, 0);
        assert(framebuffer@.data =~= Seq::<u8>::empty());
        Desktop {
            framebuffer,
            pixel_format: format,
            name: String::new(),
            width: 0,
            height: 0,
            transport: Transport::Disconnected,
            hextile: HextileState::new(),
            stats: ConnectionStatsTracker::new(now),
            last_msg_type: None,
            last_encoding: None,
            recent_encodings: Vec::new(),
            pending: 0,
            waiting: None,
            cursors: CursorCache::new(),
            scaled_size: None,
        }
    }

    /// Changes the size of the desktop.
    pub fn resize(&mut self, width: u16, height: u16)
        requires
            size_ok(width as u32, height as u32),
        ensures
            final(self)@ == old(self)@.with_size(width, height),
            final(self).wf(),
    {
        assert(width * height * 4 <= 0x4000_0000) by (nonlinear_arith)
            requires
                0 <= width <= 16384,
                0 <= height <= 16384,
        ;
        self.width = width;
        self.height = height;
        self.framebuffer.resize(width as usize, height as usize);
    }

    /// Completes one rectangle of the update.
    pub fn close_rect(&mut self)
        requires
            old(self).pending > 0,
            old(self).wf(),
        ensures
            final(self)@ == old(self)@.rect_closed(),
            final(self).wf(),
    {
        self.pending = self.pending - 1;
        self.waiting = None;
        if self.pending == 0 {
            let common: i32 = most_common_encoding(&self.recent_encodings);
            self.stats.record_frame(common);
        }
    }

    /// Gives up the update that is under way, as where its work failed.
    pub fn give_up(&mut self)
        requires
            old(self).wf(),
        ensures
            final(self)@ == old(self)@.given_up(),
            final(self).wf(),
    {
        self.pending = 0;
        self.waiting = None;
    }

    #[verifier::rlimit(30)]
    fn advance_rect(&mut self, input: &[u8], ends: &[usize]) -> (r: Result<Option<Turn>, Refusal>)
        requires
            old(self).wf(),
            old(self).pending > 0,
        ensures
            turn_reports(r, old(self)@, final(self)@, rect_outcome(old(self)@, input@, ends@)),
            r is Err ==> final(self)@ == refused(old(self)@, input@, ends@),
            final(self).wf(),
            r matches Ok(Some(t)) ==> t.used <= input@.len(),
            r matches Err(e) ==> e.used <= input@.len(),
    {
        if input.len() < RECT_HEADER_LEN {
            return Ok(None);
        }
        let h = RectHeader::from_bytes(input);
        let last = self.last_encoding;
        let ghost start = self@;
        self.last_encoding = Some(h.encoding);
        self.recent_encodings.push(h.encoding);
        assert(self@ == start.rect_opened(h));
        if let Err(e) = check_dimensions(h.width as u32, h.height as u32) {
            self.give_up();
            return Err(Refusal { error: e, used: RECT_HEADER_LEN });
        }
        let rest = slice(input, RECT_HEADER_LEN, input.len());
        assert(rest@ =~= input@.skip(RECT_HEADER_LEN as int));
        match self.read_body(&h, rest, ends) {
            Err(e) => {
                self.give_up();
                Err(Refusal { error: e.error, used: e.used + RECT_HEADER_LEN })
            },
            Ok(None) => {
                self.last_encoding = last;
                let _ = self.recent_encodings.pop();
                assert(self@.recent =~= start.recent);
                Ok(None)
            },
            Ok(Some(body)) => {
                let mut events = body.events;
                let used: usize = body.used + RECT_HEADER_LEN;
                let deferred: bool = !matches!(body.work, Work::Nothing | Work::Rekey { .. });
                if deferred {
                    self.waiting = Some(h);
                } else {
                    self.close_rect();
                    if !body.quiet {
                        push_event(
                            &mut events,
                            VncEvent::FramebufferUpdate {
                                x: h.x,
                                y: h.y,
                                width: h.width,
                                height: h.height,
                            },
                        );
                    }
                }
                Ok(Some(Turn { used, events, replies: body.replies, work: body.work }))
            },
        }
    }

    /// Takes one message, or one rectangle of an update, off the front of the
    /// input. `None` asks for more bytes. `ends` are the positions in the input
    /// at which records of the record layer end.
    pub fn advance(&mut self, input: &[u8], ends: &[usize]) -> (r: Result<Option<Turn>, Refusal>)
        requires
            old(self).wf(),
            old(self)@.waiting is None,
        ensures
            turn_reports(r, old(self)@, final(self)@, outcome(old(self)@, input@, ends@)),
            r is Err ==> final(self)@ == refused(old(self)@, input@, ends@),
            final(self).wf(),
            r matches Ok(Some(t)) ==> t.used <= input@.len(),
            r matches Err(e) ==> e.used <= input@.len(),
    {
        if self.pending > 0 {
            self.advance_rect(input, ends)
        } else {
            self.advance_message(input)
        }
    }
}

} // verus!
