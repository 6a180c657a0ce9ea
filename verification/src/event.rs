//! What a session tells its user.

use vstd::prelude::*;

use crate::apple_media::{MediaStreamAnswer, MediaStreamInit};
use crate::clipboard::{ClipboardMessage, ClipboardView};
use crate::cursor::{CursorShape, CursorView};
use crate::messages::Screen;

verus! {

/// Events emitted by the VNC client.
#[derive(Debug, Clone)]
pub enum VncEvent {
    /// Framebuffer geometry changed (width, height).
    GeometryChanged { width: u16, height: u16 },
    /// Framebuffer updated region (x, y, width, height).
    FramebufferUpdate { x: u16, y: u16, width: u16, height: u16 },
    /// Desktop name changed.
    NameChanged(String),
    /// Bell received from server.
    Bell,
    /// Cursor shape update.
    CursorShape(CursorShape),
    /// Server cut text received.
    CutText(String),
    /// Clipboard data received.
    ClipboardData(ClipboardMessage),
    /// Server signaled end of continuous updates.
    EndOfContinuousUpdates,
    /// Fence sync marker received.
    Fence { flags: u32, data: Vec<u8> },
    /// Cursor position update.
    CursorPos { x: u16, y: u16 },
    /// Keyboard LED state update (ScrollLock, NumLock, CapsLock).
    LedState { scroll_lock: bool, num_lock: bool, caps_lock: bool },
    /// Multi-monitor screen layout changed.
    ScreenLayout(Vec<Screen>),
    /// Keyboard input source information received from the server (Apple HP).
    KeyboardInputSource { input_source_id: String, secure_event_input: bool },
    /// Device information received from the server (Apple HP).
    DeviceInfo {
        device_identifier: String,
        device_color: String,
        enclosure_color: String,
        enclosure_rgb_color: u32,
        housing_color: i32,
    },
    /// Remote clipboard changed; the caller may fetch the updated pasteboard
    /// (Apple HP).
    ClipboardChanged,
    /// Apple HP media stream answer received after sending an offer. A
    /// degenerate answer with zero dimensions means that the encoder is not
    /// ready yet; callers should re-send the offer and retry.
    MediaStreamAnswer(MediaStreamAnswer),
    /// Apple HP media stream init announcement.
    MediaStreamInit(MediaStreamInit),
    /// Decoded frame from the Apple HP adaptive media stream.
    MediaFrame { width: u16, height: u16, rgba: Vec<u8> },
    /// Audio data received (QEMU extension).
    Audio { sample_rate: u32, channels: u8, bits_per_sample: u8, data: Vec<u8> },
}

/// What a [`VncEvent`] says.
pub enum Event {
    GeometryChanged { width: u16, height: u16 },
    FramebufferUpdate { x: u16, y: u16, width: u16, height: u16 },
    NameChanged(Seq<char>),
    Bell,
    CursorShape(CursorView),
    CutText(Seq<char>),
    ClipboardData(ClipboardView),
    EndOfContinuousUpdates,
    Fence { flags: u32, data: Seq<u8> },
    CursorPos { x: u16, y: u16 },
    LedState { scroll_lock: bool, num_lock: bool, caps_lock: bool },
    ScreenLayout(Seq<Screen>),
    KeyboardInputSource { input_source_id: Seq<char>, secure_event_input: bool },
    DeviceInfo {
        device_identifier: Seq<char>,
        device_color: Seq<char>,
        enclosure_color: Seq<char>,
        enclosure_rgb_color: u32,
        housing_color: i32,
    },
    ClipboardChanged,
    MediaStreamAnswer(MediaStreamAnswer),
    MediaStreamInit(MediaStreamInit),
    MediaFrame { width: u16, height: u16, rgba: Seq<u8> },
    Audio { sample_rate: u32, channels: u8, bits_per_sample: u8, data: Seq<u8> },
}

impl View for VncEvent {
    type V = Event;

    open spec fn view(&self) -> Event {
        match self {
            VncEvent::GeometryChanged { width, height } => Event::GeometryChanged {
                width: *width,
                height: *height,
            },
            VncEvent::FramebufferUpdate { x, y, width, height } => Event::FramebufferUpdate {
                x: *x,
                y: *y,
                width: *width,
                height: *height,
            },
            VncEvent::NameChanged(s) => Event::NameChanged(s@),
            VncEvent::Bell => Event::Bell,
            VncEvent::CursorShape(c) => Event::CursorShape(c@),
            VncEvent::CutText(s) => Event::CutText(s@),
            VncEvent::ClipboardData(v) => Event::ClipboardData(v@),
            VncEvent::EndOfContinuousUpdates => Event::EndOfContinuousUpdates,
            VncEvent::Fence { flags, data } => Event::Fence { flags: *flags, data: data@ },
            VncEvent::CursorPos { x, y } => Event::CursorPos { x: *x, y: *y },
            VncEvent::LedState { scroll_lock, num_lock, caps_lock } => Event::LedState {
                scroll_lock: *scroll_lock,
                num_lock: *num_lock,
                caps_lock: *caps_lock,
            },
            VncEvent::ScreenLayout(v) => Event::ScreenLayout(v@),
            VncEvent::KeyboardInputSource {
                input_source_id,
                secure_event_input,
            } => Event::KeyboardInputSource {
                input_source_id: input_source_id@,
                secure_event_input: *secure_event_input,
            },
            VncEvent::DeviceInfo {
                device_identifier,
                device_color,
                enclosure_color,
                enclosure_rgb_color,
                housing_color,
            } => Event::DeviceInfo {
                device_identifier: device_identifier@,
                device_color: device_color@,
                enclosure_color: enclosure_color@,
                enclosure_rgb_color: *enclosure_rgb_color,
                housing_color: *housing_color,
            },
            VncEvent::ClipboardChanged => Event::ClipboardChanged,
            VncEvent::MediaStreamAnswer(a) => Event::MediaStreamAnswer(*a),
            VncEvent::MediaStreamInit(i) => Event::MediaStreamInit(*i),
            VncEvent::MediaFrame { width, height, rgba } => Event::MediaFrame {
                width: *width,
                height: *height,
                rgba: rgba@,
            },
            VncEvent::Audio { sample_rate, channels, bits_per_sample, data } => Event::Audio {
                sample_rate: *sample_rate,
                channels: *channels,
                bits_per_sample: *bits_per_sample,
                data: data@,
            },
        }
    }
}

/// What a list of events says.
pub open spec fn event_views(events: Seq<VncEvent>) -> Seq<Event> {
    Seq::new(events.len(), |i: int| events[i]@)
}

/// A list of one event.
pub fn one_event(event: VncEvent) -> (r: Vec<VncEvent>)
    ensures
        event_views(r@) == seq![event@],
{
    let mut r: Vec<VncEvent> = Vec::new();
    r.push(event);
    assert(event_views(r@) =~= seq![event@]);
    r
}

/// A list of no events.
pub fn no_events() -> (r: Vec<VncEvent>)
    ensures
        event_views(r@) == Seq::<Event>::empty(),
{
    let r: Vec<VncEvent> = Vec::new();
    assert(event_views(r@) =~= Seq::<Event>::empty());
    r
}

/// Appends an event.
pub fn push_event(events: &mut Vec<VncEvent>, event: VncEvent)
    ensures
        event_views(final(events)@) == event_views(old(events)@).push(event@),
{
    events.push(event);
    assert(event_views(events@) =~= event_views(old(events)@).push(event@));
}

} // verus!
