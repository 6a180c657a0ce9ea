//! What a client sends on behalf of its user, and what it reads once the
//! session is ready.
//!
//! Every function that sends returns the bytes to be written to the stream.

use vstd::prelude::*;
use vstd::utf8::encode_utf8;

use crate::apple_control::{apple_pointer_button_mask, swapped_buttons};
use crate::apple_media::answer::answer_from;
use crate::apple_media::offer::{audio_section, options_message, video_section};
use crate::apple_media::uuid::fresh_identifier;
use crate::apple_media::{
    build_media_stream_options, parse_media_stream_answer, MediaStreamAnswer, MediaStreamKeys,
    ViewerEndpoint,
};
use crate::apple_record_layer::{
    auto_framebuffer_update, build_auto_framebuffer_update, build_auto_pasteboard,
    build_clipboard_fetch, build_scale_factor, build_set_display_message,
    build_set_keyboard_input_source, build_set_mode, key_event_plain, keyboard_input_source,
    pointer_event_plain, AppleRecordLayer,
};
use crate::client::{encoding_numbers, numbers, ClientState, Session, VncClient};
use crate::crypto::aes128_enciphered;
use crate::clipboard::{build_text_provide, text_provide};
use crate::desktop::rects::{calls_with, outcome_with, refused_with, streams_left, Streams};
use crate::desktop::{turn_reports, Refusal, Scene, Transport, Turn};
use crate::encodings::{name_of, Encoding};
use crate::error::{protocol_error, Failure, VncError};
use crate::event::VncEvent;
use crate::messages::{
    build_continuous_updates, build_cut_text, build_fence, build_key_event, build_pointer_event,
    build_set_encodings, build_set_pixel_format, build_update_request, continuous_updates, cut_text,
    fence, flag, key_event, pointer_event, set_encodings, set_pixel_format, update_request, Area,
};
use crate::pixel_format::PixelFormat;
use crate::protocol::apple;
use crate::stats::{growth, ConnectionStats, ConnectionStatsTracker};
use crate::text::{concat_text, decimal, decimal_text};
use crate::wire::{be16, be32, be64};

verus! {

/// Whether a connected client returns the message, and any other one reports
/// that there is no connection.
pub open spec fn sends(r: Result<Vec<u8>, VncError>, c: Session, message: Seq<u8>) -> bool {
    if c.scene.transport == Transport::Disconnected {
        r matches Err(e) && e@ == Failure::NotConnected
    } else {
        r matches Ok(m) && m@ == message
    }
}

/// Whether a scale, given as the bits of a 64-bit float, is not positive. What
/// is not a number counts as positive.
pub open spec fn not_positive(bits: u64) -> bool {
    let magnitude = bits % 0x8000_0000_0000_0000;
    magnitude == 0 || (bits >= 0x8000_0000_0000_0000 && magnitude <= 0x7ff0_0000_0000_0000)
}

/// Why no message could be read.
pub enum ReadFailure {
    /// The stream has ended.
    Ended,
    /// Nothing has come in time.
    TimedOut,
    /// Anything else, with its text.
    Other(String),
}

/// What a read comes to that timed out before a message began: the events that
/// were gathered before it, if there are any.
pub fn after_timeout(events: Vec<VncEvent>) -> (r: Result<Vec<VncEvent>, VncError>)
    ensures
        if events@.len() > 0 {
            r == Ok::<Vec<VncEvent>, VncError>(events)
        } else {
            r matches Err(e) && e@ == Failure::Timeout
        },
{
    if events.len() > 0 {
        Ok(events)
    } else {
        Err(VncError::Timeout)
    }
}

/// What a read comes to that failed before a message began.
pub fn after_failed_read(failure: ReadFailure, events: Vec<VncEvent>) -> (r: Result<
    Vec<VncEvent>,
    VncError,
>)
    ensures
        match failure {
            ReadFailure::Ended => r matches Err(e) && e@ == Failure::ServerClosed,
            ReadFailure::TimedOut => if events@.len() > 0 {
                r == Ok::<Vec<VncEvent>, VncError>(events)
            } else {
                r matches Err(e) && e@ == Failure::Timeout
            },
            ReadFailure::Other(text) => r matches Err(e) && e@ == Failure::Io(text@),
        },
{
    match failure {
        ReadFailure::Ended => Err(VncError::ServerClosed),
        ReadFailure::TimedOut => after_timeout(events),
        ReadFailure::Other(text) => Err(VncError::Io(text)),
    }
}

impl VncClient {
    fn connection(&self) -> (r: Result<(), VncError>)
        ensures
            r is Ok <==> self@.scene.transport != Transport::Disconnected,
            r matches Err(e) ==> e@ == Failure::NotConnected,
    {
        if self.desktop.transport == Transport::Disconnected {
            Err(VncError::NotConnected)
        } else {
            Ok(())
        }
    }

    fn over_connection(&self, message: Vec<u8>) -> (r: Result<Vec<u8>, VncError>)
        ensures
            sends(r, self@, message@),
    {
        match self.connection() {
            Ok(()) => Ok(message),
            Err(e) => Err(e),
        }
    }

    /// Set the desired pixel format.
    pub fn set_pixel_format(&mut self, format: PixelFormat) -> (r: Result<Vec<u8>, VncError>)
        requires
            old(self).wf(),
        ensures
            sends(r, old(self)@, set_pixel_format(format)),
            final(self)@ == if r is Ok {
                Session { scene: Scene { format, ..old(self)@.scene }, ..old(self)@ }
            } else {
                old(self)@
            },
            final(self).wf(),
    {
        let r = self.over_connection(build_set_pixel_format(&format));
        if r.is_ok() {
            self.desktop.pixel_format = format;
        }
        r
    }

    /// Set the supported encodings. The server will use the first encoding in
    /// the list that it also supports.
    pub fn set_encodings(&self, encodings: &[Encoding]) -> (r: Result<Vec<u8>, VncError>)
        requires
            forall|i: int| 0 <= i < encodings@.len() ==> (#[trigger] encodings@[i]).valid(),
        ensures
            sends(r, self@, set_encodings(encoding_numbers(encodings@))),
    {
        self.over_connection(build_set_encodings(&numbers(encodings)))
    }

    /// Request a framebuffer update from the server. Set `incremental` to
    /// `false` for a full refresh, or `true` for incremental updates (only
    /// changed regions).
    pub fn request_update(&self, incremental: bool, x: u16, y: u16, width: u16, height: u16) -> (r:
        Result<Vec<u8>, VncError>)
        ensures
            sends(r, self@, update_request(incremental, Area { x, y, width, height })),
    {
        self.over_connection(build_update_request(incremental, Area { x, y, width, height }))
    }

    /// Send a pointer (mouse) event.
    ///
    /// `button_mask` is a bitmask of pressed buttons using the standard RFB
    /// layout. In Apple high-performance mode the right and middle
    /// button bits are swapped on the wire.
    pub fn send_pointer_event(&self, button_mask: u8, x: u16, y: u16) -> (r: Result<
        Vec<u8>,
        VncError,
    >)
        ensures
            sends(
                r,
                self@,
                pointer_event(
                    if self@.config.high_performance {
                        swapped_buttons(button_mask)
                    } else {
                        button_mask
                    },
                    x,
                    y,
                ),
            ),
    {
        let mask: u8 = if self.config.high_performance {
            apple_pointer_button_mask(button_mask)
        } else {
            button_mask
        };
        self.over_connection(build_pointer_event(mask, x, y))
    }

    /// Send a raw pointer event without applying any Apple HP button swap.
    pub fn send_pointer_event_raw(&self, button_mask: u8, x: u16, y: u16) -> (r: Result<
        Vec<u8>,
        VncError,
    >)
        ensures
            sends(r, self@, pointer_event(button_mask, x, y)),
    {
        self.over_connection(build_pointer_event(button_mask, x, y))
    }

    /// Send a key event (key press or release). `keysym` is an X11 keysym value.
    pub fn send_key_event(&self, down: bool, keysym: u32) -> (r: Result<Vec<u8>, VncError>)
        ensures
            sends(r, self@, key_event(down, keysym)),
    {
        self.over_connection(build_key_event(down, keysym))
    }

    fn record_layer<'a>(&self, layer: Option<&'a AppleRecordLayer>) -> (r: Result<
        &'a AppleRecordLayer,
        VncError,
    >)
        ensures
            if self@.scene.transport == Transport::Disconnected {
                r matches Err(e) && e@ == Failure::NotConnected
            } else {
                match layer {
                    Some(l) => r == Ok::<&AppleRecordLayer, VncError>(l),
                    None => r matches Err(e) && e@ == Failure::Protocol(
                        "Apple record layer not active"@,
                    ),
                }
            },
    {
        match self.connection() {
            Err(e) => Err(e),
            Ok(()) => match layer {
                Some(l) => Ok(l),
                None => Err(protocol_error("Apple record layer not active")),
            },
        }
    }

    /// Send an encrypted Apple HP key event. `layer` is the record layer, which
    /// must be active. `key_type` and `key_code` are Apple-specific fields that
    /// callers without native key information can leave as `0`.
    pub fn send_hp_key_event(
        &self,
        layer: Option<&AppleRecordLayer>,
        down: bool,
        keysym: u32,
        key_type: u16,
        key_code: u16,
    ) -> (r: Result<Vec<u8>, VncError>)
        ensures
            match layer {
                Some(l) => sends(
                    r,
                    self@,
                    seq![apple::ENCRYPTED_INPUT_EVENT, 1u8] + aes128_enciphered(
                        l.content_key@,
                        key_event_plain(down, keysym, key_type, key_code),
                    ),
                ),
                None => r matches Err(e) && e@ == if self@.scene.transport
                    == Transport::Disconnected {
                    Failure::NotConnected
                } else {
                    Failure::Protocol("Apple record layer not active"@)
                },
            },
    {
        match self.record_layer(layer) {
            Err(e) => Err(e),
            Ok(l) => Ok(l.build_encrypted_key_event(down, keysym, key_type, key_code)),
        }
    }

    /// Send an encrypted Apple HP pointer event. The `button_mask` uses the
    /// standard RFB layout; the right/middle bits are swapped into
    /// the Apple HP wire format automatically.
    pub fn send_hp_pointer_event(
        &self,
        layer: Option<&AppleRecordLayer>,
        button_mask: u8,
        x: u16,
        y: u16,
    ) -> (r: Result<Vec<u8>, VncError>)
        ensures
            match layer {
                Some(l) => sends(
                    r,
                    self@,
                    seq![apple::ENCRYPTED_INPUT_EVENT, 3u8] + aes128_enciphered(
                        l.content_key@,
                        pointer_event_plain(swapped_buttons(button_mask), x, y),
                    ),
                ),
                None => r matches Err(e) && e@ == if self@.scene.transport
                    == Transport::Disconnected {
                    Failure::NotConnected
                } else {
                    Failure::Protocol("Apple record layer not active"@)
                },
            },
    {
        match self.record_layer(layer) {
            Err(e) => Err(e),
            Ok(l) => Ok(
                l.build_encrypted_pointer_event(apple_pointer_button_mask(button_mask), x, y),
            ),
        }
    }

    /// Send an Apple HP `SetMode` message: `mode = 0` is observe-only, `mode = 1`
    /// is normal control.
    pub fn send_hp_set_mode(&self, mode: u16) -> (r: Result<Vec<u8>, VncError>)
        ensures
            sends(r, self@, seq![apple::SET_MODE, 0u8] + be16(mode)),
    {
        self.over_connection(build_set_mode(mode))
    }

    /// Send an Apple HP `ScaleFactor` message. The scale, given as the bits of a
    /// 64-bit float, must be positive; `shown` is how an error shows it.
    pub fn send_hp_scale_factor(&self, bits: u64, shown: &str) -> (r: Result<Vec<u8>, VncError>)
        ensures
            if not_positive(bits) {
                r matches Err(e) && e@ == Failure::Protocol(
                    "Apple HP scale factor must be positive, got "@ + shown@,
                )
            } else {
                sends(r, self@, seq![apple::SCALE_FACTOR, 0u8] + be64(bits))
            },
    {
        let magnitude: u64 = bits % 0x8000_0000_0000_0000;
        if magnitude == 0 || (bits >= 0x8000_0000_0000_0000 && magnitude <= 0x7ff0_0000_0000_0000) {
            return Err(
                VncError::Protocol(
                    concat_text("Apple HP scale factor must be positive, got ", shown),
                ),
            );
        }
        self.over_connection(build_scale_factor(bits))
    }

    /// Send an Apple HP `SetDisplayMessage` message.
    pub fn send_hp_set_display_message(&self, combine_all_displays: bool, display_id: u32) -> (r:
        Result<Vec<u8>, VncError>)
        ensures
            sends(
                r,
                self@,
                seq![apple::SET_DISPLAY_MESSAGE, flag(combine_all_displays)] + be16(0) + be32(
                    display_id,
                ),
            ),
    {
        let m = build_set_display_message(combine_all_displays, display_id);
        self.over_connection(m)
    }

    /// Send an Apple HP `AutoPasteboard` command: selector 1 starts monitoring
    /// the local pasteboard, 2 stops it.
    pub fn send_hp_auto_pasteboard(&self, selector: u8) -> (r: Result<Vec<u8>, VncError>)
        ensures
            if selector != 1 && selector != 2 {
                r matches Err(e) && e@ == Failure::Protocol(
                    "Apple HP AutoPasteboard selector must be 1 or 2, got "@ + decimal_text(
                        selector as nat,
                    ),
                )
            } else {
                sends(
                    r,
                    self@,
                    seq![apple::AUTO_PASTEBOARD, 0u8, 0u8, 0u8, selector, 0u8, 0u8, 0u8],
                )
            },
    {
        if selector != 1 && selector != 2 {
            return Err(
                VncError::Protocol(
                    concat_text(
                        "Apple HP AutoPasteboard selector must be 1 or 2, got ",
                        decimal(selector as u64).as_str(),
                    ),
                ),
            );
        }
        self.over_connection(build_auto_pasteboard(selector))
    }

    /// Send an Apple HP `SetKeyboardInputSource` message.
    pub fn send_hp_set_keyboard_input_source(&self, source_id: &str) -> (r: Result<
        Vec<u8>,
        VncError,
    >)
        ensures
            sends(r, self@, keyboard_input_source(encode_utf8(source_id@))),
    {
        self.over_connection(build_set_keyboard_input_source(source_id))
    }

    /// Send an Apple HP `AutoFrameBufferUpdate` message, which arms the server's
    /// framebuffer sender.
    pub fn send_hp_auto_framebuffer_update(
        &self,
        selected_screen: u32,
        x: u16,
        y: u16,
        width: u16,
        height: u16,
    ) -> (r: Result<Vec<u8>, VncError>)
        ensures
            sends(r, self@, auto_framebuffer_update(selected_screen, x, y, width, height)),
    {
        self.over_connection(build_auto_framebuffer_update(selected_screen, x, y, width, height))
    }

    /// Request a remote pasteboard fetch after a `ClipboardChanged` event (Apple HP).
    pub fn request_clipboard_fetch(&self) -> (r: Result<Vec<u8>, VncError>)
        ensures
            sends(r, self@, seq![apple::CLIPBOARD_FETCH]),
    {
        self.over_connection(build_clipboard_fetch())
    }

    /// Whether a media stream can be negotiated or started: high-performance
    /// mode must be on, and the client connected.
    pub fn check_media_stream(&self) -> (r: Result<(), VncError>)
        ensures
            if !self@.config.high_performance {
                r matches Err(e) && e@ == Failure::Protocol(
                    "Apple HP media stream requires high-performance mode"@,
                )
            } else if self@.scene.transport == Transport::Disconnected {
                r matches Err(e) && e@ == Failure::NotConnected
            } else {
                r is Ok
            },
    {
        if !self.config.high_performance {
            return Err(protocol_error("Apple HP media stream requires high-performance mode"));
        }
        self.connection()
    }

    /// Send an Apple HP media stream offer using caller-supplied SRTP master
    /// keys, so that the same offer can be sent again while waiting for the
    /// encoder to become ready. The identifiers in it are drawn at random.
    pub fn send_hp_media_stream_options_with_keys(
        &mut self,
        keys: MediaStreamKeys,
        audio_enabled: bool,
        endpoint: &ViewerEndpoint,
        timestamp: u64,
    ) -> (r: Result<Vec<u8>, VncError>)
        requires
            old(self).wf(),
        ensures
            if !old(self)@.config.high_performance {
                r matches Err(e) && e@ == Failure::Protocol(
                    "Apple HP media stream requires high-performance mode"@,
                ) && final(self)@ == old(self)@
            } else if old(self)@.scene.transport == Transport::Disconnected {
                r matches Err(e) && e@ == Failure::NotConnected && final(self)@ == old(self)@
            } else {
                final(self)@ == (Session { media_keys: Some(keys), ..old(self)@ }) && exists|
                    call_id: Seq<char>,
                    video_id: Seq<char>,
                    audio_id: Seq<char>,
                |
                    fresh_identifier(call_id) && fresh_identifier(video_id) && fresh_identifier(audio_id) && (r
                        matches Ok(m) && m@ == #[trigger] options_message(
                        &keys,
                        call_id,
                        audio_section(
                            keys.audio_ssrc,
                            audio_enabled,
                            endpoint,
                            timestamp,
                            audio_id,
                        ),
                        video_section(keys.video_ssrc, endpoint, timestamp, video_id),
                    ))
            },
            final(self).wf(),
    {
        match self.check_media_stream() {
            Err(e) => Err(e),
            Ok(()) => {
                let m = build_media_stream_options(&keys, audio_enabled, endpoint, timestamp);
                self.apple_media_stream_keys = Some(keys);
                Ok(m)
            },
        }
    }

    /// Send an Apple HP media stream offer with fresh SRTP master keys, which are
    /// returned along with the message.
    pub fn send_hp_media_stream_options(
        &mut self,
        audio_enabled: bool,
        endpoint: &ViewerEndpoint,
        timestamp: u64,
    ) -> (r: Result<(MediaStreamKeys, Vec<u8>), VncError>)
        requires
            old(self).wf(),
        ensures
            if !old(self)@.config.high_performance {
                r matches Err(e) && e@ == Failure::Protocol(
                    "Apple HP media stream requires high-performance mode"@,
                ) && final(self)@ == old(self)@
            } else if old(self)@.scene.transport == Transport::Disconnected {
                r matches Err(e) && e@ == Failure::NotConnected && final(self)@ == old(self)@
            } else {
                &&& r is Ok
                &&& r->Ok_0.0.fresh()
                &&& final(self)@ == (Session { media_keys: Some(r->Ok_0.0), ..old(self)@ })
                &&& exists|call_id: Seq<char>, video_id: Seq<char>, audio_id: Seq<char>|
                    fresh_identifier(call_id) && fresh_identifier(video_id) && fresh_identifier(audio_id)
                        && r->Ok_0.1@ == #[trigger] options_message(
                        &r->Ok_0.0,
                        call_id,
                        audio_section(
                            r->Ok_0.0.audio_ssrc,
                            audio_enabled,
                            endpoint,
                            timestamp,
                            audio_id,
                        ),
                        video_section(r->Ok_0.0.video_ssrc, endpoint, timestamp, video_id),
                    )
            },
            final(self).wf(),
    {
        let keys = MediaStreamKeys::random();
        let kept = MediaStreamKeys {
            audio_key_v: keys.audio_key_v,
            audio_key_s: keys.audio_key_s,
            video_key_v: keys.video_key_v,
            video_key_s: keys.video_key_s,
            audio_ssrc: keys.audio_ssrc,
            video_ssrc: keys.video_ssrc,
        };
        match self.send_hp_media_stream_options_with_keys(keys, audio_enabled, endpoint, timestamp) {
            Err(e) => Err(e),
            Ok(m) => Ok((kept, m)),
        }
    }

    /// Read a media stream answer out of one record.
    pub fn read_hp_media_stream_answer(&self, record: &[u8]) -> (r: Result<
        MediaStreamAnswer,
        VncError,
    >)
        ensures
            if self@.scene.transport == Transport::Disconnected {
                r matches Err(e) && e@ == Failure::NotConnected
            } else {
                match answer_from(record@, 0) {
                    Some(answer) => r == Ok::<MediaStreamAnswer, VncError>(answer),
                    None => r matches Err(e) && e@ == Failure::Protocol(
                        "Failed to parse Apple HP media stream answer"@,
                    ),
                }
            },
    {
        match self.connection() {
            Err(e) => Err(e),
            Ok(()) => match parse_media_stream_answer(record) {
                Some(answer) => Ok(answer),
                None => Err(protocol_error("Failed to parse Apple HP media stream answer")),
            },
        }
    }

    /// Enable continuous updates (server pushes frames without client requests).
    pub fn enable_continuous_updates(
        &self,
        enable: bool,
        x: u16,
        y: u16,
        width: u16,
        height: u16,
    ) -> (r: Result<Vec<u8>, VncError>)
        ensures
            sends(r, self@, continuous_updates(enable, Area { x, y, width, height })),
    {
        self.over_connection(build_continuous_updates(enable, Area { x, y, width, height }))
    }

    /// Send a fence request to the server. The payload is limited to 255 bytes
    /// by its length field.
    pub fn send_fence(&self, flags: u32, data: &[u8]) -> (r: Result<Vec<u8>, VncError>)
        ensures
            if data@.len() > 255 {
                r matches Err(e) && e@ == Failure::Protocol(
                    "fence payload too long: "@ + decimal_text(data@.len()) + " bytes (max 255)"@,
                )
            } else {
                sends(r, self@, fence(flags, data@))
            },
    {
        if data.len() > 255 {
            let t = concat_text("fence payload too long: ", decimal(data.len() as u64).as_str());
            return Err(VncError::Protocol(concat_text(t.as_str(), " bytes (max 255)")));
        }
        self.over_connection(build_fence(flags, data))
    }

    /// Send clipboard data as they are.
    pub fn send_cut_text_raw(&self, data: &[u8]) -> (r: Result<Vec<u8>, VncError>)
        ensures
            sends(r, self@, cut_text(data@)),
    {
        self.over_connection(build_cut_text(data))
    }

    /// Send extended clipboard text to the server.
    pub fn send_extended_clipboard_text(&self, text: &str) -> (r: Result<Vec<u8>, VncError>)
        ensures
            sends(r, self@, cut_text(text_provide(encode_utf8(text@)))),
    {
        self.send_cut_text_raw(&build_text_provide(text))
    }

    /// Send client cut text (legacy).
    pub fn send_cut_text(&self, text: &str) -> (r: Result<Vec<u8>, VncError>)
        ensures
            sends(r, self@, cut_text(encode_utf8(text@))),
    {
        self.over_connection(build_cut_text(text.as_bytes()))
    }

    /// Get a snapshot of connection statistics at time `now`.
    pub fn stats(&mut self, now: u64, bytes_read: u64, bytes_written: u64) -> (r: ConnectionStats)
        requires
            old(self).wf(),
        ensures
            r.width == old(self)@.scene.width,
            r.height == old(self)@.scene.height,
            r.encoding@ == name_of(old(self)@.scene.stats.last_encoding),
            r.frames == old(self)@.scene.stats.frame_count,
            r.rx_bytes == growth(bytes_read, old(self)@.scene.stats.last_bytes_read),
            r.tx_bytes == growth(bytes_written, old(self)@.scene.stats.last_bytes_written),
            r.elapsed == growth(now, old(self)@.scene.stats.last_sample),
            final(self)@ == (Session {
                scene: Scene {
                    stats: ConnectionStatsTracker {
                        last_sample: now,
                        frame_count: 0,
                        last_bytes_read: bytes_read,
                        last_bytes_written: bytes_written,
                        last_encoding: old(self)@.scene.stats.last_encoding,
                    },
                    ..old(self)@.scene
                },
                ..old(self)@
            }),
            final(self).wf(),
    {
        let (width, height): (u16, u16) = (self.desktop.width, self.desktop.height);
        self.desktop.stats.sample(width, height, now, bytes_read, bytes_written)
    }

    /// Whether the next byte starts a message, where `received` bytes have come
    /// and are not read yet.
    pub fn between_messages(&self, received: usize) -> (r: bool)
        ensures
            r == (received == 0 && self@.scene.pending == 0),
    {
        received == 0 && self.desktop.pending == 0
    }

    /// How long to wait for more bytes, in milliseconds. The wait for a message
    /// is short, so that the caller can look after other things. Once one has
    /// begun, large updates may take many reads.
    pub fn read_wait(&self, received: usize) -> (r: u64)
        ensures
            r == if received == 0 && self@.scene.pending == 0 {
                50
            } else {
                60_000int
            },
    {
        if self.between_messages(received) {
            50
        } else {
            60_000
        }
    }

    /// Takes one message, or one rectangle of an update, off the front of the
    /// input, once the session is ready.
    pub fn read_messages(&mut self, streams: &mut Streams, input: &[u8], ends: &[usize]) -> (r:
        Result<Option<Turn>, Refusal>)
        requires
            old(self).wf(),
            old(streams).wf(),
            old(self)@.scene.waiting is None,
        ensures
            if old(self)@.state != ClientState::Ready {
                r matches Err(e) && e.error@ == Failure::Protocol("Client not in Ready state"@)
                    && e.used == 0 && final(self)@ == old(self)@ && final(streams)@ == old(streams)@
            } else if old(self)@.scene.transport == Transport::Disconnected {
                r matches Err(e) && e.error@ == Failure::NotConnected && e.used == 0
                    && final(self)@ == old(self)@ && final(streams)@ == old(streams)@
            } else {
                &&& turn_reports(
                    r,
                    old(self)@.scene,
                    final(self)@.scene,
                    outcome_with(old(self)@.scene, input@, ends@, old(streams)@),
                )
                &&& r is Ok ==> final(streams)@ == calls_with(
                    old(self)@.scene,
                    input@,
                    ends@,
                    old(streams)@,
                )
                &&& streams_left(
                    old(self)@.scene,
                    input@,
                    ends@,
                    old(streams)@,
                    final(streams)@,
                )
                &&& r is Err ==> final(self)@.scene == refused_with(
                    old(self)@.scene,
                    input@,
                    ends@,
                )
            },
            final(self)@ == (Session { scene: final(self)@.scene, ..old(self)@ }),
            final(self).wf(),
            final(streams).wf(),
            r matches Ok(Some(t)) ==> t.used <= input@.len(),
            r matches Err(e) ==> e.used <= input@.len(),
    {
        if self.state != ClientState::Ready {
            let error = protocol_error("Client not in Ready state");
            return Err(Refusal { error, used: 0 });
        }
        if self.desktop.transport == Transport::Disconnected {
            return Err(Refusal { error: VncError::NotConnected, used: 0 });
        }
        self.desktop.advance_with(streams, input, ends)
    }
}

} // verus!
