//! The server's messages.

use vstd::prelude::*;

use crate::apple_media::answer::answer_from;
use crate::apple_media::{parse_media_stream_answer, MediaStreamAnswer};
use crate::clipboard::{decode_message, message_of, plain_of};
use crate::decoder::Codec;
use crate::desktop::{turn_reports, Desktop, Outcome, Refusal, Scene, Task, Turn, Work};
use crate::error::{Failure, VncError};
use crate::event::{event_views, no_events, one_event, Event, VncEvent};
use crate::messages::{
    build_fence, fence, i32_at, i32_of, FENCE_FLAG_BLOCK_AFTER, FENCE_FLAG_BLOCK_BEFORE,
    FENCE_FLAG_REQUEST, FENCE_FLAG_SYNC_NEXT,
};
use crate::protocol;
use crate::protocol::apple;
use crate::text::{
    concat_text, decimal, decimal_text, list_text, lossy_string, lossy_text, number_list, option,
    option_text, wide_numbers,
};
use crate::wire::{slice, to_vec, u16_at, u16_of, u32_at, u32_of};

verus! {

/// Longest cut text, or extended clipboard message, that is accepted.
pub const MAX_CUT_TEXT_LEN: usize = 0xa0_0000;

/// Longest chunk of audio that is accepted.
pub const MAX_QEMU_AUDIO_LEN: usize = 0x100_0000;

/// Extension message: the state of the keyboard lights.
pub const QEMU_LED_STATE: u8 = 1;

/// Extension message: audio.
pub const QEMU_AUDIO: u8 = 2;

/// Audio starts, with its format.
pub const QEMU_AUDIO_START: u8 = 1;

/// Audio samples.
pub const QEMU_AUDIO_DATA: u8 = 2;

/// A message that took `used` bytes.
pub open spec fn message_done(
    scene: Scene,
    used: int,
    events: Seq<Event>,
    replies: Seq<u8>,
) -> Outcome {
    Outcome::Done { scene, used, events, replies, task: Task::Nothing }
}

fn turn(used: usize, events: Vec<VncEvent>, replies: Vec<u8>) -> (r: Turn)
    ensures
        r.used == used,
        event_views(r.events@) == event_views(events@),
        r.replies@ == replies@,
        r.work@ == Task::Nothing,
{
    Turn { used, events, replies, work: Work::Nothing }
}

impl Scene {
    /// The scene with the type of a message on record.
    pub open spec fn noted(self, kind: u8) -> Scene {
        Scene { last_msg_type: Some(kind), ..self }
    }
}

/// The start of an update: the number of its rectangles. An update without
/// rectangles counts as a frame in no encoding.
pub open spec fn update_message(s: Scene, m: Seq<u8>) -> Outcome {
    if m.len() < 4 {
        Outcome::Short
    } else {
        let n = u16_of(m, 2);
        let started = Scene { recent: Seq::empty(), pending: n, ..s };
        message_done(
            if n == 0 {
                Scene { stats: s.stats.after_frame((-1) as i32), ..started }
            } else {
                started
            },
            4,
            Seq::empty(),
            Seq::empty(),
        )
    }
}

/// How many bytes a text of the signed length `n` takes.
pub open spec fn text_size(n: i32) -> int {
    if n >= 0 {
        n as int
    } else {
        -(n as int)
    }
}

/// Cut text. A negative length announces an extended clipboard message.
pub open spec fn cut_text_message(s: Scene, m: Seq<u8>) -> Outcome {
    if m.len() < 8 {
        Outcome::Short
    } else {
        let n = i32_of(m, 4);
        let size = text_size(n);
        if size > MAX_CUT_TEXT_LEN {
            Outcome::Bad(
                Failure::Protocol(
                    if n >= 0 {
                        "ServerCutText length "@ + decimal_text(size as nat) + " exceeds limit"@
                    } else {
                        "ExtendedClipboard data length "@ + decimal_text(size as nat)
                            + " exceeds limit"@
                    },
                ),
                8,
            )
        } else if m.len() < 8 + size {
            Outcome::Short
        } else {
            let data = m.subrange(8, 8 + size);
            if n >= 0 {
                message_done(s, 8 + size, seq![Event::CutText(lossy_text(data))], Seq::empty())
            } else {
                match message_of(data, plain_of(data)) {
                    Err(f) => Outcome::Bad(f, 8 + size),
                    Ok(message) => message_done(
                        s,
                        8 + size,
                        seq![Event::ClipboardData(message)],
                        Seq::empty(),
                    ),
                }
            }
        }
    }
}

/// The flags of the answer to a fence: those about order that are known; the
/// request and everything unknown is cleared.
pub open spec fn echo_flags(flags: u32) -> u32 {
    flags & (FENCE_FLAG_BLOCK_BEFORE | FENCE_FLAG_BLOCK_AFTER | FENCE_FLAG_SYNC_NEXT)
}

/// A fence, which is answered where the server asks for it.
pub open spec fn fence_message(s: Scene, m: Seq<u8>) -> Outcome {
    if m.len() < 9 || m.len() < 9 + m[8] {
        Outcome::Short
    } else {
        let flags = u32_of(m, 4);
        let data = m.subrange(9, 9 + m[8]);
        message_done(
            s,
            9 + m[8],
            seq![Event::Fence { flags, data }],
            if flags & FENCE_FLAG_REQUEST != 0 {
                fence(echo_flags(flags), data)
            } else {
                Seq::empty()
            },
        )
    }
}

/// An answer to a fence never asks for an answer, and keeps only the three
/// flags about order.
pub proof fn lemma_echo_clears_the_request(flags: u32)
    ensures
        echo_flags(flags) & FENCE_FLAG_REQUEST == 0,
        echo_flags(flags) <= 7,
        flags <= 7 ==> echo_flags(flags) == flags,
{
    assert((flags & (1u32 | 2u32 | 4u32)) & 0x8000_0000u32 == 0 && (flags & (1u32 | 2u32 | 4u32))
        <= 7 && (flags <= 7 ==> (flags & (1u32 | 2u32 | 4u32)) == flags)) by (bit_vector);
}

/// Why a chunk of audio is refused.
pub open spec fn audio_failure(n: u32) -> Failure {
    Failure::Protocol("QEMU audio length "@ + decimal_text(n as nat) + " exceeds limit"@)
}

/// Audio: a start with its format and first samples, or more samples.
pub open spec fn audio_message(s: Scene, m: Seq<u8>) -> Outcome {
    if m.len() < 3 {
        Outcome::Short
    } else if m[2] == QEMU_AUDIO_START {
        if m.len() < 13 {
            Outcome::Short
        } else {
            let n = u32_of(m, 9);
            if n > MAX_QEMU_AUDIO_LEN {
                Outcome::Bad(audio_failure(n), 13)
            } else if m.len() < 13 + n {
                Outcome::Short
            } else {
                message_done(
                    s,
                    13 + n,
                    seq![
                        Event::Audio {
                            sample_rate: u32_of(m, 3),
                            channels: m[7],
                            bits_per_sample: m[8],
                            data: m.subrange(13, 13 + n),
                        },
                    ],
                    Seq::empty(),
                )
            }
        }
    } else if m[2] == QEMU_AUDIO_DATA {
        if m.len() < 7 {
            Outcome::Short
        } else {
            let n = u32_of(m, 3);
            if n > MAX_QEMU_AUDIO_LEN {
                Outcome::Bad(audio_failure(n), 7)
            } else if m.len() < 7 + n {
                Outcome::Short
            } else {
                message_done(
                    s,
                    7 + n,
                    seq![
                        Event::Audio {
                            sample_rate: 0,
                            channels: 0,
                            bits_per_sample: 0,
                            data: m.subrange(7, 7 + n),
                        },
                    ],
                    Seq::empty(),
                )
            }
        }
    } else {
        message_done(s, 3, Seq::empty(), Seq::empty())
    }
}

/// An extension message. One that is not known takes one byte more.
pub open spec fn qemu_message(s: Scene, m: Seq<u8>) -> Outcome {
    if m.len() < 2 {
        Outcome::Short
    } else if m[1] == QEMU_AUDIO {
        audio_message(s, m)
    } else if m.len() < 3 {
        Outcome::Short
    } else {
        message_done(
            s,
            3,
            if m[1] == QEMU_LED_STATE {
                seq![
                    Event::LedState {
                        scroll_lock: m[2] % 2 == 1,
                        num_lock: m[2] / 2 % 2 == 1,
                        caps_lock: m[2] / 4 % 2 == 1,
                    },
                ]
            } else {
                Seq::empty()
            },
            Seq::empty(),
        )
    }
}

/// The answer of an encoder that is not ready. The offer only names HEVC.
pub open spec fn degenerate_answer() -> MediaStreamAnswer {
    MediaStreamAnswer { canvas_width: 0, canvas_height: 0, tile_count: 0, codec: Codec::Hevc }
}

/// A media answer.
pub open spec fn media_message(s: Scene, m: Seq<u8>) -> Outcome {
    if m.len() < 5 || m.len() < 5 + u16_of(m, 3) {
        Outcome::Short
    } else {
        let end = 5 + u16_of(m, 3) as int;
        message_done(
            s,
            end,
            seq![
                Event::MediaStreamAnswer(
                    match answer_from(m.subrange(1, end), 0) {
                        Some(answer) => answer,
                        None => degenerate_answer(),
                    },
                ),
            ],
            Seq::empty(),
        )
    }
}

/// A status message; the one about the clipboard is reported.
pub open spec fn status_message(s: Scene, m: Seq<u8>) -> Outcome {
    if m.len() < 8 {
        Outcome::Short
    } else {
        message_done(
            s,
            8,
            if u16_of(m, 6) == 2 {
                seq![Event::ClipboardChanged]
            } else {
                Seq::empty()
            },
            Seq::empty(),
        )
    }
}

/// A signed number that may be missing, as a mathematical one.
pub open spec fn wide_option(o: Option<i32>) -> Option<int> {
    match o {
        Some(n) => Some(n as int),
        None => None,
    }
}

/// A byte that may be missing, as a mathematical number.
pub open spec fn wide_byte(o: Option<u8>) -> Option<int> {
    match o {
        Some(n) => Some(n as int),
        None => None,
    }
}

/// Why a message type that is not known is refused. The text says what came
/// before, since such a type often means that an earlier message was read wrong.
pub open spec fn unknown_message(s: Scene, kind: u8) -> Failure {
    Failure::Protocol(
        "Unknown server message type: "@ + decimal_text(kind as nat) + " (last_msg_type="@
            + option_text(wide_byte(s.last_msg_type)) + ", last_encoding="@ + option_text(
            wide_option(s.last_encoding),
        ) + ", recent_encodings="@ + list_text(wide_numbers(s.recent)) + ")"@,
    )
}

/// What the message at the front of the input means.
pub open spec fn message_outcome(s: Scene, m: Seq<u8>) -> Outcome {
    if m.len() == 0 {
        Outcome::Short
    } else {
        let kind = m[0];
        let n = s.noted(kind);
        if kind == protocol::SERVER_FRAMEBUFFER_UPDATE {
            update_message(n, m)
        } else if kind == protocol::SERVER_BELL {
            message_done(n, 1, seq![Event::Bell], Seq::empty())
        } else if kind == protocol::SERVER_SERVER_CUT_TEXT {
            cut_text_message(n, m)
        } else if kind == protocol::SERVER_END_OF_CONTINUOUS_UPDATES_LEGACY || kind
            == protocol::SERVER_END_OF_CONTINUOUS_UPDATES {
            message_done(n, 1, seq![Event::EndOfContinuousUpdates], Seq::empty())
        } else if kind == protocol::SERVER_FENCE_LEGACY || kind == protocol::SERVER_FENCE {
            fence_message(n, m)
        } else if kind == protocol::SERVER_QEMU {
            qemu_message(n, m)
        } else if kind == apple::MEDIA_STREAM_OPTIONS {
            media_message(n, m)
        } else if kind == apple::MISC_STATUS {
            status_message(n, m)
        } else {
            Outcome::Bad(unknown_message(s, kind), 1)
        }
    }
}

/// The desktop once the message at the front of the input is refused. Of the
/// known messages, clipboard texts and extensions can be refused for what they
/// hold; they stay on record by their type.
pub open spec fn message_refused(s: Scene, m: Seq<u8>) -> Scene {
    if m[0] == protocol::SERVER_SERVER_CUT_TEXT || m[0] == protocol::SERVER_QEMU {
        s.noted(m[0])
    } else {
        s
    }
}

/// A message never leaves work on a rectangle behind.
pub proof fn lemma_messages_leave_no_work(s: Scene, m: Seq<u8>)
    ensures
        message_outcome(s, m) matches Outcome::Done { task, .. } ==> task is Nothing,
{
}

fn read_cut_text(m: &[u8], Ghost(s): Ghost<Scene>) -> (r: Result<Option<Turn>, Refusal>)
    ensures
        turn_reports(r, s, s, cut_text_message(s, m@)),
        r matches Ok(Some(t)) ==> t.used <= m@.len(),
        r matches Err(e) ==> e.used <= m@.len(),
{
    if m.len() < 8 {
        return Ok(None);
    }
    let n: i32 = i32_at(m, 4);
    let size: u64 = if n >= 0 {
        n as u64
    } else {
        (-(n as i64)) as u64
    };
    if size > MAX_CUT_TEXT_LEN as u64 {
        let t = concat_text(
            if n >= 0 {
                "ServerCutText length "
            } else {
                "ExtendedClipboard data length "
            },
            decimal(size).as_str(),
        );
        let error = VncError::Protocol(concat_text(t.as_str(), " exceeds limit"));
        return Err(Refusal { error, used: 8 });
    }
    let end: usize = 8 + size as usize;
    if m.len() < end {
        return Ok(None);
    }
    let data = slice(m, 8, end);
    let event = if n >= 0 {
        VncEvent::CutText(lossy_string(data))
    } else {
        match decode_message(data) {
            Err(error) => {
                return Err(Refusal { error, used: end });
            },
            Ok(message) => VncEvent::ClipboardData(message),
        }
    };
    Ok(Some(turn(end, one_event(event), Vec::new())))
}

fn read_fence(m: &[u8], Ghost(s): Ghost<Scene>) -> (r: Result<Option<Turn>, Refusal>)
    ensures
        turn_reports(r, s, s, fence_message(s, m@)),
        r matches Ok(Some(t)) ==> t.used <= m@.len(),
        r matches Err(e) ==> e.used <= m@.len(),
{
    if m.len() < 9 {
        return Ok(None);
    }
    let end: usize = 9 + m[8] as usize;
    if m.len() < end {
        return Ok(None);
    }
    let flags: u32 = u32_at(m, 4);
    let data = to_vec(slice(m, 9, end));
    let replies = if flags & FENCE_FLAG_REQUEST != 0 {
        let echo: u32 = flags & (FENCE_FLAG_BLOCK_BEFORE | FENCE_FLAG_BLOCK_AFTER
            | FENCE_FLAG_SYNC_NEXT);
        build_fence(echo, &data)
    } else {
        Vec::new()
    };
    Ok(Some(turn(end, one_event(VncEvent::Fence { flags, data }), replies)))
}

fn audio_refused(n: u32) -> (r: VncError)
    ensures
        r@ == audio_failure(n),
{
    let t = concat_text("QEMU audio length ", decimal(n as u64).as_str());
    VncError::Protocol(concat_text(t.as_str(), " exceeds limit"))
}

fn read_audio(m: &[u8], Ghost(s): Ghost<Scene>) -> (r: Result<Option<Turn>, Refusal>)
    ensures
        turn_reports(r, s, s, audio_message(s, m@)),
        r matches Ok(Some(t)) ==> t.used <= m@.len(),
        r matches Err(e) ==> e.used <= m@.len(),
{
    if m.len() < 3 {
        return Ok(None);
    }
    let start: bool = m[2] == QEMU_AUDIO_START;
    if !start && m[2] != QEMU_AUDIO_DATA {
        return Ok(Some(turn(3, no_events(), Vec::new())));
    }
    let head: usize = if start {
        13
    } else {
        7
    };
    if m.len() < head {
        return Ok(None);
    }
    let n: u32 = u32_at(m, head - 4);
    if n as usize > MAX_QEMU_AUDIO_LEN {
        return Err(Refusal { error: audio_refused(n), used: head });
    }
    if m.len() - head < n as usize {
        return Ok(None);
    }
    let end: usize = head + n as usize;
    let data = to_vec(slice(m, head, end));
    let event = if start {
        VncEvent::Audio {
            sample_rate: u32_at(m, 3),
            channels: m[7],
            bits_per_sample: m[8],
            data,
        }
    } else {
        VncEvent::Audio { sample_rate: 0, channels: 0, bits_per_sample: 0, data }
    };
    Ok(Some(turn(end, one_event(event), Vec::new())))
}

fn read_qemu(m: &[u8], Ghost(s): Ghost<Scene>) -> (r: Result<Option<Turn>, Refusal>)
    ensures
        turn_reports(r, s, s, qemu_message(s, m@)),
        r matches Ok(Some(t)) ==> t.used <= m@.len(),
        r matches Err(e) ==> e.used <= m@.len(),
{
    if m.len() < 2 {
        return Ok(None);
    }
    if m[1] == QEMU_AUDIO {
        return read_audio(m, Ghost(s));
    }
    if m.len() < 3 {
        return Ok(None);
    }
    let events = if m[1] == QEMU_LED_STATE {
        one_event(
            VncEvent::LedState {
                scroll_lock: m[2] % 2 == 1,
                num_lock: m[2] / 2 % 2 == 1,
                caps_lock: m[2] / 4 % 2 == 1,
            },
        )
    } else {
        no_events()
    };
    Ok(Some(turn(3, events, Vec::new())))
}

fn read_media(m: &[u8], Ghost(s): Ghost<Scene>) -> (r: Result<Option<Turn>, Refusal>)
    ensures
        turn_reports(r, s, s, media_message(s, m@)),
        r matches Ok(Some(t)) ==> t.used <= m@.len(),
        r matches Err(e) ==> e.used <= m@.len(),
{
    if m.len() < 5 {
        return Ok(None);
    }
    let end: usize = 5 + u16_at(m, 3) as usize;
    if m.len() < end {
        return Ok(None);
    }
    let answer = match parse_media_stream_answer(slice(m, 1, end)) {
        Some(answer) => answer,
        None => MediaStreamAnswer {
            canvas_width: 0,
            canvas_height: 0,
            tile_count: 0,
            codec: Codec::Hevc,
        },
    };
    Ok(Some(turn(end, one_event(VncEvent::MediaStreamAnswer(answer)), Vec::new())))
}

fn read_status(m: &[u8], Ghost(s): Ghost<Scene>) -> (r: Result<Option<Turn>, Refusal>)
    ensures
        turn_reports(r, s, s, status_message(s, m@)),
        r matches Ok(Some(t)) ==> t.used <= m@.len(),
        r matches Err(e) ==> e.used <= m@.len(),
{
    if m.len() < 8 {
        return Ok(None);
    }
    let events = if u16_at(m, 6) == 2 {
        one_event(VncEvent::ClipboardChanged)
    } else {
        no_events()
    };
    Ok(Some(turn(8, events, Vec::new())))
}

impl Desktop {
    fn unknown_message(&self, kind: u8) -> (r: VncError)
        ensures
            r@ == unknown_message(self@, kind),
    {
        let t = concat_text("Unknown server message type: ", decimal(kind as u64).as_str());
        let t = concat_text(t.as_str(), " (last_msg_type=");
        let last: Option<i64> = match self.last_msg_type {
            Some(n) => Some(n as i64),
            None => None,
        };
        let t = concat_text(t.as_str(), option(last).as_str());
        let t = concat_text(t.as_str(), ", last_encoding=");
        let last: Option<i64> = match self.last_encoding {
            Some(n) => Some(n as i64),
            None => None,
        };
        let t = concat_text(t.as_str(), option(last).as_str());
        let t = concat_text(t.as_str(), ", recent_encodings=");
        let t = concat_text(t.as_str(), number_list(&self.recent_encodings).as_str());
        VncError::Protocol(concat_text(t.as_str(), ")"))
    }

    fn start_update(&mut self, m: &[u8]) -> (r: Result<Option<Turn>, Refusal>)
        requires
            old(self).wf(),
        ensures
            turn_reports(r, old(self)@, final(self)@, update_message(old(self)@, m@)),
            final(self).wf(),
            r matches Ok(Some(t)) ==> t.used <= m@.len(),
            r matches Err(e) ==> e.used <= m@.len(),
    {
        if m.len() < 4 {
            return Ok(None);
        }
        let n: u16 = u16_at(m, 2);
        self.recent_encodings = Vec::new();
        self.pending = n;
        if n == 0 {
            self.stats.record_frame(-1);
        }
        assert(self@.recent =~= Seq::<i32>::empty());
        Ok(Some(turn(4, no_events(), Vec::new())))
    }

    /// Takes one message off the front of the input. `None` asks for more bytes.
    pub fn advance_message(&mut self, input: &[u8]) -> (r: Result<Option<Turn>, Refusal>)
        requires
            old(self).wf(),
        ensures
            turn_reports(r, old(self)@, final(self)@, message_outcome(old(self)@, input@)),
            r is Err ==> final(self)@ == message_refused(old(self)@, input@),
            final(self).wf(),
            r matches Ok(Some(t)) ==> t.used <= input@.len(),
            r matches Err(e) ==> e.used <= input@.len(),
    {
        if input.len() == 0 {
            return Ok(None);
        }
        let kind: u8 = input[0];
        let before: Option<u8> = self.last_msg_type;
        let ghost start = self@;
        let ghost noted = start.noted(kind);
        let r = if kind == protocol::SERVER_FRAMEBUFFER_UPDATE {
            self.last_msg_type = Some(kind);
            self.start_update(input)
        } else if kind == protocol::SERVER_BELL {
            Ok(Some(turn(1, one_event(VncEvent::Bell), Vec::new())))
        } else if kind == protocol::SERVER_SERVER_CUT_TEXT {
            read_cut_text(input, Ghost(noted))
        } else if kind == protocol::SERVER_END_OF_CONTINUOUS_UPDATES_LEGACY || kind
            == protocol::SERVER_END_OF_CONTINUOUS_UPDATES {
            Ok(Some(turn(1, one_event(VncEvent::EndOfContinuousUpdates), Vec::new())))
        } else if kind == protocol::SERVER_FENCE_LEGACY || kind == protocol::SERVER_FENCE {
            read_fence(input, Ghost(noted))
        } else if kind == protocol::SERVER_QEMU {
            read_qemu(input, Ghost(noted))
        } else if kind == apple::MEDIA_STREAM_OPTIONS {
            read_media(input, Ghost(noted))
        } else if kind == apple::MISC_STATUS {
            read_status(input, Ghost(noted))
        } else {
            return Err(Refusal { error: self.unknown_message(kind), used: 1 });
        };
        match r {
            Ok(Some(t)) => {
                self.last_msg_type = Some(kind);
                Ok(Some(t))
            },
            Ok(None) => {
                self.last_msg_type = before;
                Ok(None)
            },
            Err(e) => {
                self.last_msg_type = Some(kind);
                Err(e)
            },
        }
    }
}

} // verus!
