//! What a message, or a rectangle that is no picture, reports.

use vstd::prelude::*;

use super::apple_rects::{layout_applied, layout_body, rearm};
use super::pictures::{announces, lemma_header};
use super::rects::body_outcome;
use super::server::echo_flags;
use super::{outcome, BodyOutcome, Outcome, Scene, Task, Transport};
use crate::apple_control::{layout_of, Layout};
use crate::apple_record_layer::auto_framebuffer_update;
use crate::cursor::{merged_pixels, shape_len, shape_of};
use crate::event::Event;
use crate::inflate::inflated_upto;
use crate::messages::{
    lemma_fence_layout, long_at, screen_at, screen_list, short_at, update_request, Area, RectHeader,
    Screen,
};
use crate::text::lossy_text;
use crate::wire::{u16_of, u32_of};

verus! {

/// What a message says that took `used` bytes, is not answered, and leaves the
/// desktop as it was but for the record of its type.
pub open spec fn reported(s: Scene, o: Outcome, kind: u8, used: int) -> Option<Seq<Event>> {
    match o {
        Outcome::Done { scene, used: n, events, replies, task } => if scene == (Scene {
            last_msg_type: Some(kind),
            ..s
        }) && n == used && replies.len() == 0 && task == Task::Nothing {
            Some(events)
        } else {
            None
        },
        _ => None,
    }
}

/// An update announces its rectangles: as many are then to come, and nothing
/// else changes but the record of types and encodings. One without rectangles
/// is complete at once.
#[verifier::spinoff_prover]
pub proof fn lemma_update_announces_rectangles(s: Scene, input: Seq<u8>, ends: Seq<usize>)
    requires
        s.pending == 0,
        input.len() >= 4,
        input[0] == 0,
    ensures
        outcome(s, input, ends) matches Outcome::Done { scene, used, events, replies, task } && {
            &&& scene.pending == short_at(input, 2)
            &&& scene.recent.len() == 0
            &&& scene == (Scene {
                last_msg_type: Some(0u8),
                pending: scene.pending,
                recent: scene.recent,
                stats: scene.stats,
                ..s
            })
            &&& scene.pending > 0 ==> scene.stats == s.stats
            &&& used == 4
            &&& events.len() == 0
            &&& replies.len() == 0
            &&& task == Task::Nothing
        },
{
    assert(outcome(s, input, ends)->Done_scene.recent =~= Seq::empty());
}

/// A bell is one byte, and is reported as one.
pub proof fn lemma_bell_is_reported(s: Scene, input: Seq<u8>, ends: Seq<usize>)
    requires
        s.pending == 0,
        input.len() >= 1,
        input[0] == 2,
    ensures
        reported(s, outcome(s, input, ends), 2, 1) == Some(seq![Event::Bell]),
{
}

/// The end of continuous updates is one byte, of either type.
pub proof fn lemma_end_of_updates_is_reported(s: Scene, input: Seq<u8>, ends: Seq<usize>)
    requires
        s.pending == 0,
        input.len() >= 1,
        input[0] == 4 || input[0] == 150,
    ensures
        reported(s, outcome(s, input, ends), input[0], 1) == Some(
            seq![Event::EndOfContinuousUpdates],
        ),
{
}

/// Cut text of a length that is not negative is reported as the text of exactly
/// its bytes.
pub proof fn lemma_cut_text_is_reported(s: Scene, input: Seq<u8>, ends: Seq<usize>, data: Seq<u8>)
    requires
        s.pending == 0,
        input.len() >= 8 + data.len(),
        input[0] == 3,
        long_at(input, 4) == data.len(),
        data.len() <= 0xa0_0000,
        input.subrange(8, 8 + data.len() as int) == data,
    ensures
        reported(s, outcome(s, input, ends), 3, 8 + data.len() as int) == Some(
            seq![Event::CutText(lossy_text(data))],
        ),
{
    assert(u32_of(input, 4) == data.len());
}

/// A fence is reported with its flags and its payload. One that asks for an
/// answer gets a fence with the same payload, without the request and without
/// flags that are not known; any other gets none.
#[verifier::spinoff_prover]
pub proof fn lemma_fence_is_answered(
    s: Scene,
    input: Seq<u8>,
    ends: Seq<usize>,
    flags: u32,
    data: Seq<u8>,
)
    requires
        s.pending == 0,
        input.len() >= 9 + data.len(),
        input[0] == 5 || input[0] == 248,
        long_at(input, 4) == flags,
        input[8] == data.len(),
        input.subrange(9, 9 + data.len() as int) == data,
    ensures
        outcome(s, input, ends) matches Outcome::Done { scene, used, events, replies, task } && {
            &&& scene == (Scene { last_msg_type: Some(input[0]), ..s })
            &&& used == 9 + data.len()
            &&& events == seq![Event::Fence { flags, data }]
            &&& task == Task::Nothing
            &&& flags < 0x8000_0000 ==> replies.len() == 0
            &&& flags >= 0x8000_0000 ==> {
                &&& replies.len() == 9 + data.len()
                &&& replies[0] == 248
                &&& long_at(replies, 4) == flags % 8
                &&& replies[8] == data.len()
                &&& replies.skip(9) == data
            }
        },
{
    assert(u32_of(input, 4) == flags);
    assert((flags & 0x8000_0000u32 != 0 <==> flags >= 0x8000_0000u32) && flags & (1u32 | 2u32 | 4u32)
        == flags % 8) by (bit_vector);
    lemma_fence_layout(echo_flags(flags), data);
}

/// The state of the keyboard's lamps: the lowest bit is Scroll Lock, the next
/// Num Lock, and the third Caps Lock.
#[verifier::spinoff_prover]
pub proof fn lemma_lamps_are_reported(
    s: Scene,
    input: Seq<u8>,
    ends: Seq<usize>,
    scroll: bool,
    num: bool,
    caps: bool,
)
    requires
        s.pending == 0,
        input.len() >= 3,
        input[0] == 255,
        input[1] == 1,
        input[2] == (if scroll {
            1int
        } else {
            0
        }) + (if num {
            2int
        } else {
            0
        }) + (if caps {
            4int
        } else {
            0
        }),
    ensures
        reported(s, outcome(s, input, ends), 255, 3) == Some(
            seq![Event::LedState { scroll_lock: scroll, num_lock: num, caps_lock: caps }],
        ),
{
}

/// Audio that starts is reported with its rate, its channels, its bits and its
/// samples.
#[verifier::spinoff_prover]
pub proof fn lemma_audio_start_is_reported(
    s: Scene,
    input: Seq<u8>,
    ends: Seq<usize>,
    rate: u32,
    data: Seq<u8>,
)
    requires
        s.pending == 0,
        data.len() <= 0x100_0000,
        input.len() >= 13 + data.len(),
        input[0] == 255,
        input[1] == 2,
        input[2] == 1,
        long_at(input, 3) == rate,
        long_at(input, 9) == data.len(),
        input.subrange(13, 13 + data.len() as int) == data,
    ensures
        reported(s, outcome(s, input, ends), 255, 13 + data.len() as int) == Some(
            seq![
                Event::Audio {
                    sample_rate: rate,
                    channels: input[7],
                    bits_per_sample: input[8],
                    data,
                },
            ],
        ),
{
    assert(u32_of(input, 3) == rate);
    assert(u32_of(input, 9) == data.len());
}

/// Audio that goes on is reported with its samples.
#[verifier::spinoff_prover]
pub proof fn lemma_audio_data_is_reported(
    s: Scene,
    input: Seq<u8>,
    ends: Seq<usize>,
    data: Seq<u8>,
)
    requires
        s.pending == 0,
        data.len() <= 0x100_0000,
        input.len() >= 7 + data.len(),
        input[0] == 255,
        input[1] == 2,
        input[2] == 2,
        long_at(input, 3) == data.len(),
        input.subrange(7, 7 + data.len() as int) == data,
    ensures
        reported(s, outcome(s, input, ends), 255, 7 + data.len() as int) == Some(
            seq![
                Event::Audio { sample_rate: 0, channels: 0, bits_per_sample: 0, data },
            ],
        ),
{
    assert(u32_of(input, 3) == data.len());
}

/// A status message is eight bytes, and number 2 says that the clipboard has
/// changed.
pub proof fn lemma_status_is_reported(s: Scene, input: Seq<u8>, ends: Seq<usize>)
    requires
        s.pending == 0,
        input.len() >= 8,
        input[0] == 0x14,
    ensures
        reported(s, outcome(s, input, ends), 0x14, 8) == Some(
            if short_at(input, 6) == 2 {
                seq![Event::ClipboardChanged]
            } else {
                Seq::empty()
            },
        ),
{
    assert(u16_of(input, 6) == short_at(input, 6));
}

/// A message of any other type is refused at its first byte.
pub proof fn lemma_unknown_type_is_refused(s: Scene, input: Seq<u8>, ends: Seq<usize>)
    requires
        s.pending == 0,
        input.len() >= 1,
        input[0] == 1 || 6 <= input[0] < 0x14 || 0x14 < input[0] < 0x1c || 0x1c < input[0] < 150
            || 150 < input[0] < 248 || 248 < input[0] < 255,
    ensures
        outcome(s, input, ends) matches Outcome::Bad(_, used) && used == 1,
{
}

/// The scene and the events of a rectangle that is no picture, where it is
/// complete at once and is not answered. The event of the rectangle's area
/// comes last.
pub open spec fn noticed(o: Outcome, x: int, y: int, w: int, h: int, used: int) -> Option<
    (Scene, Seq<Event>),
> {
    match o {
        Outcome::Done { scene, used: n, events, replies, task } => if n == used && events.len() > 0
            && (events.last() matches Event::FramebufferUpdate { x: a, y: b, width: c, height: d }
            && a == x && b == y && c == w && d == h) && replies.len() == 0 && task == Task::Nothing {
            Some((scene, events.drop_last()))
        } else {
            None
        },
        _ => None,
    }
}

#[verifier::rlimit(30)]
#[verifier::spinoff_prover]
proof fn lemma_noticed(
    s: Scene,
    input: Seq<u8>,
    ends: Seq<usize>,
    x: int,
    y: int,
    w: int,
    h: int,
    code: int,
    after: Scene,
    used: int,
    events: Seq<Event>,
)
    requires
        s.pending > 0,
        announces(input, x, y, w, h, code),
        w <= 16384,
        h <= 16384,
        body_outcome(
            s.rect_opened(RectHeader::read(input)),
            RectHeader::read(input),
            input.skip(12),
            ends,
        ) == (BodyOutcome::Done {
            scene: after,
            used,
            events,
            replies: Seq::empty(),
            quiet: false,
            task: Task::Nothing,
        }),
    ensures
        noticed(outcome(s, input, ends), x, y, w, h, used + 12) == Some(
            (after.rect_closed(), events),
        ),
{
    lemma_header(input, x, y, w, h, code);
    let all = outcome(s, input, ends)->Done_events;
    assert(all.drop_last() =~= events);
}

/// A rectangle that sets the size of the desktop gives it the size of the
/// rectangle, without a body, and reports it.
#[verifier::rlimit(30)]
#[verifier::spinoff_prover]
pub proof fn lemma_size_is_taken(
    s: Scene,
    input: Seq<u8>,
    ends: Seq<usize>,
    x: int,
    y: int,
    w: int,
    h: int,
)
    requires
        s.pending > 0,
        announces(input, x, y, w, h, 0x1_0000_0000 - 223),
        w <= 16384,
        h <= 16384,
    ensures
        noticed(outcome(s, input, ends), x, y, w, h, 12) matches Some((scene, events)) && {
            &&& scene.width == w
            &&& scene.height == h
            &&& scene.image.width == w
            &&& scene.image.height == h
            &&& scene.image.data.len() == w * h * 4
            &&& forall|i: int|
                0 <= i < s.image.data.len() && i < w * h * 4 ==> #[trigger] scene.image.data[i]
                    == s.image.data[i]
            &&& forall|i: int|
                s.image.data.len() <= i < w * h * 4 ==> #[trigger] scene.image.data[i] == 0
            &&& events == seq![Event::GeometryChanged { width: w as u16, height: h as u16 }]
        },
{
    lemma_header(input, x, y, w, h, 0x1_0000_0000 - 223);
    let opened = s.rect_opened(RectHeader::read(input));
    lemma_noticed(
        s,
        input,
        ends,
        x,
        y,
        w,
        h,
        0x1_0000_0000 - 223,
        opened.with_size(w as u16, h as u16),
        0,
        seq![Event::GeometryChanged { width: w as u16, height: h as u16 }],
    );
}

/// A rectangle that moves the pointer has no body, and reports its place.
#[verifier::spinoff_prover]
pub proof fn lemma_pointer_place_is_reported(
    s: Scene,
    input: Seq<u8>,
    ends: Seq<usize>,
    x: int,
    y: int,
    w: int,
    h: int,
)
    requires
        s.pending > 0,
        announces(input, x, y, w, h, 0x1_0000_0000 - 240),
        w <= 16384,
        h <= 16384,
    ensures
        noticed(outcome(s, input, ends), x, y, w, h, 12) matches Some((scene, events))
            && scene.image == s.image && events == seq![
            Event::CursorPos { x: x as u16, y: y as u16 },
        ],
{
    lemma_header(input, x, y, w, h, 0x1_0000_0000 - 240);
    lemma_noticed(
        s,
        input,
        ends,
        x,
        y,
        w,
        h,
        0x1_0000_0000 - 240,
        s.rect_opened(RectHeader::read(input)),
        0,
        seq![Event::CursorPos { x: x as u16, y: y as u16 }],
    );
}

/// A rectangle with a name of the desktop sets the name to the text of its bytes
/// and reports it.
#[verifier::rlimit(30)]
#[verifier::spinoff_prover]
pub proof fn lemma_name_is_taken(
    s: Scene,
    input: Seq<u8>,
    ends: Seq<usize>,
    x: int,
    y: int,
    w: int,
    h: int,
    data: Seq<u8>,
)
    requires
        s.pending > 0,
        announces(input, x, y, w, h, 0x1_0000_0000 - 307),
        w <= 16384,
        h <= 16384,
        data.len() <= 65536,
        input.len() >= 16 + data.len(),
        long_at(input, 12) == data.len(),
        input.subrange(16, 16 + data.len() as int) == data,
    ensures
        noticed(outcome(s, input, ends), x, y, w, h, 16 + data.len() as int) matches Some(
            (scene, events),
        ) && scene.image == s.image && scene.name == lossy_text(data) && events == seq![
            Event::NameChanged(lossy_text(data)),
        ],
{
    lemma_header(input, x, y, w, h, 0x1_0000_0000 - 307);
    let b = input.skip(12);
    assert(u32_of(b, 0) == data.len());
    assert(b.subrange(4, 4 + data.len() as int) =~= data);
    let opened = s.rect_opened(RectHeader::read(input));
    lemma_noticed(
        s,
        input,
        ends,
        x,
        y,
        w,
        h,
        0x1_0000_0000 - 307,
        Scene { name: lossy_text(data), ..opened },
        4 + data.len() as int,
        seq![Event::NameChanged(lossy_text(data))],
    );
}

/// A screen on the wire: its number, column, row, width, height and flags.
pub open spec fn screen_bytes_are(s: Seq<u8>, at: int, screen: Screen) -> bool {
    &&& long_at(s, at) == screen.id
    &&& short_at(s, at + 4) == screen.x
    &&& short_at(s, at + 6) == screen.y
    &&& short_at(s, at + 8) == screen.width
    &&& short_at(s, at + 10) == screen.height
    &&& long_at(s, at + 12) == screen.flags
}

proof fn lemma_screen(s: Seq<u8>, at: int, screen: Screen)
    requires
        screen_bytes_are(s, at, screen),
    ensures
        screen_at(s, at) == screen,
{
}

proof fn lemma_screen_list(input: Seq<u8>, b: Seq<u8>, screens: Seq<Screen>)
    requires
        b == input.skip(12),
        input.len() >= 16 + 16 * screens.len(),
        input[12] == screens.len(),
        forall|i: int|
            0 <= i < screens.len() ==> screen_bytes_are(input, 16 + 16 * i, #[trigger] screens[i]),
    ensures
        b[0] == screens.len(),
        screen_list(b) == screens,
{
    let list = screen_list(b);
    assert(b[0] == screens.len());
    assert forall|i: int| 0 <= i < screens.len() implies list[i] == screens[i] by {
        let at = 4 + 16 * i;
        assert(screen_bytes_are(input, 12 + at, screens[i]));
        assert forall|k: int| 0 <= k < 16 implies #[trigger] b[at + k] == input[12 + at + k] by {}
        assert(b[at + 0] == input[12 + at]);
        lemma_screen(b, at, screens[i]);
    }
    assert(list =~= screens);
}

/// A rectangle with a list of screens gives the desktop the size of the
/// rectangle and reports it, and then the screens, in their order.
#[verifier::rlimit(30)]
#[verifier::spinoff_prover]
pub proof fn lemma_screens_are_reported(
    s: Scene,
    input: Seq<u8>,
    ends: Seq<usize>,
    x: int,
    y: int,
    w: int,
    h: int,
    screens: Seq<Screen>,
)
    requires
        s.pending > 0,
        announces(input, x, y, w, h, 0x1_0000_0000 - 308),
        w <= 16384,
        h <= 16384,
        input.len() >= 16 + 16 * screens.len(),
        input[12] == screens.len(),
        forall|i: int|
            0 <= i < screens.len() ==> screen_bytes_are(input, 16 + 16 * i, #[trigger] screens[i]),
    ensures
        noticed(outcome(s, input, ends), x, y, w, h, 16 + 16 * screens.len() as int) matches Some(
            (scene, events),
        ) && {
            &&& scene.width == w
            &&& scene.height == h
            &&& scene.image.width == w
            &&& scene.image.height == h
            &&& events == seq![
                Event::GeometryChanged { width: w as u16, height: h as u16 },
                Event::ScreenLayout(screens),
            ]
        },
{
    lemma_header(input, x, y, w, h, 0x1_0000_0000 - 308);
    let b = input.skip(12);
    lemma_screen_list(input, b, screens);
    let opened = s.rect_opened(RectHeader::read(input));
    lemma_noticed(
        s,
        input,
        ends,
        x,
        y,
        w,
        h,
        0x1_0000_0000 - 308,
        opened.with_size(w as u16, h as u16),
        4 + 16 * screens.len() as int,
        seq![
            Event::GeometryChanged { width: w as u16, height: h as u16 },
            Event::ScreenLayout(screens),
        ],
    );
}

/// A rectangle with a cursor reports it: its size is that of the rectangle, its
/// hotspot the rectangle's place, and its pixels are those of the body, opaque
/// where the mask behind them shows them.
#[verifier::rlimit(30)]
#[verifier::spinoff_prover]
pub proof fn lemma_cursor_is_reported(
    s: Scene,
    input: Seq<u8>,
    ends: Seq<usize>,
    x: int,
    y: int,
    w: int,
    h: int,
    data: Seq<u8>,
)
    requires
        s.pending > 0,
        announces(input, x, y, w, h, 0x1_0000_0000 - 239),
        w <= 16384,
        h <= 16384,
        data.len() == w * h * s.format.pixel_len() + (w + 7) / 8 * h,
        input.len() >= 12 + data.len(),
        input.subrange(12, 12 + data.len() as int) == data,
    ensures
        noticed(outcome(s, input, ends), x, y, w, h, 12 + data.len() as int) matches Some(
            (scene, events),
        ) && scene.image == s.image && events == seq![
            Event::CursorShape(
                shape_of(w as u16, h as u16, x as u16, y as u16, data, s.format),
            ),
        ],
{
    lemma_header(input, x, y, w, h, 0x1_0000_0000 - 239);
    let b = input.skip(12);
    assert(b.take(data.len() as int) =~= data);
    assert(shape_len(w as nat, h as nat, s.format) == data.len());
    lemma_noticed(
        s,
        input,
        ends,
        x,
        y,
        w,
        h,
        0x1_0000_0000 - 239,
        s.rect_opened(RectHeader::read(input)),
        data.len() as int,
        seq![
            Event::CursorShape(
                shape_of(w as u16, h as u16, x as u16, y as u16, data, s.format),
            ),
        ],
    );
}

/// An H.264 access unit stands behind its length and four more bytes, and is
/// handed on as it came; its rectangle waits for the picture.
#[verifier::rlimit(30)]
#[verifier::spinoff_prover]
pub proof fn lemma_access_unit_is_handed_on(
    s: Scene,
    input: Seq<u8>,
    ends: Seq<usize>,
    x: int,
    y: int,
    w: int,
    h: int,
    data: Seq<u8>,
)
    requires
        s.pending > 0,
        announces(input, x, y, w, h, 50),
        w <= 16384,
        h <= 16384,
        0 < data.len() <= 65536,
        long_at(input, 12) == data.len(),
        input.len() >= 20 + data.len(),
        input.subrange(20, 20 + data.len() as int) == data,
    ensures
        outcome(s, input, ends) matches Outcome::Done { scene, used, events, replies, task } && {
            &&& used == 20 + data.len()
            &&& task == (Task::DecodeH264 { data })
            &&& scene.image == s.image
            &&& scene.pending == s.pending
            &&& scene.waiting matches Some(head) && head.x == x && head.y == y && head.width == w
                && head.height == h
            &&& events.len() == 0
            &&& replies.len() == 0
        },
{
    lemma_header(input, x, y, w, h, 50);
    let b = input.skip(12);
    assert(u32_of(b, 0) == data.len());
    assert(b.subrange(8, 8 + data.len() as int) =~= data);
    assert(w * h >= 0) by (nonlinear_arith)
        requires
            w >= 0,
            h >= 0,
    ;
}

/// New keys for the record layer are the 36 bytes behind the header of their
/// rectangle, and are handed on; nothing is reported. Without a record layer
/// they are refused.
#[verifier::rlimit(30)]
#[verifier::spinoff_prover]
pub proof fn lemma_new_keys_are_handed_on(
    s: Scene,
    input: Seq<u8>,
    ends: Seq<usize>,
    x: int,
    y: int,
    w: int,
    h: int,
)
    requires
        s.pending > 0,
        announces(input, x, y, w, h, 0x44f),
        w <= 16384,
        h <= 16384,
        input.len() >= 48,
    ensures
        s.transport == Transport::AppleHp ==> (outcome(s, input, ends) matches Outcome::Done {
            scene,
            used,
            events,
            replies,
            task,
        } && used == 48 && task == (Task::Rekey { body: input.subrange(12, 48) }) && scene.image
            == s.image && scene.pending == s.pending - 1 && events.len() == 0 && replies.len() == 0),
        s.transport != Transport::AppleHp ==> outcome(s, input, ends) is Bad,
{
    lemma_header(input, x, y, w, h, 0x44f);
    assert(input.skip(12).take(36) =~= input.subrange(12, 48));
}

/// The id of a stored cursor shows that cursor, with the place of the rectangle
/// as its hotspot; an id that is not known shows nothing.
#[verifier::rlimit(30)]
#[verifier::spinoff_prover]
pub proof fn lemma_stored_cursor_is_shown(
    s: Scene,
    input: Seq<u8>,
    ends: Seq<usize>,
    x: int,
    y: int,
    w: int,
    h: int,
    id: u32,
)
    requires
        s.pending > 0,
        announces(input, x, y, w, h, 0x450),
        w <= 16384,
        h <= 16384,
        input.len() >= 20,
        long_at(input, 12) == id,
        long_at(input, 16) == 0,
    ensures
        outcome(s, input, ends) matches Outcome::Done { scene, used, events, replies, task } && {
            &&& used == 20
            &&& scene.cursors == s.cursors
            &&& scene.image == s.image
            &&& task == Task::Nothing
            &&& replies.len() == 0
            &&& !s.cursors.contains_key(id as u64) ==> events.len() == 0
            &&& s.cursors.contains_key(id as u64) ==> events.len() == 1 && (
            events[0] matches Event::CursorShape(shape) && {
                let image = s.cursors[id as u64];
                &&& shape.width == image.width
                &&& shape.height == image.height
                &&& shape.hotspot_x == x
                &&& shape.hotspot_y == y
                &&& shape.pixels == image.pixels
                &&& forall|i: int| 0 <= i < shape.mask.len() ==> #[trigger] shape.mask[i] == 255
            })
        },
{
    lemma_header(input, x, y, w, h, 0x450);
    let b = input.skip(12);
    assert(u32_of(b, 0) == id);
    assert(u32_of(b, 4) == 0);
}

/// A cursor to store stands behind its id and its length. It is kept under the
/// id, in the colours that its payload inflates to, and shows nothing by itself.
#[verifier::rlimit(30)]
#[verifier::spinoff_prover]
pub proof fn lemma_cursor_is_stored(
    s: Scene,
    input: Seq<u8>,
    ends: Seq<usize>,
    x: int,
    y: int,
    w: int,
    h: int,
    id: u32,
    payload: Seq<u8>,
    plain: Seq<u8>,
)
    requires
        s.pending > 0,
        announces(input, x, y, w, h, 0x450),
        w <= 16384,
        h <= 16384,
        0 < payload.len() <= 65536,
        input.len() >= 20 + payload.len(),
        long_at(input, 12) == id,
        long_at(input, 16) == payload.len(),
        input.subrange(20, 20 + payload.len() as int) == payload,
        plain.len() == 5 * (w * h),
        inflated_upto(payload, (5 * (w * h) + 1) as nat) == Ok::<Seq<u8>, Seq<char>>(plain),
    ensures
        outcome(s, input, ends) matches Outcome::Done { scene, used, events, .. } && {
            &&& used == 20 + payload.len()
            &&& events.len() == 0
            &&& scene.image == s.image
            &&& scene.cursors.contains_key(id as u64)
            &&& scene.cursors[id as u64].width == w
            &&& scene.cursors[id as u64].height == h
            &&& scene.cursors[id as u64].pixels == merged_pixels(plain, (w * h) as nat)
        },
{
    lemma_header(input, x, y, w, h, 0x450);
    let b = input.skip(12);
    assert(u32_of(b, 0) == id);
    assert(u32_of(b, 4) == payload.len());
    assert(b.subrange(8, 8 + payload.len() as int) =~= payload);
    assert(w * h >= 0) by (nonlinear_arith)
        requires
            w >= 0,
            h >= 0,
    ;
}

/// A display layout sets the size of the desktop to that in pixels, keeps that
/// in points, reports both the size and the screens, and asks the server for
/// updates of the whole desktop at its new size.
#[verifier::rlimit(30)]
#[verifier::spinoff_prover]
pub proof fn lemma_layout_is_applied(
    s: Scene,
    input: Seq<u8>,
    ends: Seq<usize>,
    x: int,
    y: int,
    w: int,
    h: int,
    payload: Seq<u8>,
    layout: Layout,
)
    requires
        s.pending > 0,
        announces(input, x, y, w, h, 0x451),
        w <= 16384,
        h <= 16384,
        input.len() >= 14 + payload.len(),
        short_at(input, 12) == payload.len(),
        input.subrange(14, 14 + payload.len() as int) == payload,
        layout_of(payload) == Some(layout),
        0 < layout.backing_width <= 16384,
        0 < layout.backing_height <= 16384,
        layout.scaled_width > 0,
        layout.scaled_height > 0,
        layout.screens.len() > 0,
    ensures
        outcome(s, input, ends) matches Outcome::Done { scene, used, events, replies, task } && {
            &&& used == 14 + payload.len()
            &&& scene.width == layout.backing_width
            &&& scene.height == layout.backing_height
            &&& scene.image.width == layout.backing_width
            &&& scene.image.height == layout.backing_height
            &&& scene.scaled_size == Some((layout.scaled_width, layout.scaled_height))
            &&& events == seq![
                Event::GeometryChanged {
                    width: layout.backing_width,
                    height: layout.backing_height,
                },
                Event::ScreenLayout(layout.screens),
            ]
            &&& replies == auto_framebuffer_update(
                0xffff_ffff,
                0,
                0,
                layout.backing_width,
                layout.backing_height,
            ) + update_request(
                false,
                (Area {
                    x: 0,
                    y: 0,
                    width: layout.backing_width,
                    height: layout.backing_height,
                }),
            )
            &&& task == Task::Nothing
        },
{
    lemma_header(input, x, y, w, h, 0x451);
    let b = input.skip(12);
    let head = RectHeader::read(input);
    assert(u16_of(b, 0) == payload.len());
    assert(b.subrange(2, 2 + payload.len() as int) =~= payload);
    lemma_layout_body(s.rect_opened(head), b, payload, layout);
    lemma_quiet(s, input, ends, x, y, w, h, 0x451, layout_body(s.rect_opened(head), b));
}

#[verifier::spinoff_prover]
proof fn lemma_layout_body(s: Scene, b: Seq<u8>, payload: Seq<u8>, layout: Layout)
    requires
        b.len() >= 2 + payload.len(),
        u16_of(b, 0) == payload.len(),
        b.subrange(2, 2 + payload.len() as int) == payload,
        layout_of(payload) == Some(layout),
        0 < layout.backing_width <= 16384,
        0 < layout.backing_height <= 16384,
        layout.scaled_width > 0,
        layout.scaled_height > 0,
        layout.screens.len() > 0,
    ensures
        layout_body(s, b) == (BodyOutcome::Done {
            scene: layout_applied(s, layout).0,
            used: 2 + payload.len() as int,
            events: seq![
                Event::GeometryChanged {
                    width: layout.backing_width,
                    height: layout.backing_height,
                },
                Event::ScreenLayout(layout.screens),
            ],
            replies: rearm(layout.backing_width, layout.backing_height),
            quiet: true,
            task: Task::Nothing,
        }),
        layout_applied(s, layout).0 == (Scene {
            scaled_size: Some((layout.scaled_width, layout.scaled_height)),
            ..s
        }).with_size(layout.backing_width, layout.backing_height),
{
    let events = layout_applied(s, layout).1;
    assert(events =~= seq![
        Event::GeometryChanged { width: layout.backing_width, height: layout.backing_height },
        Event::ScreenLayout(layout.screens),
    ]);
}

/// What a body that is done and does not count as an update comes to.
#[verifier::spinoff_prover]
proof fn lemma_quiet(
    s: Scene,
    input: Seq<u8>,
    ends: Seq<usize>,
    x: int,
    y: int,
    w: int,
    h: int,
    code: int,
    body: BodyOutcome,
)
    requires
        s.pending > 0,
        announces(input, x, y, w, h, code),
        w <= 16384,
        h <= 16384,
        body == body_outcome(
            s.rect_opened(RectHeader::read(input)),
            RectHeader::read(input),
            input.skip(12),
            ends,
        ),
        body matches BodyOutcome::Done { quiet, task, .. } && quiet && task == Task::Nothing,
    ensures
        outcome(s, input, ends) == (Outcome::Done {
            scene: body->Done_scene.rect_closed(),
            used: body->Done_used + 12,
            events: body->Done_events,
            replies: body->Done_replies,
            task: Task::Nothing,
        }),
{
    lemma_header(input, x, y, w, h, code);
}

} // verus!
