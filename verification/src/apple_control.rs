//! Apple's control rectangles: display layout, keyboard input source and device
//! information, and the button layout of Apple's pointer events.

use vstd::prelude::*;

use crate::messages::{i32_at, i32_of, long_at, short_at, Screen};
use crate::text::{lossy_string, lossy_text, trim_nuls, without_nuls};
use crate::wire::{slice, u16_at, u16_of, u32_at, u32_of};

verus! {

/// The mask with the bits of the middle and the right button swapped.
pub open spec fn swapped_buttons(mask: u8) -> u8 {
    (mask & !0x06u8) | (if mask & 0x02 != 0 {
        0x04u8
    } else {
        0u8
    }) | (if mask & 0x04 != 0 {
        0x02u8
    } else {
        0u8
    })
}

/// Convert a standard pointer button mask to Apple's wire mask.
///
/// Apple swaps the right (bit 2) and middle (bit 1) button bits. All other
/// bits are passed through unchanged.
pub fn apple_pointer_button_mask(mask: u8) -> (r: u8)
    ensures
        r == swapped_buttons(mask),
{
    (mask & !0x06u8) | (if mask & 0x02 != 0 {
        0x04u8
    } else {
        0u8
    }) | (if mask & 0x04 != 0 {
        0x02u8
    } else {
        0u8
    })
}

/// Swapping the buttons twice gives the mask back.
pub proof fn lemma_swap_is_an_involution(mask: u8)
    ensures
        swapped_buttons(swapped_buttons(mask)) == mask,
{
    assert(swapped_buttons(swapped_buttons(mask)) == mask) by (bit_vector);
}

/// Every button but the middle and the right one keeps its bit, and these two
/// change places.
pub proof fn lemma_swap_moves_two_bits(mask: u8)
    ensures
        swapped_buttons(mask) & !0x06u8 == mask & !0x06u8,
        swapped_buttons(mask) & 0x02 != 0 <==> mask & 0x04 != 0,
        swapped_buttons(mask) & 0x04 != 0 <==> mask & 0x02 != 0,
{
    assert(swapped_buttons(mask) & !0x06u8 == mask & !0x06u8 && ((swapped_buttons(mask) & 0x02 != 0)
        == (mask & 0x04 != 0)) && ((swapped_buttons(mask) & 0x04 != 0) == (mask & 0x02 != 0))) by (
    bit_vector);
}

/// Bytes of one display in a layout.
pub const DISPLAY_ENTRY_LEN: usize = 56;

/// Bytes of a layout in front of its displays.
pub const LAYOUT_HEADER_LEN: usize = 20;

/// A display layout: the size in points, the size in pixels, and the screens.
pub struct Layout {
    pub scaled_width: u16,
    pub scaled_height: u16,
    pub backing_width: u16,
    pub backing_height: u16,
    pub screens: Seq<Screen>,
}

/// The screen of the display entry at offset `off`: its rectangle is given by
/// two corners, and an empty rectangle is no screen.
pub open spec fn display_screen(payload: Seq<u8>, off: int) -> Option<Screen> {
    let y0 = u16_of(payload, off + 36);
    let x0 = u16_of(payload, off + 38);
    let y1 = u16_of(payload, off + 40);
    let x1 = u16_of(payload, off + 42);
    if x1 > x0 && y1 > y0 {
        Some(
            Screen {
                id: u32_of(payload, off + 16),
                x: x0,
                y: y0,
                width: (x1 - x0) as u16,
                height: (y1 - y0) as u16,
                flags: u32_of(payload, off + 48),
            },
        )
    } else {
        None
    }
}

/// The screens of the first `n` display entries.
pub open spec fn layout_screens(payload: Seq<u8>, n: nat) -> Seq<Screen>
    decreases n,
{
    if n == 0 {
        Seq::empty()
    } else {
        let rest = layout_screens(payload, (n - 1) as nat);
        match display_screen(payload, LAYOUT_HEADER_LEN + DISPLAY_ENTRY_LEN * (n - 1)) {
            Some(screen) => rest.push(screen),
            None => rest,
        }
    }
}

/// How many display entries a layout announces and holds.
pub open spec fn layout_entries(payload: Seq<u8>) -> nat {
    let announced = u16_of(payload, 18) as nat;
    let held = (payload.len() - LAYOUT_HEADER_LEN) as nat / DISPLAY_ENTRY_LEN as nat;
    if announced <= held {
        announced
    } else {
        held
    }
}

/// The layout that a payload describes.
pub open spec fn layout_of(payload: Seq<u8>) -> Option<Layout> {
    if payload.len() < LAYOUT_HEADER_LEN {
        None
    } else {
        Some(
            Layout {
                scaled_width: u16_of(payload, 2),
                scaled_height: u16_of(payload, 4),
                backing_width: u16_of(payload, 6),
                backing_height: u16_of(payload, 8),
                screens: layout_screens(payload, layout_entries(payload)),
            },
        )
    }
}

/// Parse a display layout rectangle payload.
///
/// Returns `(scaled_width, scaled_height, backing_width, backing_height,
/// screens)` on success, or `None` if the payload is too short.
pub fn parse_apple_display_layout(payload: &[u8]) -> (r: Option<(u16, u16, u16, u16, Vec<Screen>)>)
    ensures
        match r {
            Some((sw, sh, bw, bh, screens)) => layout_of(payload@) == Some(
                Layout {
                    scaled_width: sw,
                    scaled_height: sh,
                    backing_width: bw,
                    backing_height: bh,
                    screens: screens@,
                },
            ),
            None => layout_of(payload@) is None,
        },
{
    if payload.len() < LAYOUT_HEADER_LEN {
        return None;
    }
    let announced: usize = u16_at(payload, 18) as usize;
    let held: usize = (payload.len() - LAYOUT_HEADER_LEN) / DISPLAY_ENTRY_LEN;
    let n: usize = if announced <= held {
        announced
    } else {
        held
    };
    let mut screens: Vec<Screen> = Vec::new();
    assert(screens@ =~= layout_screens(payload@, 0));
    let mut k: usize = 0;
    while k < n
        invariant
            k <= n,
            n <= 0xffff,
            n <= (payload@.len() - LAYOUT_HEADER_LEN) / DISPLAY_ENTRY_LEN as int,
            payload@.len() >= LAYOUT_HEADER_LEN,
            screens@ == layout_screens(payload@, k as nat),
        decreases n - k,
    {
        let off: usize = LAYOUT_HEADER_LEN + DISPLAY_ENTRY_LEN * k;
        assert(off + DISPLAY_ENTRY_LEN <= payload@.len());
        assert(payload@.len() == payload.len());
        let y0: u16 = u16_at(payload, off + 36);
        let x0: u16 = u16_at(payload, off + 38);
        let y1: u16 = u16_at(payload, off + 40);
        let x1: u16 = u16_at(payload, off + 42);
        if x1 > x0 && y1 > y0 {
            screens.push(
                Screen {
                    id: u32_at(payload, off + 16),
                    x: x0,
                    y: y0,
                    width: x1 - x0,
                    height: y1 - y0,
                    flags: u32_at(payload, off + 48),
                },
            );
        }
        k = k + 1;
    }
    Some(
        (
            u16_at(payload, 2),
            u16_at(payload, 4),
            u16_at(payload, 6),
            u16_at(payload, 8),
            screens,
        ),
    )
}

/// Parsed keyboard input source rectangle payload.
#[derive(Debug, Clone, PartialEq, Eq)]
pub struct AppleKeyboardInputSource {
    pub version_marker: u16,
    pub keyboard_input_flags: u32,
    pub input_source_id: String,
    pub secure_event_input: bool,
}

/// What an [`AppleKeyboardInputSource`] holds.
pub struct InputSource {
    pub version_marker: u16,
    pub keyboard_input_flags: u32,
    pub input_source_id: Seq<char>,
    pub secure_event_input: bool,
}

impl View for AppleKeyboardInputSource {
    type V = InputSource;

    open spec fn view(&self) -> InputSource {
        InputSource {
            version_marker: self.version_marker,
            keyboard_input_flags: self.keyboard_input_flags,
            input_source_id: self.input_source_id@,
            secure_event_input: self.secure_event_input,
        }
    }
}

/// The input source that a payload describes; its name must lie inside.
pub open spec fn input_source_of(payload: Seq<u8>) -> Option<InputSource> {
    if payload.len() < 8 || 8 + u16_of(payload, 6) > payload.len() {
        None
    } else {
        Some(
            InputSource {
                version_marker: u16_of(payload, 0),
                keyboard_input_flags: u32_of(payload, 2),
                input_source_id: lossy_text(payload.subrange(8, 8 + u16_of(payload, 6))),
                secure_event_input: u32_of(payload, 2) % 2 == 1,
            },
        )
    }
}

/// Parse a keyboard input source rectangle payload.
///
/// Returns `None` if the payload is too short or malformed.
pub fn parse_apple_keyboard_input_source(payload: &[u8]) -> (r: Option<AppleKeyboardInputSource>)
    ensures
        match r {
            Some(info) => input_source_of(payload@) == Some(info@),
            None => input_source_of(payload@) is None,
        },
{
    if payload.len() < 8 {
        return None;
    }
    let n: usize = u16_at(payload, 6) as usize;
    if payload.len() - 8 < n {
        return None;
    }
    let flags: u32 = u32_at(payload, 2);
    Some(
        AppleKeyboardInputSource {
            version_marker: u16_at(payload, 0),
            keyboard_input_flags: flags,
            input_source_id: lossy_string(slice(payload, 8, 8 + n)),
            secure_event_input: flags % 2 == 1,
        },
    )
}

/// Parsed device information rectangle payload.
#[derive(Debug, Clone, PartialEq, Eq)]
pub struct AppleDeviceInfo {
    pub structure_version: u32,
    pub enclosure_rgb_color: u32,
    pub device_identifier: String,
    pub device_color: String,
    pub enclosure_color: String,
    pub housing_color: i32,
}

/// What an [`AppleDeviceInfo`] holds.
pub struct Device {
    pub structure_version: u32,
    pub enclosure_rgb_color: u32,
    pub device_identifier: Seq<char>,
    pub device_color: Seq<char>,
    pub enclosure_color: Seq<char>,
    pub housing_color: i32,
}

impl View for AppleDeviceInfo {
    type V = Device;

    open spec fn view(&self) -> Device {
        Device {
            structure_version: self.structure_version,
            enclosure_rgb_color: self.enclosure_rgb_color,
            device_identifier: self.device_identifier@,
            device_color: self.device_color@,
            enclosure_color: self.enclosure_color@,
            housing_color: self.housing_color,
        }
    }
}

/// The text between two offsets, without the NUL characters at its end.
pub open spec fn device_text(payload: Seq<u8>, from: int, to: int) -> Seq<char> {
    without_nuls(lossy_text(payload.subrange(from, to)))
}

/// The device that a payload describes: a header of 16 bytes with the lengths
/// of three texts, the texts, and a colour behind them.
pub open spec fn device_of(payload: Seq<u8>) -> Option<Device> {
    if payload.len() < 16 {
        None
    } else {
        let a = 16 + u16_of(payload, 10) as int;
        let b = a + u16_of(payload, 12) as int;
        let c = b + u16_of(payload, 14) as int;
        if c + 4 > payload.len() {
            None
        } else {
            Some(
                Device {
                    structure_version: u32_of(payload, 2),
                    enclosure_rgb_color: u32_of(payload, 6),
                    device_identifier: device_text(payload, 16, a),
                    device_color: device_text(payload, a, b),
                    enclosure_color: device_text(payload, b, c),
                    housing_color: i32_of(payload, c),
                },
            )
        }
    }
}

/// Parse a device information rectangle payload.
///
/// Returns `None` if the payload is too short or malformed.
pub fn parse_apple_device_info(payload: &[u8]) -> (r: Option<AppleDeviceInfo>)
    ensures
        match r {
            Some(info) => device_of(payload@) == Some(info@),
            None => device_of(payload@) is None,
        },
{
    if payload.len() < 16 {
        return None;
    }
    let a: usize = 16 + u16_at(payload, 10) as usize;
    let b: usize = a + u16_at(payload, 12) as usize;
    let c: usize = b + u16_at(payload, 14) as usize;
    if payload.len() < c + 4 {
        return None;
    }
    Some(
        AppleDeviceInfo {
            structure_version: u32_at(payload, 2),
            enclosure_rgb_color: u32_at(payload, 6),
            device_identifier: trim_nuls(lossy_string(slice(payload, 16, a)).as_str()),
            device_color: trim_nuls(lossy_string(slice(payload, a, b)).as_str()),
            enclosure_color: trim_nuls(lossy_string(slice(payload, b, c)).as_str()),
            housing_color: i32_at(payload, c),
        },
    )
}

/// Whether the display entry at `at` says what a screen is: its number, its top
/// left corner, row first, its bottom right corner, row first, and its flags.
pub open spec fn entry_shows(payload: Seq<u8>, at: int, screen: Screen) -> bool {
    &&& screen.width > 0
    &&& screen.height > 0
    &&& long_at(payload, at + 16) == screen.id
    &&& short_at(payload, at + 36) == screen.y
    &&& short_at(payload, at + 38) == screen.x
    &&& short_at(payload, at + 40) == screen.y + screen.height
    &&& short_at(payload, at + 42) == screen.x + screen.width
    &&& long_at(payload, at + 48) == screen.flags
}

#[verifier::spinoff_prover]
proof fn lemma_entries_show(payload: Seq<u8>, screens: Seq<Screen>, n: nat)
    requires
        n <= screens.len(),
        forall|i: int|
            0 <= i < screens.len() ==> entry_shows(payload, 20 + 56 * i, #[trigger] screens[i]),
    ensures
        layout_screens(payload, n) == screens.take(n as int),
    decreases n,
{
    if n == 0 {
        assert(layout_screens(payload, n) =~= screens.take(0));
    } else {
        lemma_entries_show(payload, screens, (n - 1) as nat);
        let at = 20 + 56 * (n - 1);
        let screen = screens[n - 1];
        assert(entry_shows(payload, at, screen));
        assert(u16_of(payload, at + 36) == screen.y && u16_of(payload, at + 38) == screen.x);
        assert(u16_of(payload, at + 40) == screen.y + screen.height);
        assert(u16_of(payload, at + 42) == screen.x + screen.width);
        assert(u32_of(payload, at + 16) == screen.id);
        assert(u32_of(payload, at + 48) == screen.flags);
        assert(display_screen(payload, at) == Some(screen));
        assert(screens.take(n as int) =~= screens.take(n - 1).push(screen));
    }
}

/// A display layout is read as it was written: the size in points, the size in
/// pixels, and the screens in their order.
pub proof fn lemma_layout_reads_back(payload: Seq<u8>, screens: Seq<Screen>)
    requires
        payload.len() >= 20 + 56 * screens.len(),
        short_at(payload, 18) == screens.len(),
        forall|i: int|
            0 <= i < screens.len() ==> entry_shows(payload, 20 + 56 * i, #[trigger] screens[i]),
    ensures
        layout_of(payload) matches Some(l) && {
            &&& l.scaled_width == short_at(payload, 2)
            &&& l.scaled_height == short_at(payload, 4)
            &&& l.backing_width == short_at(payload, 6)
            &&& l.backing_height == short_at(payload, 8)
            &&& l.screens == screens
        },
{
    let n = screens.len();
    assert(u16_of(payload, 18) == n);
    assert((payload.len() - 20) / 56 >= n);
    lemma_entries_show(payload, screens, n);
    assert(screens.take(n as int) =~= screens);
}

/// A display entry whose corners do not span a rectangle is no screen.
pub proof fn lemma_empty_display_is_no_screen(payload: Seq<u8>, n: nat)
    requires
        ({
            let at = 20 + 56 * n as int;
            ||| short_at(payload, at + 42) <= short_at(payload, at + 38)
            ||| short_at(payload, at + 40) <= short_at(payload, at + 36)
        }),
    ensures
        layout_screens(payload, n + 1) == layout_screens(payload, n),
{
}

/// A keyboard input source is read as it was written: a version, flags of which
/// the lowest says that input is secure, and a name behind its length.
pub proof fn lemma_input_source_reads_back(payload: Seq<u8>, name: Seq<u8>)
    requires
        payload.len() >= 8 + name.len(),
        short_at(payload, 6) == name.len(),
        payload.subrange(8, 8 + name.len() as int) == name,
    ensures
        input_source_of(payload) matches Some(info) && {
            &&& info.version_marker == short_at(payload, 0)
            &&& info.keyboard_input_flags == long_at(payload, 2)
            &&& info.secure_event_input == (payload[5] % 2 == 1)
            &&& info.input_source_id == lossy_text(name)
        },
{
    assert(u16_of(payload, 6) == name.len());
    assert(u32_of(payload, 2) == long_at(payload, 2));
}

/// Device information is read as it was written: a version, a colour, three
/// texts one behind the other with their lengths in front, and another colour.
pub proof fn lemma_device_reads_back(
    payload: Seq<u8>,
    device: Seq<u8>,
    colour: Seq<u8>,
    enclosure: Seq<u8>,
)
    requires
        short_at(payload, 10) == device.len(),
        short_at(payload, 12) == colour.len(),
        short_at(payload, 14) == enclosure.len(),
        payload.len() >= 20 + device.len() + colour.len() + enclosure.len(),
        payload.subrange(16, 16 + device.len() as int) == device,
        payload.subrange(16 + device.len() as int, 16 + device.len() as int + colour.len()) == colour,
        payload.subrange(
            16 + device.len() as int + colour.len(),
            16 + device.len() as int + colour.len() + enclosure.len(),
        ) == enclosure,
    ensures
        device_of(payload) matches Some(d) && {
            let end = 16 + device.len() as int + colour.len() + enclosure.len();
            &&& d.structure_version == long_at(payload, 2)
            &&& d.enclosure_rgb_color == long_at(payload, 6)
            &&& d.device_identifier == without_nuls(lossy_text(device))
            &&& d.device_color == without_nuls(lossy_text(colour))
            &&& d.enclosure_color == without_nuls(lossy_text(enclosure))
            &&& d.housing_color == if long_at(payload, end) < 0x8000_0000 {
                long_at(payload, end)
            } else {
                long_at(payload, end) - 0x1_0000_0000
            }
        },
{
    assert(u16_of(payload, 10) == device.len());
    assert(u16_of(payload, 12) == colour.len());
    assert(u16_of(payload, 14) == enclosure.len());
    let end = 16 + device.len() as int + colour.len() + enclosure.len();
    assert(u32_of(payload, end) == long_at(payload, end));
}

} // verus!
