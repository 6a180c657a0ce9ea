//! RFB encoding numbers.

use vstd::prelude::*;

use crate::protocol::apple;

verus! {

/// An encoding or pseudo-encoding that the client knows.
#[derive(Debug, Clone, Copy, PartialEq, Eq, Structural)]
pub enum Encoding {
    Raw,
    CopyRect,
    Rre,
    Hextile,
    Zlib,
    Tight,
    Zrle,
    Trle,
    /// JPEG quality level (pseudo-encoding)
    JpegQuality(i32),
    /// Desktop size pseudo-encoding
    DesktopSize,
    DesktopName,
    /// Cursor pseudo-encoding
    Cursor,
    /// Cursor position pseudo-encoding
    CursorPos,
    /// OpenH264 encoding
    OpenH264,
    /// Fence pseudo-encoding
    Fence,
    /// ContinuousUpdates pseudo-encoding
    ContinuousUpdates,
    ExtendedClipboard,
    /// ExtendedDesktopSize pseudo-encoding
    ExtendedDesktopSize,
    /// One of Apple's own encodings, under its number
    AppleHp(i32),
}

impl Encoding {
    /// Whether the encoding has a number.
    pub open spec fn valid(self) -> bool {
        self matches Encoding::JpegQuality(level) ==> level - 32 >= i32::MIN
    }

    /// The number of the encoding on the wire.
    pub open spec fn number(self) -> i32 {
        match self {
            Encoding::Raw => 0,
            Encoding::CopyRect => 1,
            Encoding::Rre => 2,
            Encoding::Hextile => 5,
            Encoding::Zlib => 6,
            Encoding::Tight => 7,
            Encoding::Zrle => 16,
            Encoding::Trle => 15,
            Encoding::JpegQuality(level) => (level - 32) as i32,
            Encoding::DesktopSize => (-223) as i32,
            Encoding::DesktopName => (-307) as i32,
            Encoding::Cursor => (-239) as i32,
            Encoding::CursorPos => (-240) as i32,
            Encoding::OpenH264 => 50,
            Encoding::Fence => (-312) as i32,
            Encoding::ContinuousUpdates => (-313) as i32,
            Encoding::ExtendedClipboard => (-1063131698) as i32,
            Encoding::ExtendedDesktopSize => (-308) as i32,
            Encoding::AppleHp(value) => value,
        }
    }

    /// The number of the encoding on the wire.
    pub fn as_i32(&self) -> (r: i32)
        requires
            self.valid(),
        ensures
            r == self.number(),
    {
        match *self {
            Encoding::Raw => 0,
            Encoding::CopyRect => 1,
            Encoding::Rre => 2,
            Encoding::Hextile => 5,
            Encoding::Zlib => 6,
            Encoding::Tight => 7,
            Encoding::Zrle => 16,
            Encoding::Trle => 15,
            Encoding::JpegQuality(level) => level - 32,
            Encoding::DesktopSize => -223,
            Encoding::DesktopName => -307,
            Encoding::Cursor => -239,
            Encoding::CursorPos => -240,
            Encoding::OpenH264 => 50,
            Encoding::Fence => -312,
            Encoding::ContinuousUpdates => -313,
            Encoding::ExtendedClipboard => -1063131698,
            Encoding::ExtendedDesktopSize => -308,
            Encoding::AppleHp(value) => value,
        }
    }
}

/// The name of the encoding with number `value`.
pub open spec fn name_of(value: i32) -> Seq<char> {
    if value == 0 {
        "Raw"@
    } else if value == 1 {
        "CopyRect"@
    } else if value == 2 {
        "RRE"@
    } else if value == 5 {
        "Hextile"@
    } else if value == 6 {
        "Zlib"@
    } else if value == 7 {
        "Tight"@
    } else if value == 15 {
        "TRLE"@
    } else if value == 16 {
        "ZRLE"@
    } else if value == 50 {
        "OpenH264"@
    } else if value == -223 {
        "DesktopSize"@
    } else if value == -307 {
        "DesktopName"@
    } else if value == -239 {
        "Cursor"@
    } else if value == -240 {
        "CursorPos"@
    } else if value == -312 {
        "Fence"@
    } else if value == -313 {
        "ContinuousUpdates"@
    } else if value == -308 {
        "ExtendedDesktopSize"@
    } else if value == -1063131698 {
        "ExtendedClipboard"@
    } else {
        "Unknown"@
    }
}

/// Return a human-readable name for the given RFB encoding value.
pub fn encoding_name(value: i32) -> (r: &'static str)
    ensures
        r@ == name_of(value),
{
    match value {
        0 => "Raw",
        1 => "CopyRect",
        2 => "RRE",
        5 => "Hextile",
        6 => "Zlib",
        7 => "Tight",
        15 => "TRLE",
        16 => "ZRLE",
        50 => "OpenH264",
        -223 => "DesktopSize",
        -307 => "DesktopName",
        -239 => "Cursor",
        -240 => "CursorPos",
        -312 => "Fence",
        -313 => "ContinuousUpdates",
        -308 => "ExtendedDesktopSize",
        -1063131698 => "ExtendedClipboard",
        _ => "Unknown",
    }
}

/// Whether `value` is one of Apple's own encodings.
pub open spec fn is_apple(value: i32) -> bool {
    ||| value == apple::ENC_REKEY
    ||| value == apple::ENC_CURSOR
    ||| value == apple::ENC_DISPLAY_LAYOUT
    ||| value == apple::ENC_VENDOR_KEYSYMS
    ||| value == apple::ENC_KEYBOARD_INPUT_SOURCE
    ||| value == apple::ENC_DEVICE_INFO
    ||| value == apple::ENC_MEDIA_STREAM
    ||| value == apple::ENC_LOW_QUALITY
    ||| value == apple::ENC_MEDIUM_QUALITY
    ||| value == apple::ENC_HIGH_QUALITY
    ||| value == apple::ENC_MULTI_VARIANT_SCALED
    ||| value == 0x1c
    ||| value == 1100
    ||| value == 1101
}

/// The encoding with number `value`, if the client knows it.
pub open spec fn encoding_of(value: i32) -> Option<Encoding> {
    if value == 0 {
        Some(Encoding::Raw)
    } else if value == 1 {
        Some(Encoding::CopyRect)
    } else if value == 2 {
        Some(Encoding::Rre)
    } else if value == 5 {
        Some(Encoding::Hextile)
    } else if value == 6 {
        Some(Encoding::Zlib)
    } else if value == 7 {
        Some(Encoding::Tight)
    } else if value == 15 {
        Some(Encoding::Trle)
    } else if value == 16 {
        Some(Encoding::Zrle)
    } else if value == 50 {
        Some(Encoding::OpenH264)
    } else if value == -223 {
        Some(Encoding::DesktopSize)
    } else if value == -307 {
        Some(Encoding::DesktopName)
    } else if value == -239 {
        Some(Encoding::Cursor)
    } else if value == -240 {
        Some(Encoding::CursorPos)
    } else if value == -312 {
        Some(Encoding::Fence)
    } else if value == -313 {
        Some(Encoding::ContinuousUpdates)
    } else if value == -308 {
        Some(Encoding::ExtendedDesktopSize)
    } else if value == -1063131698 {
        Some(Encoding::ExtendedClipboard)
    } else if -32 <= value <= -23 {
        Some(Encoding::JpegQuality((value + 32) as i32))
    } else if is_apple(value) {
        Some(Encoding::AppleHp(value))
    } else {
        None
    }
}

/// Parse an encoding value from the RFB wire format into an `Encoding` variant.
///
/// This is the inverse of [`Encoding::as_i32`] and is useful when decoding
/// server rectangles.
pub fn from_i32(value: i32) -> (r: Option<Encoding>)
    ensures
        r == encoding_of(value),
{
    match value {
        0 => Some(Encoding::Raw),
        1 => Some(Encoding::CopyRect),
        2 => Some(Encoding::Rre),
        5 => Some(Encoding::Hextile),
        6 => Some(Encoding::Zlib),
        7 => Some(Encoding::Tight),
        15 => Some(Encoding::Trle),
        16 => Some(Encoding::Zrle),
        50 => Some(Encoding::OpenH264),
        -223 => Some(Encoding::DesktopSize),
        -307 => Some(Encoding::DesktopName),
        -239 => Some(Encoding::Cursor),
        -240 => Some(Encoding::CursorPos),
        -312 => Some(Encoding::Fence),
        -313 => Some(Encoding::ContinuousUpdates),
        -308 => Some(Encoding::ExtendedDesktopSize),
        -1063131698 => Some(Encoding::ExtendedClipboard),
        _ => if -32 <= value && value <= -23 {
            Some(Encoding::JpegQuality(value + 32))
        } else if value == apple::ENC_REKEY || value == apple::ENC_CURSOR || value
            == apple::ENC_DISPLAY_LAYOUT || value == apple::ENC_VENDOR_KEYSYMS || value
            == apple::ENC_KEYBOARD_INPUT_SOURCE || value == apple::ENC_DEVICE_INFO || value
            == apple::ENC_MEDIA_STREAM || value == apple::ENC_LOW_QUALITY || value
            == apple::ENC_MEDIUM_QUALITY || value == apple::ENC_HIGH_QUALITY || value
            == apple::ENC_MULTI_VARIANT_SCALED || value == 0x1c || value == 1100 || value == 1101 {
            Some(Encoding::AppleHp(value))
        } else {
            None
        },
    }
}

/// Reading the number of an encoding gives the encoding back. A quality level
/// must be one of the ten, and an Apple encoding one of Apple's.
pub proof fn lemma_from_i32_inverts_as_i32(e: Encoding)
    requires
        e matches Encoding::JpegQuality(level) ==> 0 <= level <= 9,
        e matches Encoding::AppleHp(value) ==> is_apple(value),
    ensures
        encoding_of(e.number()) == Some(e),
{
}

/// A number that is read as an encoding is the number of that encoding.
pub proof fn lemma_as_i32_inverts_from_i32(value: i32)
    ensures
        encoding_of(value) matches Some(e) ==> e.number() == value,
{
}

/// The numbers of the encodings on the wire, and of the pseudo-encodings, which
/// are negative.
pub proof fn lemma_numbers_on_the_wire(quality: i32)
    requires
        0 <= quality <= 9,
    ensures
        Encoding::Raw.number() == 0,
        Encoding::CopyRect.number() == 1,
        Encoding::Rre.number() == 2,
        Encoding::Hextile.number() == 5,
        Encoding::Zlib.number() == 6,
        Encoding::Tight.number() == 7,
        Encoding::Trle.number() == 15,
        Encoding::Zrle.number() == 16,
        Encoding::OpenH264.number() == 50,
        Encoding::DesktopSize.number() == -223,
        Encoding::Cursor.number() == -239,
        Encoding::CursorPos.number() == -240,
        Encoding::DesktopName.number() == -307,
        Encoding::ExtendedDesktopSize.number() == -308,
        Encoding::Fence.number() == -312,
        Encoding::ContinuousUpdates.number() == -313,
        Encoding::JpegQuality(quality).number() == quality - 32,
{
}

} // verus!
