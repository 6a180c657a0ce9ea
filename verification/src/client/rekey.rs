//! The plaintext messages before the record layer starts, of which one carries
//! its first key.

use vstd::prelude::*;

use crate::error::{Failure, VncError};
use crate::messages::{RectHeader, RECT_HEADER_LEN};
use crate::protocol;
use crate::protocol::apple;
use crate::text::{concat_text, prefixed_hex, prefixed_hex_text};
use crate::wire::{slice, to_vec, u16_at, u16_of};

verus! {

/// Where the reading of an update stands.
pub enum RekeyWalk {
    Short,
    Bad(Failure),
    /// The position behind the rectangles so far, and the last key among them.
    At { pos: int, found: Option<Seq<u8>> },
}

/// A number that may be negative, as the unsigned number with the same bits.
pub open spec fn unsigned(v: i32) -> u32 {
    if v < 0 {
        (v + 0x1_0000_0000) as u32
    } else {
        v as u32
    }
}

/// Why a rectangle before the key is refused.
pub open spec fn unexpected_rect(encoding: i32) -> Failure {
    Failure::Protocol(
        "Apple HP initial rekey FBU contained unexpected encoding "@ + prefixed_hex_text(
            unsigned(encoding),
        ),
    )
}

/// One rectangle at `pos`: a key, or an announcement that is skipped.
pub open spec fn rect_walk(m: Seq<u8>, pos: int, found: Option<Seq<u8>>) -> RekeyWalk {
    if pos + RECT_HEADER_LEN > m.len() {
        RekeyWalk::Short
    } else {
        let h = RectHeader::read(m.skip(pos));
        let at = pos + RECT_HEADER_LEN;
        if h.encoding == apple::ENC_REKEY && h.x == 0 && h.y == 0 && h.width == 0 && h.height == 0 {
            if at + 36 > m.len() {
                RekeyWalk::Short
            } else {
                RekeyWalk::At { pos: at + 36, found: Some(m.subrange(at, at + 36)) }
            }
        } else if h.encoding == apple::ENC_MEDIA_STREAM || h.encoding
            == apple::ENC_MULTI_VARIANT_SCALED {
            if at + 2 > m.len() || at + 2 + u16_of(m, at) > m.len() {
                RekeyWalk::Short
            } else {
                RekeyWalk::At { pos: at + 2 + u16_of(m, at), found }
            }
        } else {
            RekeyWalk::Bad(unexpected_rect(h.encoding))
        }
    }
}

/// The first `k` rectangles of an update.
pub open spec fn rects_walk(m: Seq<u8>, k: nat) -> RekeyWalk
    decreases k,
{
    if k == 0 {
        RekeyWalk::At { pos: 4, found: None }
    } else {
        match rects_walk(m, (k - 1) as nat) {
            RekeyWalk::At { pos, found } => rect_walk(m, pos, found),
            other => other,
        }
    }
}

/// One message: an update, or a status that is skipped.
pub open spec fn message_walk(m: Seq<u8>) -> RekeyWalk {
    if m.len() == 0 {
        RekeyWalk::Short
    } else if m[0] == protocol::SERVER_FRAMEBUFFER_UPDATE {
        if m.len() < 4 {
            RekeyWalk::Short
        } else {
            rects_walk(m, u16_of(m, 2) as nat)
        }
    } else if m[0] == apple::MISC_STATUS {
        if m.len() < 8 {
            RekeyWalk::Short
        } else {
            RekeyWalk::At { pos: 8, found: None }
        }
    } else {
        RekeyWalk::Bad(
            Failure::Protocol(
                "Apple HP expected rekey FramebufferUpdate (0x0) or MiscStatus (0x14), got "@
                    + prefixed_hex_text(m[0] as u32),
            ),
        )
    }
}

proof fn lemma_walk_stays_stopped(m: Seq<u8>, k: nat, n: nat)
    requires
        k <= n,
        !(rects_walk(m, k) is At),
    ensures
        rects_walk(m, n) == rects_walk(m, k),
    decreases n - k,
{
    if k < n {
        lemma_walk_stays_stopped(m, k + 1, n);
    }
}

/// A key that may be missing, as bytes.
pub open spec fn found_view(found: Option<Vec<u8>>) -> Option<Seq<u8>> {
    match found {
        Some(v) => Some(v@),
        None => None,
    }
}

/// Whether a result reports where the reading stands.
pub open spec fn walk_reports(r: Result<Option<(usize, Option<Vec<u8>>)>, VncError>, w: RekeyWalk) -> bool {
    match w {
        RekeyWalk::Short => r matches Ok(None),
        RekeyWalk::Bad(f) => r matches Err(e) && e@ == f,
        RekeyWalk::At { pos, found } => r matches Ok(Some((n, key))) && n == pos && found_view(key)
            == found,
    }
}

fn read_rect(m: &[u8], pos: usize, found: Option<Vec<u8>>) -> (r: Result<
    Option<(usize, Option<Vec<u8>>)>,
    VncError,
>)
    requires
        pos <= m@.len(),
    ensures
        walk_reports(r, rect_walk(m@, pos as int, found_view(found))),
        r matches Ok(Some((n, key))) ==> n <= m@.len(),
{
    let left: usize = m.len() - pos;
    if left < RECT_HEADER_LEN {
        return Ok(None);
    }
    let tail = slice(m, pos, m.len());
    assert(tail@ =~= m@.skip(pos as int));
    let h = RectHeader::from_bytes(tail);
    let at: usize = pos + RECT_HEADER_LEN;
    let left: usize = left - RECT_HEADER_LEN;
    if h.encoding == apple::ENC_REKEY && h.x == 0 && h.y == 0 && h.width == 0 && h.height == 0 {
        if left < 36 {
            return Ok(None);
        }
        return Ok(Some((at + 36, Some(to_vec(slice(m, at, at + 36))))));
    }
    if h.encoding == apple::ENC_MEDIA_STREAM || h.encoding == apple::ENC_MULTI_VARIANT_SCALED {
        if left < 2 {
            return Ok(None);
        }
        let n: usize = u16_at(m, at) as usize;
        if left - 2 < n {
            return Ok(None);
        }
        return Ok(Some((at + 2 + n, found)));
    }
    let bits: u32 = if h.encoding < 0 {
        (h.encoding as i64 + 0x1_0000_0000) as u32
    } else {
        h.encoding as u32
    };
    Err(
        VncError::Protocol(
            concat_text(
                "Apple HP initial rekey FBU contained unexpected encoding ",
                prefixed_hex(bits).as_str(),
            ),
        ),
    )
}

/// Reads one message before the record layer starts: how many bytes it took,
/// and the key if it carried one. `None` asks for more bytes.
pub fn read_rekey_message(m: &[u8]) -> (r: Result<Option<(usize, Option<Vec<u8>>)>, VncError>)
    ensures
        walk_reports(r, message_walk(m@)),
        r matches Ok(Some((n, key))) ==> n <= m@.len(),
{
    if m.len() == 0 {
        return Ok(None);
    }
    if m[0] == protocol::SERVER_FRAMEBUFFER_UPDATE {
        if m.len() < 4 {
            return Ok(None);
        }
        let n: u16 = u16_at(m, 2);
        let mut k: u16 = 0;
        let mut pos: usize = 4;
        let mut found: Option<Vec<u8>> = None;
        while k < n
            invariant
                k <= n,
                n == u16_of(m@, 2),
                m@.len() >= 4,
                m@[0] == protocol::SERVER_FRAMEBUFFER_UPDATE,
                pos <= m@.len(),
                rects_walk(m@, k as nat) == (RekeyWalk::At {
                    pos: pos as int,
                    found: found_view(found),
                }),
            decreases n - k,
        {
            match read_rect(m, pos, found) {
                Ok(Some((next, key))) => {
                    pos = next;
                    found = key;
                },
                Ok(None) => {
                    proof {
                        lemma_walk_stays_stopped(m@, (k + 1) as nat, n as nat);
                    }
                    return Ok(None);
                },
                Err(e) => {
                    proof {
                        lemma_walk_stays_stopped(m@, (k + 1) as nat, n as nat);
                    }
                    return Err(e);
                },
            }
            k = k + 1;
        }
        return Ok(Some((pos, found)));
    }
    if m[0] == apple::MISC_STATUS {
        if m.len() < 8 {
            return Ok(None);
        }
        return Ok(Some((8, None)));
    }
    Err(
        VncError::Protocol(
            concat_text(
                "Apple HP expected rekey FramebufferUpdate (0x0) or MiscStatus (0x14), got ",
                prefixed_hex(m[0] as u32).as_str(),
            ),
        ),
    )
}

} // verus!
