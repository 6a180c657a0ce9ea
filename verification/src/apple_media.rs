//! Apple high-performance media stream negotiation (H.264 / HEVC over UDP).
//!
//! * [`build_media_stream_options`] constructs the client's offer carrying SRTP
//!   master keys and the compressed audio and video sections.
//! * [`parse_media_stream_answer`] extracts the negotiated canvas from the
//!   server's answer.
//! * [`parse_media_stream_init`] extracts UDP port hints from the media-init
//!   announcement rectangle.

pub mod answer;
pub mod bplist;
pub mod offer;
pub mod protobuf;
pub mod uuid;

use vstd::prelude::*;

pub use crate::apple_media::answer::{parse_media_stream_answer, MediaStreamAnswer};
pub use crate::apple_media::offer::{
    build_media_stream_options, MediaStreamKeys, ViewerEndpoint, SRTP_KEY_BLOB_LEN,
};
use crate::messages::short_at;
use crate::wire::{u16_at, u16_of};

verus! {

/// A parsed media-init announcement.
#[derive(Debug, Clone, Copy, PartialEq, Eq, Structural)]
pub struct MediaStreamInit {
    /// Stage: `1` for stage 1 (base UDP port hint), `2` for stage 2
    /// confirmation, `0` for anything else.
    pub stage: u8,
    /// Base UDP port announced by the server.
    pub base_udp_port: u16,
    /// Stream count reported in the announcement.
    pub stream_count: u16,
    /// Next stream port reported in the announcement.
    pub next_stream_port: u16,
}

/// The announcement that `payload` holds: a 16-bit length followed by at least
/// fourteen bytes. Which field carries the port depends on the version and type
/// the announcement declares.
pub open spec fn init_of(payload: Seq<u8>) -> Option<MediaStreamInit> {
    if payload.len() < 2 || payload.len() < 2 + u16_of(payload, 0) || u16_of(payload, 0) < 14 {
        None
    } else {
        let version = u16_of(payload, 2);
        let kind = u16_of(payload, 4);
        let field6 = u16_of(payload, 6);
        let field8 = u16_of(payload, 8);
        let field10 = u16_of(payload, 10);
        if version == 1 && kind == 1 {
            Some(
                MediaStreamInit {
                    stage: 1,
                    base_udp_port: field10,
                    stream_count: field8,
                    next_stream_port: field6,
                },
            )
        } else if version == 2 && kind == 2 {
            Some(
                MediaStreamInit {
                    stage: 2,
                    base_udp_port: 0,
                    stream_count: field8,
                    next_stream_port: 0,
                },
            )
        } else if version == 0 && kind == 0 {
            Some(
                MediaStreamInit {
                    stage: 1,
                    base_udp_port: field6,
                    stream_count: field10,
                    next_stream_port: field8,
                },
            )
        } else {
            Some(
                MediaStreamInit {
                    stage: 0,
                    base_udp_port: 0,
                    stream_count: 0,
                    next_stream_port: 0,
                },
            )
        }
    }
}

/// Parses a media-init announcement payload: a `u16` length prefix followed by
/// a fixed 14-byte header.
pub fn parse_media_stream_init(payload: &[u8]) -> (r: Option<MediaStreamInit>)
    ensures
        r == init_of(payload@),
{
    if payload.len() < 2 {
        return None;
    }
    let len: usize = u16_at(payload, 0) as usize;
    if payload.len() - 2 < len {
        return None;
    }
    if len < 14 {
        return None;
    }
    let version: u16 = u16_at(payload, 2);
    let kind: u16 = u16_at(payload, 4);
    let field6: u16 = u16_at(payload, 6);
    let field8: u16 = u16_at(payload, 8);
    let field10: u16 = u16_at(payload, 10);
    let (stage, base_udp_port, stream_count, next_stream_port): (u8, u16, u16, u16) = if version
        == 1 && kind == 1 {
        (1, field10, field8, field6)
    } else if version == 2 && kind == 2 {
        (2, 0, field8, 0)
    } else if version == 0 && kind == 0 {
        (1, field6, field10, field8)
    } else {
        (0, 0, 0, 0)
    };
    Some(MediaStreamInit { stage, base_udp_port, stream_count, next_stream_port })
}

/// An announcement of the media stream is read by its version: the first names
/// the next port, the number of streams and the base port in this order, the
/// second only the number of streams, and one without a version the base port,
/// the next port and the number of streams.
pub proof fn lemma_init_reads_back(payload: Seq<u8>)
    requires
        payload.len() >= 2 + short_at(payload, 0),
        short_at(payload, 0) >= 14,
    ensures
        init_of(payload) matches Some(init) && {
            let version = short_at(payload, 2);
            let (a, b, c) = (short_at(payload, 6), short_at(payload, 8), short_at(payload, 10));
            &&& version == short_at(payload, 4) && version == 1 ==> init.stage == 1
                && init.next_stream_port == a && init.stream_count == b && init.base_udp_port == c
            &&& version == short_at(payload, 4) && version == 2 ==> init.stage == 2
                && init.stream_count == b && init.base_udp_port == 0 && init.next_stream_port == 0
            &&& version == short_at(payload, 4) && version == 0 ==> init.stage == 1
                && init.base_udp_port == a && init.next_stream_port == b && init.stream_count == c
            &&& version != short_at(payload, 4) || version > 2 ==> init.stage == 0
        },
{
    assert(u16_of(payload, 0) == short_at(payload, 0));
    assert(u16_of(payload, 2) == short_at(payload, 2));
    assert(u16_of(payload, 4) == short_at(payload, 4));
    assert(u16_of(payload, 6) == short_at(payload, 6));
    assert(u16_of(payload, 8) == short_at(payload, 8));
    assert(u16_of(payload, 10) == short_at(payload, 10));
}

} // verus!
