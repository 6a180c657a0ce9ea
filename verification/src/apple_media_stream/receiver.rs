//! The receiver of a media stream: what it does with every packet, timer tick
//! and decoded picture.
//!
//! The receiver performs no I/O. It returns what is to be sent or decoded, and
//! is told the time in nanoseconds on some monotonic clock.

use std::collections::HashMap;
use vstd::prelude::*;

use crate::apple_media::offer::MediaStreamKeys;
use crate::apple_media_stream::canvas::{Canvas, CanvasState};
use crate::apple_media_stream::rtcp::{
    build_rtcp_fir, build_rtcp_fir_legacy, build_rtcp_ltrp, build_rtcp_nack, build_rtcp_pli,
    build_rtcp_rr, build_rtcp_sr, fir, fir_legacy, ltrp, nack, parse_rtcp_sr, pli, receiver_report,
    sender_report, sender_report_from, SenderReport,
};
use crate::apple_media_stream::srtp::{
    stats_of, SrtcpDecryptor, SrtcpEncryptor, SrtcpKeys, SrtpDecryptor, SrtpEncryptor, SrtpSession,
};
use crate::apple_media_stream::tiles::{
    lemma_group_stays_orderly, GroupState, Received, StreamState, TileGroup, TileStream,
};
use crate::decoder::Codec;
use crate::maps::keys_of;
use crate::wire::{push_all, u16_at, u16_of, u32_at, u32_of};

verus! {

/// Events emitted by the media stream receiver.
#[derive(Debug, Clone, PartialEq, Eq)]
pub enum MediaStreamEvent {
    /// A decoded frame in RGBA format.
    Frame {
        /// Negotiated video width in pixels.
        width: u16,
        /// Negotiated video height in pixels.
        height: u16,
        /// RGBA8888 pixel data, length = width * height * 4.
        rgba: Vec<u8>,
    },
    /// A non-fatal error.
    Error(String),
}

/// What the receiver asks its caller to do.
pub enum MediaAction {
    /// Send a packet from the control socket to the base port.
    SendCtrl(Vec<u8>),
    /// Send a packet from the video socket to the video port.
    SendVideo(Vec<u8>),
    /// Feed an access unit to the decoder under the given tag.
    Decode { au: Vec<u8>, pts: u64 },
}

/// What a [`MediaAction`] asks for.
pub enum Effect {
    SendCtrl(Seq<u8>),
    SendVideo(Seq<u8>),
    Decode(Seq<u8>, u64),
}

impl View for MediaAction {
    type V = Effect;

    open spec fn view(&self) -> Effect {
        match self {
            MediaAction::SendCtrl(p) => Effect::SendCtrl(p@),
            MediaAction::SendVideo(p) => Effect::SendVideo(p@),
            MediaAction::Decode { au, pts } => Effect::Decode(au@, *pts),
        }
    }
}

/// What a list of actions asks for.
pub open spec fn effects(list: Seq<MediaAction>) -> Seq<Effect> {
    Seq::new(list.len(), |i: int| list[i]@)
}

/// Clock readings for a sender report.
#[derive(Clone, Copy)]
pub struct WallClock {
    /// Seconds since the start of 1900, of which the low 32 bits are kept.
    pub ntp_sec: u32,
    /// The fraction of the second, in units of 1/2^32 seconds.
    pub ntp_frac: u32,
    pub rtp_ts: u32,
}

/// The plain counters, flags and times of a receiver.
#[derive(Clone, Copy)]
pub struct Progress {
    /// Number of video packets received.
    pub video_packets: u64,
    /// The last source heard on the video port.
    pub remote_ssrc: Option<u32>,
    pub last_rtcp: u64,
    pub rtcp_tick: u32,
    pub saw_vps: bool,
    pub saw_sps: bool,
    pub saw_pps: bool,
    pub saw_idr: bool,
    pub last_ltr_ack_donl: Option<u16>,
    /// Whether a keyframe is wanted.
    pub fir_armed: bool,
    pub fir_last_sent: Option<u64>,
    pub last_video_packet: Option<u64>,
    pub last_emit: u64,
    /// The tag of the last access unit handed to the decoder.
    pub au_counter: u64,
    /// Pictures whose tag was not outstanding.
    pub tag_mismatches: u32,
    pub au_pushed: u32,
    pub last_decode_out: Option<u64>,
    pub last_decoder_restart: Option<u64>,
    pub started: u64,
}

/// The time between `then` and `now`.
pub open spec fn elapsed(now: u64, then: u64) -> int {
    if now >= then {
        now - then
    } else {
        0
    }
}

/// One second.
pub open spec fn second() -> int {
    1_000_000_000
}

/// One more, starting over at zero behind the maximum.
pub open spec fn next_u32(v: u32) -> u32 {
    if v == u32::MAX {
        0
    } else {
        (v + 1) as u32
    }
}

/// One more, starting over at zero behind the maximum.
pub open spec fn next_u64(v: u64) -> u64 {
    if v == u64::MAX {
        0
    } else {
        (v + 1) as u64
    }
}

/// Whether a second byte is an RTCP packet type.
pub open spec fn is_rtcp_type(b: u8) -> bool {
    b == 192 || b == 193 || 200 <= b <= 207
}

/// The kinds of NAL unit found in an access unit.
#[derive(Clone, Copy)]
pub struct UnitKinds {
    pub vps: bool,
    pub sps: bool,
    pub pps: bool,
    pub idr: bool,
}

impl UnitKinds {
    /// Nothing found.
    pub open spec fn nothing() -> UnitKinds {
        UnitKinds { vps: false, sps: false, pps: false, idr: false }
    }

    /// Whether there is a parameter set.
    pub open spec fn has_param_set(self) -> bool {
        self.vps || self.sps || self.pps
    }

    /// The kinds with the unit that starts with `first` added.
    pub open spec fn with_unit(self, codec: Codec, first: u8) -> UnitKinds {
        match codec {
            Codec::H264 => UnitKinds {
                sps: self.sps || first % 32 == 7,
                pps: self.pps || first % 32 == 8,
                idr: self.idr || first % 32 == 5,
                ..self
            },
            Codec::Hevc => UnitKinds {
                vps: self.vps || first / 2 % 64 == 32,
                sps: self.sps || first / 2 % 64 == 33,
                pps: self.pps || first / 2 % 64 == 34,
                idr: self.idr || first / 2 % 64 == 19 || first / 2 % 64 == 20,
            },
        }
    }
}

/// Whether a four-byte start code stands at `i`.
pub open spec fn start_code_at(au: Seq<u8>, i: int) -> bool {
    au[i] == 0 && au[i + 1] == 0 && au[i + 2] == 0 && au[i + 3] == 1
}

/// The kinds of unit found from `i` on: a unit starts behind each start code.
pub open spec fn unit_kinds_from(codec: Codec, au: Seq<u8>, i: int, k: UnitKinds) -> UnitKinds
    decreases au.len() - i,
{
    if i + 5 > au.len() {
        k
    } else if start_code_at(au, i) {
        unit_kinds_from(codec, au, i + 5, k.with_unit(codec, au[i + 4]))
    } else {
        unit_kinds_from(codec, au, i + 1, k)
    }
}

/// Finds the kinds of unit in an access unit.
pub fn scan_units(codec: Codec, au: &[u8]) -> (r: UnitKinds)
    ensures
        r == unit_kinds_from(codec, au@, 0, UnitKinds::nothing()),
{
    let mut k = UnitKinds { vps: false, sps: false, pps: false, idr: false };
    let mut i: usize = 0;
    while au.len() - i >= 5
        invariant
            i <= au@.len(),
            unit_kinds_from(codec, au@, 0, UnitKinds::nothing()) == unit_kinds_from(
                codec,
                au@,
                i as int,
                k,
            ),
        decreases au@.len() - i,
    {
        if au[i] == 0 && au[i + 1] == 0 && au[i + 2] == 0 && au[i + 3] == 1 {
            let first: u8 = au[i + 4];
            match codec {
                Codec::H264 => {
                    let t: u8 = first % 32;
                    k.sps = k.sps || t == 7;
                    k.pps = k.pps || t == 8;
                    k.idr = k.idr || t == 5;
                },
                Codec::Hevc => {
                    let t: u8 = first / 2 % 64;
                    k.vps = k.vps || t == 32;
                    k.sps = k.sps || t == 33;
                    k.pps = k.pps || t == 34;
                    k.idr = k.idr || t == 19 || t == 20;
                },
            }
            i = i + 5;
        } else {
            i = i + 1;
        }
    }
    k
}

// ---------------------------------------------------------------------------
// The model
// ---------------------------------------------------------------------------

/// The whole state of a receiver.
pub struct ReceiverState {
    pub codec: Codec,
    pub video_ssrc: u32,
    pub video: SrtpSession,
    pub audio: SrtpSession,
    pub rtcp_in: SrtcpKeys,
    pub rtcp_out: SrtcpEncryptor,
    pub audio_out: SrtpEncryptor,
    pub group: GroupState,
    pub streams: Map<u64, StreamState>,
    /// Per server source: timestamp bits of its last report and when it came.
    pub reports: Map<u64, (u32, u64)>,
    pub canvas: CanvasState,
    /// The source and decoding-order number of each access unit handed to the
    /// decoder.
    pub au_tags: Map<u64, (u32, Option<u16>)>,
    /// How many strips of each tile were drawn.
    pub tile_frames: Seq<u32>,
    pub p: Progress,
}

/// The contents of every stream.
pub open spec fn stream_states(m: Map<u64, TileStream>) -> Map<u64, StreamState> {
    Map::new(|k: u64| m.contains_key(k), |k: u64| m[k]@)
}

impl ReceiverState {
    /// The state after sending `compound` as protected RTCP, and the bytes sent.
    pub open spec fn sealed(self, compound: Seq<u8>) -> (ReceiverState, Seq<u8>) {
        (
            ReceiverState {
                rtcp_out: SrtcpEncryptor { index: next_u32(self.rtcp_out.index), ..self.rtcp_out },
                ..self
            },
            self.rtcp_out.keys.sealed(self.rtcp_out.index, compound),
        )
    }

    /// The source a keyframe is requested from: tile 0, or the last source
    /// heard while there is no tile.
    pub open spec fn keyframe_target(self) -> Option<u32> {
        if self.group.tiles.len() > 0 {
            Some(self.group.tiles[0])
        } else {
            self.p.remote_ssrc
        }
    }

    /// Whether a keyframe request is due: one is wanted, the last one is two
    /// seconds old, and video came in the last one and a half seconds.
    pub open spec fn keyframe_due(self, now: u64) -> bool {
        &&& self.p.fir_armed
        &&& self.keyframe_target() is Some
        &&& (self.p.fir_last_sent matches Some(t) ==> elapsed(now, t) >= 2 * second())
        &&& (self.p.last_video_packet matches Some(t) && elapsed(now, t) < 1_500_000_000)
    }

    /// The keyframe request: an empty receiver report followed by three kinds
    /// of request.
    pub open spec fn keyframe_request(self) -> Seq<u8> {
        let target = self.keyframe_target()->0;
        receiver_report(self.video_ssrc, Seq::empty(), None) + fir(
            self.video_ssrc,
            target,
            (self.p.rtcp_tick % 256) as u8,
        ) + pli(self.video_ssrc, target) + fir_legacy(target)
    }

    /// The state and the effects of sending a keyframe request if it is due.
    pub open spec fn requesting(self, now: u64) -> (ReceiverState, Seq<Effect>) {
        if self.keyframe_due(now) {
            let (s, pkt) = self.sealed(self.keyframe_request());
            (
                ReceiverState { p: Progress { fir_last_sent: Some(now), ..s.p }, ..s },
                seq![Effect::SendCtrl(pkt)],
            )
        } else {
            (self, Seq::empty())
        }
    }

    /// The report to echo: that of the last source heard.
    pub open spec fn echoed(self, dlsr: u32) -> Option<SenderReport> {
        match self.p.remote_ssrc {
            Some(s) => if self.reports.contains_key(s as u64) {
                Some((s, self.reports[s as u64].0, dlsr))
            } else {
                None
            },
            None => None,
        }
    }

    /// The periodic report: a receiver report on the tiles, behind a sender
    /// report on every tenth tick.
    pub open spec fn report(self, dlsr: u32, clock: WallClock) -> Seq<u8> {
        let rr = receiver_report(
            self.video_ssrc,
            stats_of(self.video.states, self.group.tiles),
            self.echoed(dlsr),
        );
        if self.p.rtcp_tick % 10 == 0 {
            sender_report(self.video_ssrc, clock.ntp_sec, clock.ntp_frac, clock.rtp_ts) + rr
        } else {
            rr
        }
    }

    /// The state and the effects of the periodic work: audio keepalive, report
    /// and keyframe request.
    pub open spec fn periodic(self, now: u64, dlsr: u32, clock: WallClock) -> (
        ReceiverState,
        Seq<Effect>,
    ) {
        let keepalive = self.audio_out.packet(seq![0u8, 0x68u8, 0x34u8, 0u8], 101);
        let s0 = ReceiverState {
            audio_out: self.audio_out.stepped(),
            p: Progress { rtcp_tick: next_u32(self.p.rtcp_tick), ..self.p },
            ..self
        };
        let (s1, report) = s0.sealed(s0.report(dlsr, clock));
        let (s2, request) = s1.requesting(now);
        (
            ReceiverState { p: Progress { last_rtcp: now, ..s2.p }, ..s2 },
            seq![Effect::SendCtrl(keepalive), Effect::SendCtrl(report)] + request,
        )
    }

    /// The state and the effects of a timer tick: the periodic work every half
    /// second, and a keyframe request as soon as one is wanted.
    pub open spec fn ticked(self, now: u64, dlsr: u32, clock: WallClock) -> (
        ReceiverState,
        Seq<Effect>,
    ) {
        let (s1, first) = if elapsed(now, self.p.last_rtcp) >= 500_000_000 {
            self.periodic(now, dlsr, clock)
        } else {
            (self, Seq::empty())
        };
        if s1.p.fir_armed && s1.p.fir_last_sent is None {
            let (s2, second) = s1.requesting(now);
            (s2, first + second)
        } else {
            (s1, first)
        }
    }

    /// The state after a control packet: a sender report inside it is noted.
    pub open spec fn with_rtcp(self, pkt: Seq<u8>, now: u64) -> ReceiverState {
        match self.rtcp_in.unsealed(pkt) {
            Some(plain) => match sender_report_from(plain, 0) {
                Some((ssrc, ntp)) => ReceiverState {
                    reports: self.reports.insert(ssrc as u64, (ntp, now)),
                    ..self
                },
                None => self,
            },
            None => self,
        }
    }

    /// The state and the effect of a complete access unit.
    pub open spec fn with_unit(self, au: Seq<u8>, ssrc: u32, donl: Option<u16>) -> (
        ReceiverState,
        Effect,
    ) {
        let k = unit_kinds_from(self.codec, au, 0, UnitKinds::nothing());
        let arm = k.has_param_set() && !self.p.saw_idr && !self.p.fir_armed;
        let pts = next_u64(self.p.au_counter);
        let tags = self.au_tags.insert(pts, (ssrc, donl));
        let p = Progress {
            saw_vps: self.p.saw_vps || k.vps,
            saw_sps: self.p.saw_sps || k.sps,
            saw_pps: self.p.saw_pps || k.pps,
            saw_idr: self.p.saw_idr || k.idr,
            fir_armed: (self.p.fir_armed || arm) && !k.idr,
            fir_last_sent: if arm {
                None
            } else {
                self.p.fir_last_sent
            },
            au_counter: pts,
            au_pushed: next_u32(self.p.au_pushed),
            ..self.p
        };
        (
            ReceiverState {
                au_tags: if tags.dom().len() > 512 {
                    Map::empty()
                } else {
                    tags
                },
                p,
                ..self
            },
            Effect::Decode(au, pts),
        )
    }

    /// The state with a packet of source `ssrc` noted: counted, timed, and
    /// taken into account for the tile group. A new group starts a new picture.
    pub open spec fn with_source(self, ssrc: u32, now: u64) -> ReceiverState {
        let recent = self.p.last_decode_out matches Some(t) && elapsed(now, t) < 2 * second();
        let (group, adopted) = self.group.noted(self.codec, ssrc, recent);
        ReceiverState {
            group,
            canvas: if adopted {
                self.canvas.cleared()
            } else {
                self.canvas
            },
            p: Progress {
                last_video_packet: Some(now),
                video_packets: next_u64(self.p.video_packets),
                ..self.p
            },
            ..self
        }
    }

    /// The receive state of source `ssrc`.
    pub open spec fn stream(self, ssrc: u32) -> StreamState {
        if self.streams.contains_key(ssrc as u64) {
            self.streams[ssrc as u64]
        } else {
            StreamState::fresh(self.codec)
        }
    }

    /// The state and the effects of what a packet of source `ssrc` brought:
    /// losses are reported at once, a complete access unit is decoded.
    pub open spec fn with_received(self, ssrc: u32, r: Received) -> (ReceiverState, Seq<Effect>) {
        let (s1, first) = if r.lost.len() > 0 {
            let (s, pkt) = self.sealed(
                receiver_report(self.video_ssrc, Seq::empty(), None) + nack(
                    self.video_ssrc,
                    ssrc,
                    r.lost,
                ),
            );
            (s, seq![Effect::SendCtrl(pkt)])
        } else {
            (self, Seq::empty())
        };
        match r.completed {
            Some((au, donl)) => {
                let (s2, decode) = s1.with_unit(au, ssrc, donl);
                (s2, first + seq![decode])
            },
            None => (s1, first),
        }
    }

    /// The state and the effects of a decrypted video packet.
    pub open spec fn with_video(
        self,
        ssrc: u32,
        seq: u16,
        marker: bool,
        payload: Seq<u8>,
        now: u64,
    ) -> (ReceiverState, Seq<Effect>) {
        let s = self.with_source(ssrc, now);
        let (stream, r) = s.stream(ssrc).received(seq, marker, payload);
        ReceiverState { streams: s.streams.insert(ssrc as u64, stream), ..s }.with_received(ssrc, r)
    }

    /// The state and the effects of a packet. RTCP packets go to the report
    /// table; of the RTP packets only those with the video payload type count.
    pub open spec fn received(self, pkt: Seq<u8>, from_ctrl: bool, now: u64) -> (
        ReceiverState,
        Seq<Effect>,
    ) {
        if pkt.len() < 2 {
            (self, Seq::empty())
        } else if is_rtcp_type(pkt[1]) {
            (self.with_rtcp(pkt, now), Seq::empty())
        } else {
            let session = if from_ctrl {
                self.audio
            } else {
                self.video
            };
            let opened = session.opened(pkt);
            let s = if from_ctrl {
                ReceiverState { audio: session.after(pkt), ..self }
            } else {
                ReceiverState {
                    video: session.after(pkt),
                    p: Progress {
                        remote_ssrc: if opened is Some {
                            Some(u32_of(pkt, 8))
                        } else {
                            self.p.remote_ssrc
                        },
                        ..self.p
                    },
                    ..self
                }
            };
            match opened {
                Some((roc, header, payload)) => if pkt[1] % 128 == 100 {
                    s.with_video(
                        u32_of(pkt, 8),
                        u16_of(pkt, 2),
                        pkt[1] >= 128,
                        payload,
                        now,
                    )
                } else {
                    (s, Seq::empty())
                },
                None => (s, Seq::empty()),
            }
        }
    }

    /// The tile that source `ssrc` is, looking from tile `i` on.
    pub open spec fn tile_from(self, ssrc: u32, i: int) -> Option<int>
        decreases self.group.tiles.len() - i,
    {
        if !(0 <= i < self.group.tiles.len()) {
            None
        } else if self.group.tiles[i] == ssrc {
            Some(i)
        } else {
            self.tile_from(ssrc, i + 1)
        }
    }

    /// The state and the effects of a decoded picture. It is drawn where the
    /// source of its access unit stands in the tile group now. Every new
    /// tile-0 picture of an HEVC stream is acknowledged.
    pub open spec fn decoded(
        self,
        out_pts: u64,
        rgba: Seq<u8>,
        size: Option<(u16, u16)>,
        now: u64,
    ) -> (ReceiverState, Seq<Effect>) {
        let s = ReceiverState { p: Progress { last_decode_out: Some(now), ..self.p }, ..self };
        if !self.au_tags.contains_key(out_pts) {
            (
                ReceiverState {
                    p: Progress { tag_mismatches: next_u32(self.p.tag_mismatches), ..s.p },
                    ..s
                },
                Seq::empty(),
            )
        } else {
            let (ssrc, donl) = self.au_tags[out_pts];
            let untagged = ReceiverState { au_tags: self.au_tags.remove(out_pts), ..s };
            match self.tile_from(ssrc, 0) {
                None => (untagged, Seq::empty()),
                Some(tile) => {
                    let drawn = ReceiverState {
                        tile_frames: self.tile_frames.update(
                            tile,
                            next_u32(self.tile_frames[tile]),
                        ),
                        canvas: self.canvas.composited(
                            tile,
                            self.group.tiles.len() as int,
                            size,
                            rgba,
                        ),
                        ..untagged
                    };
                    if tile == 0 && self.codec == Codec::Hevc && self.p.last_ltr_ack_donl != donl {
                        let noted = ReceiverState {
                            p: Progress { last_ltr_ack_donl: donl, ..drawn.p },
                            ..drawn
                        };
                        match donl {
                            Some(d) => {
                                let (sent, pkt) = noted.sealed(ltrp(self.video_ssrc, d));
                                (sent, seq![Effect::SendVideo(pkt)])
                            },
                            None => (noted, Seq::empty()),
                        }
                    } else {
                        (drawn, Seq::empty())
                    }
                },
            }
        }
    }

    /// The state when a keyframe is wanted: what was seen of the stream is
    /// forgotten.
    pub open spec fn wanting_keyframe(self) -> ReceiverState {
        ReceiverState {
            p: Progress {
                saw_vps: false,
                saw_sps: false,
                saw_pps: false,
                saw_idr: false,
                fir_armed: true,
                fir_last_sent: None,
                ..self.p
            },
            ..self
        }
    }

    /// Whether the decoder appears wedged: video came in the last two seconds,
    /// no picture came out for four, and the last restart is eight seconds old.
    pub open spec fn stalled(self, now: u64) -> bool {
        let last_out = match self.p.last_decode_out {
            Some(t) => t,
            None => self.p.started,
        };
        &&& self.p.last_video_packet matches Some(t) && elapsed(now, t) < 2 * second()
        &&& elapsed(now, last_out) >= 4 * second()
        &&& (self.p.last_decoder_restart matches Some(t) ==> elapsed(now, t) >= 8 * second())
    }

    /// The state after a restart of the decoder: all stream and composition
    /// state is dropped and a keyframe wanted.
    pub open spec fn restarted(self, now: u64) -> ReceiverState {
        ReceiverState {
            streams: Map::new(
                |k: u64| self.streams.contains_key(k),
                |k: u64| self.streams[k].flushed(),
            ),
            au_tags: Map::empty(),
            canvas: self.canvas.cleared(),
            p: Progress {
                last_decode_out: None,
                last_decoder_restart: Some(now),
                ..self.p
            },
            ..self
        }.wanting_keyframe()
    }
}

// ---------------------------------------------------------------------------
// The receiver
// ---------------------------------------------------------------------------

/// Receiver of a media stream.
pub struct MediaStreamWorker {
    codec: Codec,
    video_ssrc: u32,
    srtp: SrtpDecryptor,
    srtp_audio_dec: SrtpDecryptor,
    srtcp_dec: SrtcpDecryptor,
    srtcp_enc: SrtcpEncryptor,
    srtp_audio_enc: SrtpEncryptor,
    group: TileGroup,
    streams: HashMap<u64, TileStream>,
    server_sr: HashMap<u64, (u32, u64)>,
    canvas: Canvas,
    au_tags: HashMap<u64, (u32, Option<u16>)>,
    tile_frames: [u32; 4],
    p: Progress,
}

impl View for MediaStreamWorker {
    type V = ReceiverState;

    closed spec fn view(&self) -> ReceiverState {
        ReceiverState {
            codec: self.codec,
            video_ssrc: self.video_ssrc,
            video: self.srtp@,
            audio: self.srtp_audio_dec@,
            rtcp_in: self.srtcp_dec.keys,
            rtcp_out: self.srtcp_enc,
            audio_out: self.srtp_audio_enc,
            group: self.group@,
            streams: stream_states(self.streams@),
            reports: self.server_sr@,
            canvas: self.canvas@,
            au_tags: self.au_tags@,
            tile_frames: self.tile_frames@,
            p: self.p,
        }
    }
}

fn time_since(now: u64, then: u64) -> (r: u64)
    ensures
        r == elapsed(now, then),
{
    if now >= then {
        now - then
    } else {
        0
    }
}

fn no_actions() -> (r: Vec<MediaAction>)
    ensures
        effects(r@) == Seq::<Effect>::empty(),
{
    let r: Vec<MediaAction> = Vec::new();
    assert(effects(r@) =~= Seq::<Effect>::empty());
    r
}

fn push_action(list: &mut Vec<MediaAction>, a: MediaAction)
    ensures
        effects(final(list)@) == effects(old(list)@) + seq![a@],
{
    list.push(a);
    assert(effects(list@) =~= effects(old(list)@) + seq![a@]);
}

impl MediaStreamWorker {
    /// The tile group is within its limits.
    pub closed spec fn wf(&self) -> bool {
        self.group.wf()
    }

    /// A receiver for the negotiated keys and codec.
    pub fn new(keys: &MediaStreamKeys, codec: Codec, now: u64) -> (r: MediaStreamWorker)
        ensures
            r.wf(),
            r@.codec == codec,
            r@.video_ssrc == keys.video_ssrc,
            r@.video == SrtpSession::of_blob(keys.video_key_s@),
            r@.audio == SrtpSession::of_blob(keys.audio_key_s@),
            r@.rtcp_in.of_blob(keys.video_key_s@),
            r@.rtcp_out.keys.of_blob(keys.video_key_v@),
            r@.rtcp_out.index == 0,
            r@.audio_out.of_blob(keys.audio_key_v@),
            r@.audio_out.ssrc == keys.audio_ssrc,
            r@.audio_out.seq == 0 && r@.audio_out.roc == 0,
            r@.group == GroupState::fresh(),
            r@.streams == Map::<u64, StreamState>::empty(),
            r@.reports == Map::<u64, (u32, u64)>::empty(),
            r@.canvas == CanvasState::fresh(),
            r@.au_tags == Map::<u64, (u32, Option<u16>)>::empty(),
            r@.tile_frames == seq![0u32, 0u32, 0u32, 0u32],
            r@.p == (Progress {
                video_packets: 0,
                remote_ssrc: None,
                last_rtcp: now,
                rtcp_tick: 0,
                saw_vps: false,
                saw_sps: false,
                saw_pps: false,
                saw_idr: false,
                last_ltr_ack_donl: None,
                fir_armed: false,
                fir_last_sent: None,
                last_video_packet: None,
                last_emit: now,
                au_counter: 0,
                tag_mismatches: 0,
                au_pushed: 0,
                last_decode_out: None,
                last_decoder_restart: None,
                started: now,
            }),
    {
        let r = MediaStreamWorker {
            codec,
            video_ssrc: keys.video_ssrc,
            srtp: SrtpDecryptor::from_blob(&keys.video_key_s),
            srtp_audio_dec: SrtpDecryptor::from_blob(&keys.audio_key_s),
            srtcp_dec: SrtcpDecryptor::from_blob(&keys.video_key_s),
            srtcp_enc: SrtcpEncryptor::from_blob(&keys.video_key_v),
            srtp_audio_enc: SrtpEncryptor::from_blob(&keys.audio_key_v, keys.audio_ssrc),
            group: TileGroup::new(),
            streams: HashMap::new(),
            server_sr: HashMap::new(),
            canvas: Canvas::new(),
            au_tags: HashMap::new(),
            tile_frames: [0, 0, 0, 0],
            p: Progress {
                video_packets: 0,
                remote_ssrc: None,
                last_rtcp: now,
                rtcp_tick: 0,
                saw_vps: false,
                saw_sps: false,
                saw_pps: false,
                saw_idr: false,
                last_ltr_ack_donl: None,
                fir_armed: false,
                fir_last_sent: None,
                last_video_packet: None,
                last_emit: now,
                au_counter: 0,
                tag_mismatches: 0,
                au_pushed: 0,
                last_decode_out: None,
                last_decoder_restart: None,
                started: now,
            },
        };
        assert(r@.streams =~= Map::<u64, StreamState>::empty());
        assert(r@.tile_frames =~= seq![0u32, 0u32, 0u32, 0u32]);
        r
    }

    /// Notes the expected video dimensions. Returns whether the decoder is to be
    /// told of them.
    pub fn set_decoder_size(&mut self, width: u16, height: u16) -> (tell: bool)
        requires
            old(self).wf(),
        ensures
            final(self).wf(),
            tell == (width != 0 && height != 0),
            final(self)@ == (ReceiverState {
                canvas: if tell {
                    CanvasState { configured: (width, height), ..old(self)@.canvas }
                } else {
                    old(self)@.canvas
                },
                ..old(self)@
            }),
    {
        self.canvas.configure(width, height)
    }

    /// The video dimensions to tell a new decoder of, if any were announced.
    pub fn decoder_size(&self) -> (r: Option<(u16, u16)>)
        ensures
            r == if self@.canvas.configured.0 != 0 && self@.canvas.configured.1 != 0 {
                Some(self@.canvas.configured)
            } else {
                None
            },
    {
        let (w, h) = self.canvas.configured();
        if w != 0 && h != 0 {
            Some((w, h))
        } else {
            None
        }
    }

    /// Asks for a fresh keyframe and forgets previously seen parameter sets.
    pub fn request_keyframe(&mut self)
        requires
            old(self).wf(),
        ensures
            final(self).wf(),
            final(self)@ == old(self)@.wanting_keyframe(),
    {
        self.p.saw_vps = false;
        self.p.saw_sps = false;
        self.p.saw_pps = false;
        self.p.saw_idr = false;
        self.p.fir_armed = true;
        self.p.fir_last_sent = None;
    }

    /// Number of video packets received so far.
    pub fn video_packets(&self) -> (r: u64)
        ensures
            r == self@.p.video_packets,
    {
        self.p.video_packets
    }

    /// When the sender report came that the next receiver report will echo.
    pub fn report_arrival(&self) -> (r: Option<u64>)
        requires
            self.wf(),
        ensures
            r == match self@.p.remote_ssrc {
                Some(s) => if self@.reports.contains_key(s as u64) {
                    Some(self@.reports[s as u64].1)
                } else {
                    None
                },
                None => None,
            },
    {
        match self.p.remote_ssrc {
            Some(s) => match self.server_sr.get(&(s as u64)) {
                Some(r) => Some(r.1),
                None => None,
            },
            None => None,
        }
    }

    fn seal(&mut self, compound: &[u8]) -> (pkt: Vec<u8>)
        requires
            old(self).wf(),
            compound@.len() >= 8,
        ensures
            final(self).wf(),
            (final(self)@, pkt@) == old(self)@.sealed(compound@),
    {
        self.srtcp_enc.protect(compound)
    }

    fn send_fir_pli(&mut self, now: u64, out: &mut Vec<MediaAction>)
        requires
            old(self).wf(),
        ensures
            final(self).wf(),
            final(self)@ == old(self)@.requesting(now).0,
            effects(final(out)@) == effects(old(out)@) + old(self)@.requesting(now).1,
    {
        let tiles = self.group.tiles();
        let target: Option<u32> = if tiles.len() > 0 {
            Some(tiles[0])
        } else {
            self.p.remote_ssrc
        };
        let waited: bool = match self.p.fir_last_sent {
            Some(t) => time_since(now, t) >= 2_000_000_000,
            None => true,
        };
        let live: bool = match self.p.last_video_packet {
            Some(t) => time_since(now, t) < 1_500_000_000,
            None => false,
        };
        if let Some(ssrc) = target {
            if self.p.fir_armed && waited && live {
                let none: [(u32, u32, u16); 0] = [];
                assert(none@ =~= Seq::<(u32, u32, u16)>::empty());
                let mut compound = build_rtcp_rr(self.video_ssrc, &none, None);
                let tick: u8 = (self.p.rtcp_tick % 256) as u8;
                push_all(&mut compound, &build_rtcp_fir(self.video_ssrc, ssrc, tick));
                push_all(&mut compound, &build_rtcp_pli(self.video_ssrc, ssrc));
                push_all(&mut compound, &build_rtcp_fir_legacy(ssrc));
                let pkt = self.seal(&compound);
                self.p.fir_last_sent = Some(now);
                push_action(out, MediaAction::SendCtrl(pkt));
                return;
            }
        }
        assert(effects(out@) + Seq::<Effect>::empty() =~= effects(out@));
    }

    fn send_rtcp_rr(&mut self, dlsr: u32, clock: WallClock) -> (pkt: Vec<u8>)
        requires
            old(self).wf(),
        ensures
            final(self).wf(),
            (final(self)@, pkt@) == old(self)@.sealed(old(self)@.report(dlsr, clock)),
    {
        let sources = self.srtp.ssrc_stats(self.group.tiles());
        let sr: Option<SenderReport> = match self.p.remote_ssrc {
            Some(s) => match self.server_sr.get(&(s as u64)) {
                Some(r) => Some((s, r.0, dlsr)),
                None => None,
            },
            None => None,
        };
        let rr = build_rtcp_rr(self.video_ssrc, &sources, sr);
        if self.p.rtcp_tick % 10 == 0 {
            let mut compound = build_rtcp_sr(
                self.video_ssrc,
                clock.ntp_sec,
                clock.ntp_frac,
                clock.rtp_ts,
            );
            push_all(&mut compound, &rr);
            self.seal(&compound)
        } else {
            self.seal(&rr)
        }
    }

    fn send_audio_heartbeat(&mut self) -> (pkt: Vec<u8>)
        requires
            old(self).wf(),
        ensures
            final(self).wf(),
            pkt@ == old(self)@.audio_out.packet(seq![0u8, 0x68u8, 0x34u8, 0u8], 101),
            final(self)@ == (ReceiverState {
                audio_out: old(self)@.audio_out.stepped(),
                ..old(self)@
            }),
    {
        let payload: [u8; 4] = [0, 0x68, 0x34, 0];
        assert(payload@ =~= seq![0u8, 0x68u8, 0x34u8, 0u8]);
        self.srtp_audio_enc.encrypt(&payload, 101)
    }

    fn periodic(&mut self, now: u64, dlsr: u32, clock: WallClock) -> (out: Vec<MediaAction>)
        requires
            old(self).wf(),
        ensures
            final(self).wf(),
            (final(self)@, effects(out@)) == old(self)@.periodic(now, dlsr, clock),
    {
        let mut out = no_actions();
        let keepalive = self.send_audio_heartbeat();
        let ghost k = keepalive@;
        push_action(&mut out, MediaAction::SendCtrl(keepalive));
        self.p.rtcp_tick = self.p.rtcp_tick.wrapping_add(1);
        let report = self.send_rtcp_rr(dlsr, clock);
        let ghost r = report@;
        push_action(&mut out, MediaAction::SendCtrl(report));
        assert(effects(out@) =~= seq![Effect::SendCtrl(k), Effect::SendCtrl(r)]);
        self.send_fir_pli(now, &mut out);
        self.p.last_rtcp = now;
        out
    }

    /// Does the work that falls due at `now`. `dlsr` is the time since
    /// [`Self::report_arrival`] in units of 1/65536 seconds.
    pub fn tick(&mut self, now: u64, dlsr: u32, clock: WallClock) -> (out: Vec<MediaAction>)
        requires
            old(self).wf(),
        ensures
            final(self).wf(),
            (final(self)@, effects(out@)) == old(self)@.ticked(now, dlsr, clock),
    {
        let mut out = if time_since(now, self.p.last_rtcp) >= 500_000_000 {
            self.periodic(now, dlsr, clock)
        } else {
            no_actions()
        };
        if self.p.fir_armed && self.p.fir_last_sent.is_none() {
            self.send_fir_pli(now, &mut out);
        }
        out
    }

    fn feed_au(&mut self, au: Vec<u8>, ssrc: u32, donl: Option<u16>) -> (action: MediaAction)
        requires
            old(self).wf(),
        ensures
            final(self).wf(),
            (final(self)@, action@) == old(self)@.with_unit(au@, ssrc, donl),
    {
        let k = scan_units(self.codec, &au);
        let arm: bool = (k.vps || k.sps || k.pps) && !self.p.saw_idr && !self.p.fir_armed;
        self.p.saw_vps = self.p.saw_vps || k.vps;
        self.p.saw_sps = self.p.saw_sps || k.sps;
        self.p.saw_pps = self.p.saw_pps || k.pps;
        self.p.saw_idr = self.p.saw_idr || k.idr;
        if arm {
            self.p.fir_armed = true;
            self.p.fir_last_sent = None;
        }
        if k.idr {
            self.p.fir_armed = false;
        }
        let pts: u64 = self.p.au_counter.wrapping_add(1);
        self.p.au_counter = pts;
        self.p.au_pushed = self.p.au_pushed.wrapping_add(1);
        self.au_tags.insert(pts, (ssrc, donl));
        // Stale entries belong to access units the decoder dropped.
        if self.au_tags.len() > 512 {
            self.au_tags.clear();
        }
        MediaAction::Decode { au, pts }
    }

    fn note_source(&mut self, ssrc: u32, now: u64)
        requires
            old(self).wf(),
        ensures
            final(self).wf(),
            final(self)@ == old(self)@.with_source(ssrc, now),
    {
        self.p.last_video_packet = Some(now);
        self.p.video_packets = self.p.video_packets.wrapping_add(1);
        let recent: bool = match self.p.last_decode_out {
            Some(t) => time_since(now, t) < 2_000_000_000,
            None => false,
        };
        if self.group.note_ssrc(self.codec, ssrc, recent) {
            self.canvas.clear();
        }
    }

    fn process_video(
        &mut self,
        ssrc: u32,
        seq: u16,
        marker: bool,
        payload: &[u8],
        now: u64,
    ) -> (out: Vec<MediaAction>)
        requires
            old(self).wf(),
        ensures
            final(self).wf(),
            (final(self)@, effects(out@)) == old(self)@.with_video(
                ssrc,
                seq,
                marker,
                payload@,
                now,
            ),
    {
        let mut out = no_actions();
        self.note_source(ssrc, now);
        let ghost noted = self@;
        let ghost streams = self.streams@;
        let mut stream = match self.streams.remove(&(ssrc as u64)) {
            Some(s) => s,
            None => TileStream::new(self.codec),
        };
        assert(stream@ == noted.stream(ssrc));
        let (lost, completed) = stream.receive(seq, marker, payload);
        let ghost after = stream@;
        self.streams.insert(ssrc as u64, stream);
        assert(stream_states(self.streams@) =~= stream_states(streams).insert(
            ssrc as u64,
            after,
        ));
        if lost.len() > 0 {
            let none: [(u32, u32, u16); 0] = [];
            assert(none@ =~= Seq::<(u32, u32, u16)>::empty());
            let mut compound = build_rtcp_rr(self.video_ssrc, &none, None);
            push_all(&mut compound, &build_rtcp_nack(self.video_ssrc, ssrc, &lost));
            let pkt = self.seal(&compound);
            push_action(&mut out, MediaAction::SendCtrl(pkt));
            assert(effects(out@) =~= seq![Effect::SendCtrl(pkt@)]);
        }
        if let Some((au, donl)) = completed {
            let action = self.feed_au(au, ssrc, donl);
            push_action(&mut out, action);
        }
        out
    }

    /// Takes one packet from the video socket or, with `from_ctrl`, from the
    /// control socket.
    pub fn process_packet(&mut self, pkt: &[u8], from_ctrl: bool, now: u64) -> (out: Vec<
        MediaAction,
    >)
        requires
            old(self).wf(),
        ensures
            final(self).wf(),
            (final(self)@, effects(out@)) == old(self)@.received(pkt@, from_ctrl, now),
    {
        if pkt.len() < 2 {
            return no_actions();
        }
        let kind: u8 = pkt[1];
        if kind == 192 || kind == 193 || (200 <= kind && kind <= 207) {
            if let Some(plain) = self.srtcp_dec.unprotect(pkt) {
                if let Some((ssrc, ntp)) = parse_rtcp_sr(&plain) {
                    self.server_sr.insert(ssrc as u64, (ntp, now));
                }
            }
            return no_actions();
        }
        let opened = if from_ctrl {
            self.srtp_audio_dec.decrypt(pkt)
        } else {
            self.srtp.decrypt(pkt)
        };
        match opened {
            None => no_actions(),
            Some((header, payload)) => {
                proof {
                    let session = if from_ctrl {
                        old(self)@.audio
                    } else {
                        old(self)@.video
                    };
                    assert(session.opened(pkt@) is Some);
                    assert(pkt@.len() >= 22);
                }
                let ssrc: u32 = u32_at(pkt, 8);
                let seq: u16 = u16_at(pkt, 2);
                if !from_ctrl {
                    self.p.remote_ssrc = Some(ssrc);
                }
                if kind % 128 != 100 {
                    return no_actions();
                }
                self.process_video(ssrc, seq, kind >= 128, &payload, now)
            },
        }
    }

    fn tile_of(&self, ssrc: u32) -> (r: Option<usize>)
        requires
            self.wf(),
        ensures
            match self@.tile_from(ssrc, 0) {
                Some(i) => r == Some(i as usize) && 0 <= i < 4 && i < self@.group.tiles.len(),
                None => r is None,
            },
    {
        let tiles = self.group.tiles();
        let mut i: usize = 0;
        while i < tiles.len()
            invariant
                i <= tiles@.len() <= 4,
                tiles@ == self@.group.tiles,
                self@.tile_from(ssrc, 0) == self@.tile_from(ssrc, i as int),
            decreases tiles@.len() - i,
        {
            if tiles[i] == ssrc {
                return Some(i);
            }
            i = i + 1;
        }
        None
    }

    /// Draws a decoded picture and acknowledges it where that is due. `size` is
    /// the decoder's picture size.
    pub fn handle_decoded(
        &mut self,
        out_pts: u64,
        rgba: &[u8],
        size: Option<(u16, u16)>,
        now: u64,
    ) -> (out: Vec<MediaAction>)
        requires
            old(self).wf(),
        ensures
            final(self).wf(),
            (final(self)@, effects(out@)) == old(self)@.decoded(out_pts, rgba@, size, now),
    {
        let mut out = no_actions();
        self.p.last_decode_out = Some(now);
        let (ssrc, donl) = match self.au_tags.remove(&out_pts) {
            Some(t) => t,
            None => {
                self.p.tag_mismatches = self.p.tag_mismatches.wrapping_add(1);
                assert(self@.au_tags =~= old(self)@.au_tags);
                return out;
            },
        };
        // The tile is looked up now: the group may have changed since the
        // access unit was handed to the decoder.
        proof {
            lemma_tile_from_group(old(self)@, self@, ssrc, 0);
        }
        let tile: usize = match self.tile_of(ssrc) {
            Some(t) => t,
            None => {
                return out;
            },
        };
        self.tile_frames[tile] = self.tile_frames[tile].wrapping_add(1);
        let tiles: usize = self.group.tiles().len();
        self.canvas.composite_strip(tile, tiles, size, rgba);
        assert(self@.tile_frames =~= old(self)@.tile_frames.update(
            tile as int,
            next_u32(old(self)@.tile_frames[tile as int]),
        ));
        if tile == 0 && self.codec == Codec::Hevc && self.p.last_ltr_ack_donl != donl {
            self.p.last_ltr_ack_donl = donl;
            if let Some(d) = donl {
                let ack = build_rtcp_ltrp(self.video_ssrc, d);
                let pkt = self.seal(&ack);
                push_action(&mut out, MediaAction::SendVideo(pkt));
                assert(effects(out@) =~= seq![Effect::SendVideo(pkt@)]);
            }
        }
        out
    }

    /// The composed picture, at most about thirty times per second and only if
    /// something was drawn.
    pub fn next_frame(&mut self, now: u64) -> (r: Option<MediaStreamEvent>)
        requires
            old(self).wf(),
        ensures
            final(self).wf(),
            ({
                let s = old(self)@;
                let due = s.canvas.dirty && s.canvas.pixels.len() > 0 && elapsed(
                    now,
                    s.p.last_emit,
                ) >= 33_000_000;
                if due {
                    &&& r matches Some(MediaStreamEvent::Frame { width, height, rgba })
                    &&& width == (s.canvas.width % 0x1_0000) as u16
                    &&& height == (s.canvas.height % 0x1_0000) as u16
                    &&& rgba@ == s.canvas.pixels
                    &&& final(self)@ == (ReceiverState {
                        canvas: CanvasState { dirty: false, ..s.canvas },
                        p: Progress { last_emit: now, ..s.p },
                        ..s
                    })
                } else {
                    r is None && final(self)@ == s
                }
            }),
    {
        if time_since(now, self.p.last_emit) < 33_000_000 {
            return None;
        }
        match self.canvas.take_picture() {
            Some((width, height, rgba)) => {
                self.p.last_emit = now;
                Some(MediaStreamEvent::Frame { width, height, rgba })
            },
            None => None,
        }
    }

    /// The composed picture as a file image.
    pub fn dump_canvas_frame(&self) -> (r: Vec<u8>)
        ensures
            r@ == crate::wire::be32(self@.canvas.width) + crate::wire::be32(self@.canvas.height)
                + crate::wire::zeros(8) + self@.canvas.pixels,
    {
        self.canvas.dump()
    }

    /// Whether the decoder appears wedged and should be restarted.
    pub fn decoder_stalled(&self, now: u64) -> (r: bool)
        ensures
            r == self@.stalled(now),
    {
        let live: bool = match self.p.last_video_packet {
            Some(t) => time_since(now, t) < 2_000_000_000,
            None => false,
        };
        let last_out: u64 = match self.p.last_decode_out {
            Some(t) => t,
            None => self.p.started,
        };
        let rested: bool = match self.p.last_decoder_restart {
            Some(t) => time_since(now, t) >= 8_000_000_000,
            None => true,
        };
        live && time_since(now, last_out) >= 4_000_000_000 && rested
    }

    /// Drops all stream and composition state for a restart of the decoder and
    /// asks for a keyframe.
    pub fn restart_decoder(&mut self, now: u64)
        requires
            old(self).wf(),
        ensures
            final(self).wf(),
            final(self)@ == old(self)@.restarted(now),
    {
        let keys = keys_of(&self.streams);
        let n: usize = keys.len();
        let ghost start = self.streams@;
        let mut i: usize = 0;
        while i < n
            invariant
                self.wf(),
                n == keys@.len(),
                i <= n,
                keys@.no_duplicates(),
                forall|k: u64| #[trigger] keys@.contains(k) <==> start.contains_key(k),
                self@ == (ReceiverState { streams: stream_states(self.streams@), ..old(self)@ }),
                start == old(self).streams@,
                forall|k: u64| #[trigger]
                    self.streams@.contains_key(k) <==> start.contains_key(k),
                forall|j: int|
                    0 <= j < i ==> self.streams@[#[trigger] keys@[j]]@ == start[keys@[j]]@.flushed(),
                forall|j: int|
                    i <= j < n ==> self.streams@[#[trigger] keys@[j]] == start[keys@[j]],
            decreases n - i,
        {
            let key: u64 = keys[i];
            assert(keys@.contains(keys@[i as int]));
            if let Some(s) = self.streams.remove(&key) {
                let mut stream = s;
                stream.flush();
                self.streams.insert(key, stream);
            }
            i = i + 1;
        }
        proof {
            assert forall|k: u64| #[trigger] start.contains_key(k) implies self.streams@[k]@
                == start[k]@.flushed() by {
                assert(keys@.contains(k));
                let j = choose|j: int| 0 <= j < keys@.len() && keys@[j] == k;
                assert(keys@[j] == k);
            }
        }
        self.au_tags.clear();
        self.canvas.clear();
        self.p.last_decode_out = None;
        self.p.last_decoder_restart = Some(now);
        self.request_keyframe();
        assert(self@.streams =~= old(self)@.restarted(now).streams);
    }
}

/// A packet that is not authentic, or whose header does not fit, leaves the
/// receiver as it was and asks for nothing.
pub proof fn lemma_unauthentic_packet_is_ignored(
    s: ReceiverState,
    pkt: Seq<u8>,
    from_ctrl: bool,
    now: u64,
)
    requires
        pkt.len() >= 2,
        if is_rtcp_type(pkt[1]) {
            s.rtcp_in.unsealed(pkt) is None
        } else if from_ctrl {
            s.audio.opened(pkt) is None
        } else {
            s.video.opened(pkt) is None
        },
    ensures
        s.received(pkt, from_ctrl, now) == (s, Seq::<Effect>::empty()),
{
}

/// After a keyframe request, none is sent for the next two seconds.
pub proof fn lemma_keyframe_requests_are_spaced(s: ReceiverState, now: u64, later: u64)
    requires
        s.keyframe_due(now),
        elapsed(later, now) < 2 * second(),
    ensures
        s.requesting(now).1.len() == 1,
        s.requesting(now).0.requesting(later) == (s.requesting(now).0, Seq::<Effect>::empty()),
{
}

/// An access unit with a keyframe ends the wish for one.
pub proof fn lemma_keyframe_disarms(
    s: ReceiverState,
    au: Seq<u8>,
    ssrc: u32,
    donl: Option<u16>,
    now: u64,
)
    requires
        unit_kinds_from(s.codec, au, 0, UnitKinds::nothing()).idr,
    ensures
        ({
            let after = s.with_unit(au, ssrc, donl).0;
            &&& !after.p.fir_armed
            &&& after.p.saw_idr
            &&& after.requesting(now) == (after, Seq::<Effect>::empty())
        }),
{
}

/// The tag of an access unit leads back to it once: the picture that carries
/// it is attributed to the unit's source, and the same tag is unknown
/// afterwards.
pub proof fn lemma_tag_is_used_once(
    s: ReceiverState,
    pts: u64,
    rgba: Seq<u8>,
    size: Option<(u16, u16)>,
    now: u64,
)
    ensures
        !s.decoded(pts, rgba, size, now).0.au_tags.contains_key(pts),
        forall|other: u64|
            other != pts ==> (#[trigger] s.decoded(pts, rgba, size, now).0.au_tags.contains_key(
                other,
            ) <==> s.au_tags.contains_key(other)),
{
}

/// Noting a source, even where it changes the tile group, leaves the decoder
/// running: nothing that was fed to it is forgotten, and no source loses its
/// receive state.
pub proof fn lemma_adoption_keeps_the_decoder(s: ReceiverState, ssrc: u32, now: u64)
    requires
        s.group.orderly(s.codec),
    ensures
        ({
            let next = s.with_source(ssrc, now);
            &&& next.group.orderly(next.codec)
            &&& next.p.last_decoder_restart == s.p.last_decoder_restart
            &&& next.p.au_pushed == s.p.au_pushed
            &&& next.p.au_counter == s.p.au_counter
            &&& next.au_tags == s.au_tags
            &&& next.streams == s.streams
        }),
{
    let recent = s.p.last_decode_out matches Some(t) && elapsed(now, t) < 2 * second();
    lemma_group_stays_orderly(s.group, s.codec, ssrc, recent);
}

/// A restart keeps the keys, the tile group and the sequence state of every
/// source, and leaves a keyframe wanted.
pub proof fn lemma_restart_keeps_the_session(s: ReceiverState, now: u64)
    ensures
        s.restarted(now).video == s.video,
        s.restarted(now).audio == s.audio,
        s.restarted(now).rtcp_out == s.rtcp_out,
        s.restarted(now).group == s.group,
        s.restarted(now).p.fir_armed,
        forall|k: u64| #[trigger]
            s.streams.contains_key(k) ==> s.restarted(now).streams.contains_key(k)
                && s.restarted(now).streams[k].last_seq == s.streams[k].last_seq,
        !s.restarted(now).stalled(now),
{
}

proof fn lemma_tile_from_group(a: ReceiverState, b: ReceiverState, ssrc: u32, i: int)
    requires
        a.group == b.group,
    ensures
        a.tile_from(ssrc, i) == b.tile_from(ssrc, i),
    decreases a.group.tiles.len() - i,
{
    if 0 <= i < a.group.tiles.len() && a.group.tiles[i] != ssrc {
        lemma_tile_from_group(a, b, ssrc, i + 1);
    }
}

} // verus!
