//! Construction of the media stream offer.

use vstd::prelude::*;
use vstd::utf8::encode_utf8;

use crate::apple_media::bplist::{build_dict, negotiation_objects, plist};
use crate::apple_media::protobuf::{bytes_field, field_bytes, field_varint, varint_field};
use crate::apple_media::uuid::{fresh_identifier, random_uuid_string, uuid_bytes, uuid_value};
use crate::entropy::{drawn, drawn_u32, random_bytes, random_u32};
use crate::inflate::{deflated, zlib_compress};
use crate::messages::{long_at, short_at};
use crate::text::{capitalise_first, capitalised, concat_text};
use crate::wire::{
    be16, be32, holds, lemma_high_byte_first, lemma_holds_both, push_all, push_u16, push_u32,
    push_zeros, zeros,
};

verus! {

/// Length of a single SRTP master key blob: 32-byte cipher key + 14-byte salt.
pub const SRTP_KEY_BLOB_LEN: usize = 46;

/// SRTP master key blobs and negotiated SSRCs exchanged in the media stream
/// options message.
#[derive(Debug, Clone)]
pub struct MediaStreamKeys {
    /// Audio, viewer to server (used to authenticate outgoing RTCP/SRTCP).
    pub audio_key_v: [u8; 46],
    /// Audio, server to viewer (used to unprotect incoming audio).
    pub audio_key_s: [u8; 46],
    /// Video, viewer to server.
    pub video_key_v: [u8; 46],
    /// Video, server to viewer (used to unprotect incoming video).
    pub video_key_s: [u8; 46],
    /// Audio stream SSRC negotiated in the offer.
    pub audio_ssrc: u32,
    /// Video stream SSRC negotiated in the offer (used as the RTCP sender SSRC).
    pub video_ssrc: u32,
}

fn random_blob() -> (r: [u8; 46])
    ensures
        drawn(r@),
{
    let bytes = random_bytes(46);
    let mut out: [u8; 46] = [0u8; 46];
    let mut i: usize = 0;
    while i < 46
        invariant
            i <= 46,
            bytes@.len() == 46,
            forall|k: int| 0 <= k < i ==> #[trigger] out@[k] == bytes@[k],
        decreases 46 - i,
    {
        out[i] = bytes[i];
        i = i + 1;
    }
    assert(out@ =~= bytes@);
    out
}

impl MediaStreamKeys {
    /// Whether every blob and every SSRC was drawn at random.
    pub open spec fn fresh(self) -> bool {
        drawn(self.audio_key_v@) && drawn(self.audio_key_s@) && drawn(self.video_key_v@) && drawn(
            self.video_key_s@,
        ) && drawn_u32(self.audio_ssrc) && drawn_u32(self.video_ssrc)
    }

    /// Generates fresh random SRTP master key blobs and SSRCs.
    pub fn random() -> (r: MediaStreamKeys)
        ensures
            r.fresh(),
    {
        MediaStreamKeys {
            audio_key_v: random_blob(),
            audio_key_s: random_blob(),
            video_key_v: random_blob(),
            video_key_s: random_blob(),
            audio_ssrc: random_u32(),
            video_ssrc: random_u32(),
        }
    }
}

/// The viewer's machine, as announced to the server.
pub struct ViewerEndpoint {
    /// Operating system name.
    pub os: String,
    /// Processor architecture.
    pub arch: String,
    /// Operating system build, or `0` where it is not known.
    pub os_build: String,
}

impl ViewerEndpoint {
    /// The hardware model string.
    pub open spec fn model(&self) -> Seq<char> {
        capitalised(self.os@) + "-"@ + self.arch@
    }
}

/// The parameter string of the AVC bank.
pub open spec fn avc_params() -> Seq<char> {
    "FLS;LF:-1;POS:5;EOD:1;HTS:2;RR:3;POSE:4;AR:16/9,5/8;XR:16/9,5/8;"@
}

/// The parameter string of the HEVC bank.
pub open spec fn hevc_params() -> Seq<char> {
    "FLS;MS:-1;LF:-1;LTR;CABAC;POS:0;EOD:1;HTS:2;RR:3;AR:16/9,5/8;XR:16/9,5/8;"@
}

/// One resolution entry of a codec bank.
pub open spec fn resolution_entry(kind: u64) -> Seq<u8> {
    varint_field(1, 1) + varint_field(2, kind) + varint_field(3, 50115) + varint_field(4, 0)
}

/// The bank with codec constant 123: two pairs of resolution entries.
pub open spec fn hevc_bank() -> Seq<u8> {
    varint_field(1, 123) + bytes_field(2, resolution_entry(1)) + bytes_field(
        2,
        resolution_entry(2),
    ) + bytes_field(2, resolution_entry(1)) + bytes_field(2, resolution_entry(2)) + bytes_field(
        3,
        encode_utf8(hevc_params()),
    ) + varint_field(4, 1)
}

/// The bank with codec constant 100: one pair of resolution entries.
pub open spec fn avc_bank() -> Seq<u8> {
    varint_field(1, 100) + bytes_field(2, resolution_entry(1)) + bytes_field(
        2,
        resolution_entry(2),
    ) + bytes_field(3, encode_utf8(avc_params())) + varint_field(4, 14)
}

/// One bandwidth tier.
pub open spec fn tier(f1: u64, f2: u64, f3: Option<u64>) -> Seq<u8> {
    bytes_field(
        9,
        match f3 {
            Some(v) => varint_field(1, f1) + varint_field(2, f2) + varint_field(3, v),
            None => varint_field(1, f1) + varint_field(2, f2),
        },
    )
}

/// The bandwidth tiers of every offer.
pub open spec fn tiers() -> Seq<u8> {
    tier(0, 40_000_000, Some(12288)) + tier(0, 6_000_000, Some(131_072)) + tier(
        4074,
        0,
        Some(16_384),
    ) + tier(16, 4100, None) + tier(0, 75_000_000, Some(524_288)) + tier(
        0,
        20_000_000,
        Some(98_304),
    ) + tier(4, 6500, None) + tier(0, 60_000_000, Some(262_144)) + tier(1, 299, None) + tier(
        0,
        100_000_000,
        Some(1_048_576),
    )
}

/// The message that is compressed into a media blob.
pub open spec fn blob_plain(description: Seq<u8>, timestamp: u64) -> Seq<u8> {
    varint_field(1, 1) + varint_field(2, 1) + description + bytes_field(
        6,
        encode_utf8("OpenClaw 0.1.0"@),
    ) + varint_field(8, 0) + tiers() + varint_field(13, timestamp) + varint_field(14, 2)
        + varint_field(16, 0) + varint_field(18, 1)
}

/// The video description: long-term references on, four tiles, both banks.
pub open spec fn video_description(ssrc: u32) -> Seq<u8> {
    varint_field(1, ssrc as u64) + varint_field(2, 1) + bytes_field(3, hevc_bank()) + bytes_field(
        3,
        avc_bank(),
    ) + varint_field(6, 4) + varint_field(7, 1) + varint_field(8, 63) + varint_field(9, 1)
        + varint_field(12, 1)
}

/// The audio description. A bitrate below the server's tier floor suppresses
/// audio.
pub open spec fn audio_description(ssrc: u32, enabled: bool) -> Seq<u8> {
    varint_field(1, ssrc as u64) + varint_field(2, 0) + varint_field(3, 0) + varint_field(
        4,
        if enabled {
            24191
        } else {
            1000
        },
    ) + varint_field(5, 0) + varint_field(6, 0)
}

/// What is said of the viewer's machine.
pub open spec fn endpoint_info(e: &ViewerEndpoint) -> Seq<u8> {
    seq![8u8, 0u8, 16u8, 1u8] + bytes_field(3, encode_utf8(e.model())) + bytes_field(
        4,
        encode_utf8("1.0.0"@),
    ) + bytes_field(5, encode_utf8(e.os_build@))
}

/// The video section of an offer.
pub open spec fn video_section(
    ssrc: u32,
    e: &ViewerEndpoint,
    timestamp: u64,
    id: Seq<char>,
) -> Seq<u8> {
    plist(
        negotiation_objects(
            endpoint_info(e),
            7,
            deflated(blob_plain(bytes_field(5, video_description(ssrc)), timestamp)),
            id,
        ),
        8,
    )
}

/// The audio section of an offer.
pub open spec fn audio_section(
    ssrc: u32,
    enabled: bool,
    e: &ViewerEndpoint,
    timestamp: u64,
    id: Seq<char>,
) -> Seq<u8> {
    plist(
        negotiation_objects(
            endpoint_info(e),
            8,
            deflated(blob_plain(bytes_field(3, audio_description(ssrc, enabled)), timestamp)),
            id,
        ),
        8,
    )
}

/// The offer message with its size fields: of the whole, of the audio and of the
/// video section.
pub open spec fn sized_offer(
    sizes: (u16, u16, u16),
    keys: &MediaStreamKeys,
    id: Seq<u8>,
    audio: Seq<u8>,
    video: Seq<u8>,
) -> Seq<u8> {
    seq![0x1cu8, 0u8] + be16(sizes.0) + be16(3) + be32(7) + be16(sizes.1) + be16(sizes.2) + zeros(6)
        + id + keys.audio_key_v@ + keys.audio_key_s@ + audio + keys.video_key_v@
        + keys.video_key_s@ + video
}

/// The offer message around an audio and a video section.
pub open spec fn options_message(
    keys: &MediaStreamKeys,
    call_id: Seq<char>,
    audio: Seq<u8>,
    video: Seq<u8>,
) -> Seq<u8> {
    let audio_size = (audio.len() % 0x1_0000) as u16;
    let video_size = (video.len() % 0x1_0000) as u16;
    let size = ((audio_size + video_size + 0xd8) % 0x1_0000) as u16;
    sized_offer(
        (size, audio_size, video_size),
        keys,
        uuid_value(encode_utf8(call_id)),
        audio,
        video,
    )
}

fn build_resolution_entry(kind: u64) -> (r: Vec<u8>)
    ensures
        r@ == resolution_entry(kind),
{
    let mut out = field_varint(1, 1);
    push_all(&mut out, &field_varint(2, kind));
    push_all(&mut out, &field_varint(3, 50115));
    push_all(&mut out, &field_varint(4, 0));
    out
}

fn build_hevc_bank() -> (r: Vec<u8>)
    ensures
        r@ == hevc_bank(),
{
    let entry = field_bytes(2, &build_resolution_entry(1));
    let entry_alt = field_bytes(2, &build_resolution_entry(2));
    let params = "FLS;MS:-1;LF:-1;LTR;CABAC;POS:0;EOD:1;HTS:2;RR:3;AR:16/9,5/8;XR:16/9,5/8;";
    let mut bank = field_varint(1, 123);
    push_all(&mut bank, &entry);
    push_all(&mut bank, &entry_alt);
    push_all(&mut bank, &entry);
    push_all(&mut bank, &entry_alt);
    push_all(&mut bank, &field_bytes(3, params.as_bytes()));
    push_all(&mut bank, &field_varint(4, 1));
    bank
}

fn build_avc_bank() -> (r: Vec<u8>)
    ensures
        r@ == avc_bank(),
{
    let params = "FLS;LF:-1;POS:5;EOD:1;HTS:2;RR:3;POSE:4;AR:16/9,5/8;XR:16/9,5/8;";
    let mut bank = field_varint(1, 100);
    push_all(&mut bank, &field_bytes(2, &build_resolution_entry(1)));
    push_all(&mut bank, &field_bytes(2, &build_resolution_entry(2)));
    push_all(&mut bank, &field_bytes(3, params.as_bytes()));
    push_all(&mut bank, &field_varint(4, 14));
    bank
}

fn build_tier(f1: u64, f2: u64, f3: Option<u64>) -> (r: Vec<u8>)
    ensures
        r@ == tier(f1, f2, f3),
{
    let mut entry = field_varint(1, f1);
    push_all(&mut entry, &field_varint(2, f2));
    if let Some(v) = f3 {
        push_all(&mut entry, &field_varint(3, v));
    }
    field_bytes(9, &entry)
}

fn build_audio_f9_tiers() -> (r: Vec<u8>)
    ensures
        r@ == tiers(),
{
    let mut body = build_tier(0, 40_000_000, Some(12288));
    push_all(&mut body, &build_tier(0, 6_000_000, Some(131_072)));
    push_all(&mut body, &build_tier(4074, 0, Some(16_384)));
    push_all(&mut body, &build_tier(16, 4100, None));
    push_all(&mut body, &build_tier(0, 75_000_000, Some(524_288)));
    push_all(&mut body, &build_tier(0, 20_000_000, Some(98_304)));
    push_all(&mut body, &build_tier(4, 6500, None));
    push_all(&mut body, &build_tier(0, 60_000_000, Some(262_144)));
    push_all(&mut body, &build_tier(1, 299, None));
    push_all(&mut body, &build_tier(0, 100_000_000, Some(1_048_576)));
    body
}

fn build_top_level_mediablob(description: &[u8], timestamp: u64) -> (r: Vec<u8>)
    ensures
        r@ == deflated(blob_plain(description@, timestamp)),
{
    let mut msg = field_varint(1, 1);
    push_all(&mut msg, &field_varint(2, 1));
    push_all(&mut msg, description);
    push_all(&mut msg, &field_bytes(6, "OpenClaw 0.1.0".as_bytes()));
    push_all(&mut msg, &field_varint(8, 0));
    push_all(&mut msg, &build_audio_f9_tiers());
    push_all(&mut msg, &field_varint(13, timestamp));
    push_all(&mut msg, &field_varint(14, 2));
    push_all(&mut msg, &field_varint(16, 0));
    push_all(&mut msg, &field_varint(18, 1));
    zlib_compress(&msg)
}

/// Builds the description of the viewer's machine.
pub fn build_remote_endpoint_info(e: &ViewerEndpoint) -> (r: Vec<u8>)
    ensures
        r@ == endpoint_info(e),
{
    let os = capitalise_first(&e.os);
    let os_dash = concat_text(&os, "-");
    let model = concat_text(&os_dash, &e.arch);
    let mut info: Vec<u8> = vec![8, 0, 16, 1];
    assert(info@ =~= seq![8u8, 0u8, 16u8, 1u8]);
    push_all(&mut info, &field_bytes(3, model.as_str().as_bytes()));
    push_all(&mut info, &field_bytes(4, "1.0.0".as_bytes()));
    push_all(&mut info, &field_bytes(5, e.os_build.as_str().as_bytes()));
    info
}

/// Builds the video section of an offer.
pub fn build_video_offer(ssrc: u32, e: &ViewerEndpoint, timestamp: u64, id: &str) -> (r: Vec<u8>)
    ensures
        r@ == video_section(ssrc, e, timestamp, id@),
{
    let mut desc = field_varint(1, ssrc as u64);
    push_all(&mut desc, &field_varint(2, 1));
    push_all(&mut desc, &field_bytes(3, &build_hevc_bank()));
    push_all(&mut desc, &field_bytes(3, &build_avc_bank()));
    push_all(&mut desc, &field_varint(6, 4));
    push_all(&mut desc, &field_varint(7, 1));
    push_all(&mut desc, &field_varint(8, 63));
    push_all(&mut desc, &field_varint(9, 1));
    push_all(&mut desc, &field_varint(12, 1));
    let blob = build_top_level_mediablob(&field_bytes(5, &desc), timestamp);
    build_dict(&build_remote_endpoint_info(e), 7, &blob, id)
}

/// Builds the audio section of an offer.
pub fn build_audio_offer(
    ssrc: u32,
    enabled: bool,
    e: &ViewerEndpoint,
    timestamp: u64,
    id: &str,
) -> (r: Vec<u8>)
    ensures
        r@ == audio_section(ssrc, enabled, e, timestamp, id@),
{
    let bitrate: u64 = if enabled {
        24191
    } else {
        1000
    };
    let mut desc = field_varint(1, ssrc as u64);
    push_all(&mut desc, &field_varint(2, 0));
    push_all(&mut desc, &field_varint(3, 0));
    push_all(&mut desc, &field_varint(4, bitrate));
    push_all(&mut desc, &field_varint(5, 0));
    push_all(&mut desc, &field_varint(6, 0));
    let blob = build_top_level_mediablob(&field_bytes(3, &desc), timestamp);
    build_dict(&build_remote_endpoint_info(e), 8, &blob, id)
}

/// Frames an audio and a video section as an offer message.
pub fn frame_media_stream_options(
    keys: &MediaStreamKeys,
    call_id: &str,
    audio_offer: &[u8],
    video_offer: &[u8],
) -> (msg: Vec<u8>)
    ensures
        msg@ == options_message(keys, call_id@, audio_offer@, video_offer@),
{
    let audio_size: u16 = (audio_offer.len() % 0x1_0000) as u16;
    let video_size: u16 = (video_offer.len() % 0x1_0000) as u16;
    // Counts from the byte after the size field to the end of the message.
    let message_size: u16 = ((audio_size as u32 + video_size as u32 + 0xd8) % 0x1_0000) as u16;
    let mut msg: Vec<u8> = vec![0x1c, 0];
    assert(msg@ =~= seq![0x1cu8, 0u8]);
    push_u16(&mut msg, message_size);
    push_u16(&mut msg, 3);
    push_u32(&mut msg, 7);
    push_u16(&mut msg, audio_size);
    push_u16(&mut msg, video_size);
    push_zeros(&mut msg, 6);
    push_all(&mut msg, &uuid_bytes(call_id));
    push_all(&mut msg, &keys.audio_key_v);
    push_all(&mut msg, &keys.audio_key_s);
    push_all(&mut msg, audio_offer);
    push_all(&mut msg, &keys.video_key_v);
    push_all(&mut msg, &keys.video_key_s);
    push_all(&mut msg, video_offer);
    msg
}

/// Builds an offer with one audio stream and one video stream.
///
/// `audio_enabled` controls whether the audio section requests audible system
/// audio or a sub-floor bitrate that suppresses it; the section is present
/// either way. The video section always advertises both codec banks. The
/// identifiers in the message are drawn at random.
pub fn build_media_stream_options(
    keys: &MediaStreamKeys,
    audio_enabled: bool,
    endpoint: &ViewerEndpoint,
    timestamp: u64,
) -> (msg: Vec<u8>)
    ensures
        exists|call_id: Seq<char>, video_id: Seq<char>, audio_id: Seq<char>|
            fresh_identifier(call_id) && fresh_identifier(video_id) && fresh_identifier(audio_id) && msg@
                == #[trigger] options_message(
                keys,
                call_id,
                audio_section(keys.audio_ssrc, audio_enabled, endpoint, timestamp, audio_id),
                video_section(keys.video_ssrc, endpoint, timestamp, video_id),
            ),
{
    let call_id = random_uuid_string();
    let video_id = random_uuid_string();
    let audio_id = random_uuid_string();
    let video = build_video_offer(keys.video_ssrc, endpoint, timestamp, &video_id);
    let audio = build_audio_offer(keys.audio_ssrc, audio_enabled, endpoint, timestamp, &audio_id);
    frame_media_stream_options(keys, &call_id, &audio, &video)
}

proof fn lemma_append(s: Seq<u8>, more: Seq<u8>)
    requires
        s.len() >= 4,
    ensures
        (s + more).len() == s.len() + more.len(),
        crate::wire::u16_of(s + more, 2) == crate::wire::u16_of(s, 2),
{
}

proof fn lemma_value_len(text: Seq<u8>)
    ensures
        uuid_value(text).len() == 16,
{
}

proof fn lemma_sized_offer(
    sizes: (u16, u16, u16),
    keys: &MediaStreamKeys,
    id: Seq<u8>,
    audio: Seq<u8>,
    video: Seq<u8>,
)
    requires
        id.len() == 16,
    ensures
        sized_offer(sizes, keys, id, audio, video).len() == audio.len() + video.len() + 0xdc,
        crate::wire::u16_of(sized_offer(sizes, keys, id, audio, video), 2) == sizes.0,
{
    let s0 = seq![0x1cu8, 0u8] + be16(sizes.0);
    assert(s0 =~= s0 + Seq::<u8>::empty());
    crate::wire::lemma_u16_inside(seq![0x1cu8, 0u8], sizes.0, Seq::empty());
    let s1 = s0 + be16(3);
    let s2 = s1 + be32(7);
    let s3 = s2 + be16(sizes.1);
    let s4 = s3 + be16(sizes.2);
    let s5 = s4 + zeros(6);
    let s6 = s5 + id;
    let s7 = s6 + keys.audio_key_v@;
    let s8 = s7 + keys.audio_key_s@;
    let s9 = s8 + audio;
    let s10 = s9 + keys.video_key_v@;
    let s11 = s10 + keys.video_key_s@;
    lemma_append(s0, be16(3));
    lemma_append(s1, be32(7));
    lemma_append(s2, be16(sizes.1));
    lemma_append(s3, be16(sizes.2));
    lemma_append(s4, zeros(6));
    lemma_append(s5, id);
    lemma_append(s6, keys.audio_key_v@);
    lemma_append(s7, keys.audio_key_s@);
    lemma_append(s8, audio);
    lemma_append(s9, keys.video_key_v@);
    lemma_append(s10, keys.video_key_s@);
    lemma_append(s11, video);
}

/// The size field of an offer counts the bytes behind it, as long as both
/// sections are small enough for their own size fields and the sum fits.
pub proof fn lemma_offer_size(
    keys: &MediaStreamKeys,
    call_id: Seq<char>,
    audio: Seq<u8>,
    video: Seq<u8>,
)
    requires
        audio.len() + video.len() + 0xd8 < 0x1_0000,
    ensures
        options_message(keys, call_id, audio, video).len() == 4 + crate::wire::u16_of(
            options_message(keys, call_id, audio, video),
            2,
        ),
{
    let text = encode_utf8(call_id);
    lemma_value_len(text);
    let audio_size = (audio.len() % 0x1_0000) as u16;
    let video_size = (video.len() % 0x1_0000) as u16;
    let size = ((audio_size + video_size + 0xd8) % 0x1_0000) as u16;
    assert(size == audio.len() + video.len() + 0xd8);
    lemma_sized_offer((size, audio_size, video_size), keys, uuid_value(text), audio, video);
}

/// An offer says how long it is behind its first four bytes, how long its audio
/// and its video section are, and by which number the call goes; then come the
/// viewer's and the server's audio keys, the audio section, the viewer's and the
/// server's video keys, and the video section.
#[verifier::spinoff_prover]
pub proof fn lemma_offer_layout(
    keys: &MediaStreamKeys,
    call_id: Seq<char>,
    audio: Seq<u8>,
    video: Seq<u8>,
)
    requires
        audio.len() + video.len() + 216 <= 0xffff,
    ensures
        ({
            let m = options_message(keys, call_id, audio, video);
            let (a, v) = (audio.len() as int, video.len() as int);
            &&& m.len() == 220 + a + v
            &&& m[0] == 0x1c && m[1] == 0
            &&& short_at(m, 2) == m.len() - 4
            &&& short_at(m, 4) == 3
            &&& long_at(m, 6) == 7
            &&& short_at(m, 10) == a
            &&& short_at(m, 12) == v
            &&& forall|i: int| 14 <= i < 20 ==> #[trigger] m[i] == 0
            &&& m.subrange(20, 36) == uuid_value(encode_utf8(call_id))
            &&& m.subrange(36, 82) == keys.audio_key_v@
            &&& m.subrange(82, 128) == keys.audio_key_s@
            &&& m.subrange(128, 128 + a) == audio
            &&& m.subrange(128 + a, 174 + a) == keys.video_key_v@
            &&& m.subrange(174 + a, 220 + a) == keys.video_key_s@
            &&& m.skip(220 + a) == video
        }),
{
    let m = options_message(keys, call_id, audio, video);
    let (a, v) = (audio.len() as int, video.len() as int);
    let head = seq![0x1cu8, 0u8] + be16((a + v + 216) as u16) + be16(3) + be32(7) + be16(a as u16)
        + be16(v as u16) + zeros(6);
    let id = uuid_value(encode_utf8(call_id));
    let p1 = head + id;
    let p2 = p1 + keys.audio_key_v@;
    let p3 = p2 + keys.audio_key_s@;
    let p4 = p3 + audio;
    let p5 = p4 + keys.video_key_v@;
    let p6 = p5 + keys.video_key_s@;
    assert(m == p6 + video);
    assert(holds(m, 0, m));
    lemma_last_part(m, p6, video);
    lemma_last_part(m, p5, keys.video_key_s@);
    lemma_last_part(m, p4, keys.video_key_v@);
    lemma_last_part(m, p3, audio);
    lemma_last_part(m, p2, keys.audio_key_s@);
    lemma_last_part(m, p1, keys.audio_key_v@);
    lemma_last_part(m, head, id);
    assert(m.skip(220 + a) =~= m.subrange(220 + a, 220 + a + v));
    lemma_offer_head(m, head, (a + v + 216) as u16, a as u16, v as u16);
}

proof fn lemma_last_part(m: Seq<u8>, before: Seq<u8>, part: Seq<u8>)
    requires
        holds(m, 0, before + part),
    ensures
        holds(m, 0, before),
        before.len() + part.len() <= m.len(),
        m.subrange(before.len() as int, (before.len() + part.len()) as int) == part,
{
    lemma_holds_both(m, 0, before, part);
    assert(m.subrange(before.len() as int, (before.len() + part.len()) as int) =~= part);
}

#[verifier::spinoff_prover]
proof fn lemma_offer_head(m: Seq<u8>, head: Seq<u8>, size: u16, a: u16, v: u16)
    requires
        head == seq![0x1cu8, 0u8] + be16(size) + be16(3) + be32(7) + be16(a) + be16(v) + zeros(6),
        holds(m, 0, head),
    ensures
        m[0] == 0x1c && m[1] == 0,
        short_at(m, 2) == size,
        short_at(m, 4) == 3,
        long_at(m, 6) == 7,
        short_at(m, 10) == a,
        short_at(m, 12) == v,
        forall|i: int| 14 <= i < 20 ==> #[trigger] m[i] == 0,
{
    lemma_high_byte_first(size, 7);
    lemma_high_byte_first(a, 0);
    lemma_high_byte_first(v, 0);
    lemma_high_byte_first(3, 0);
    let (s, p, q) = (be16(size), be16(a), be16(v));
    let (k, l) = (be32(7), be16(3));
    assert forall|i: int| 0 <= i < 20 implies #[trigger] m[i] == head[i] by {
        assert(m[0 + i] == head[i]);
    }
    assert(head[2] == s[0] && head[3] == s[1]);
    assert(head[4] == l[0] && head[5] == l[1]);
    assert(head[6] == k[0] && head[7] == k[1] && head[8] == k[2] && head[9] == k[3]);
    assert(head[10] == p[0] && head[11] == p[1] && head[12] == q[0] && head[13] == q[1]);
}

} // verus!
