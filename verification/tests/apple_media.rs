use vnc_client::apple_media::bplist::{build_dict, parse_dict, Value};
use vnc_client::apple_media::offer::{build_audio_offer, build_remote_endpoint_info, build_video_offer};
use vnc_client::apple_media::protobuf::{field_bytes, field_varint, read_varint, varint};
use vnc_client::apple_media::uuid::{random_uuid_string, uuid_bytes, uuid_string, version_4};
use vnc_client::apple_media::{
    build_media_stream_options, parse_media_stream_answer, parse_media_stream_init,
    MediaStreamKeys, ViewerEndpoint, SRTP_KEY_BLOB_LEN,
};
use vnc_client::decoder::Codec;
use vnc_client::inflate::{zlib_compress, zlib_decompress};

fn endpoint() -> ViewerEndpoint {
    ViewerEndpoint {
        os: "linux".to_string(),
        arch: "x86_64".to_string(),
        os_build: "1".to_string(),
    }
}

#[test]
fn offer_has_expected_layout() {
    let keys = MediaStreamKeys::random();
    let msg = build_media_stream_options(&keys, true, &endpoint(), 0);
    assert_eq!(msg[0], 0x1c);
    assert_eq!(msg[1], 0x00);
    let message_size = u16::from_be_bytes([msg[2], msg[3]]) as usize;
    assert_eq!(msg.len(), 4 + message_size);
    assert_eq!(u16::from_be_bytes([msg[4], msg[5]]), 3); // version
    assert_eq!(u32::from_be_bytes([msg[6], msg[7], msg[8], msg[9]]), 7); // flags
    let audio_size = u16::from_be_bytes([msg[10], msg[11]]) as usize;
    let video_size = u16::from_be_bytes([msg[12], msg[13]]) as usize;
    assert!(audio_size > 0);
    assert!(video_size > 0);
}

#[test]
fn offer_contains_hevc_bank_only() {
    let keys = MediaStreamKeys {
        audio_key_v: [0u8; SRTP_KEY_BLOB_LEN],
        audio_key_s: [0u8; SRTP_KEY_BLOB_LEN],
        video_key_v: [0u8; SRTP_KEY_BLOB_LEN],
        video_key_s: [0u8; SRTP_KEY_BLOB_LEN],
        audio_ssrc: 1,
        video_ssrc: 2,
    };
    let offer = build_media_stream_options(&keys, false, &endpoint(), 0);
    let codecs = extract_offer_codec_constants(&offer);
    assert_eq!(codecs, vec![123, 100]);
}

fn extract_offer_codec_constants(offer: &[u8]) -> Vec<u64> {
    let audio_size = u16::from_be_bytes([offer[10], offer[11]]) as usize;
    let video_size = u16::from_be_bytes([offer[12], offer[13]]) as usize;
    // Header is 14 bytes, followed by 6 reserved bytes, 16-byte UUID, both
    // audio keys, the audio offer, and then both video keys before the
    // video offer.
    let video_start = 14 + 6 + 16 + 92 + audio_size + 92;
    let video_offer = &offer[video_start..video_start + video_size];

    let plist = parse_dict(video_offer).expect("parse offer plist");
    let media_blob = match plist.get("avcMediaStreamNegotiatorMediaBlob") {
        Some(Value::Data(d)) => d,
        _ => return Vec::new(),
    };
    let decompressed = zlib_decompress(media_blob).expect("decompress media blob");

    // Top-level media blob: field 5 carries the video description.
    let desc = extract_field_2_bytes(&decompressed, 5).expect("video desc field");

    // Description: field 3 carries the codec banks (repeated).
    extract_repeated_field_2_bytes(desc, 3)
        .iter()
        .filter_map(|bank| extract_bank_codec_constant(bank))
        .collect()
}

fn extract_field_2_bytes(data: &[u8], target: u64) -> Option<&[u8]> {
    let mut pos = 0;
    while pos < data.len() {
        let (tag, p) = read_varint(data, pos)?;
        pos = p;
        let field = tag >> 3;
        let wt = tag & 7;
        if field == target && wt == 2 {
            let (len, p) = read_varint(data, pos)?;
            pos = p;
            return Some(&data[pos..pos + len as usize]);
        } else if wt == 2 {
            let (len, p) = read_varint(data, pos)?;
            pos = p + len as usize;
        } else if wt == 0 {
            let (_, p) = read_varint(data, pos)?;
            pos = p;
        } else if wt == 1 {
            pos += 8;
        } else if wt == 5 {
            pos += 4;
        } else {
            break;
        }
    }
    None
}

fn extract_repeated_field_2_bytes(data: &[u8], target: u64) -> Vec<&[u8]> {
    let mut out = Vec::new();
    let mut pos = 0;
    while pos < data.len() {
        let Some((tag, p)) = read_varint(data, pos) else {
            break;
        };
        pos = p;
        let field = tag >> 3;
        let wt = tag & 7;
        if field == target && wt == 2 {
            let Some((len, p)) = read_varint(data, pos) else {
                break;
            };
            pos = p;
            out.push(&data[pos..pos + len as usize]);
            pos += len as usize;
        } else if wt == 2 {
            let Some((len, p)) = read_varint(data, pos) else {
                break;
            };
            pos = p + len as usize;
        } else if wt == 0 {
            let Some((_, p)) = read_varint(data, pos) else {
                break;
            };
            pos = p;
        } else if wt == 1 {
            pos += 8;
        } else if wt == 5 {
            pos += 4;
        } else {
            break;
        }
    }
    out
}

fn extract_bank_codec_constant(bank: &[u8]) -> Option<u64> {
    let mut pos = 0;
    while pos < bank.len() {
        let (tag, p) = read_varint(bank, pos)?;
        pos = p;
        let field = tag >> 3;
        let wt = tag & 7;
        if field == 1 && wt == 0 {
            let (v, _) = read_varint(bank, pos)?;
            return Some(v);
        } else if wt == 2 {
            let (len, p) = read_varint(bank, pos)?;
            pos = p + len as usize;
        } else if wt == 0 {
            let (_, p) = read_varint(bank, pos)?;
            pos = p;
        } else if wt == 1 {
            pos += 8;
        } else if wt == 5 {
            pos += 4;
        } else {
            break;
        }
    }
    None
}

#[test]
fn roundtrip_bplist_build_parse() {
    let plist = build_dict(
        b"\x01\x02",
        7,
        b"\x03\x04",
        "550E8400-E29B-41D4-A716-446655440000",
    );
    let dict = parse_dict(&plist).expect("parse own plist");
    assert_eq!(
        dict.get("avcMediaStreamNegotiatorMode"),
        Some(&Value::Int(7))
    );
    assert_eq!(
        dict.get("avcMediaStreamNegotiatorMediaBlob"),
        Some(&Value::Data(vec![0x03, 0x04]))
    );
    assert_eq!(
        dict.get("avcMediaStreamOptionCallID"),
        Some(&Value::String(
            "550E8400-E29B-41D4-A716-446655440000".to_string()
        ))
    );
}

#[test]
fn parse_media_stream_answer_extracts_canvas_and_codec() {
    // Build a minimal video MediaBlob answer: a top-level field 5 sub-message
    // carries canvas width/height/tile count, plus a field-3 codec bank
    // selecting HEVC (codec constant 100).
    let mut bank = Vec::new();
    bank.extend(field_varint(1, 100)); // HEVC selected
    bank.extend(field_bytes(2, b"res"));
    bank.extend(field_bytes(3, b"params"));

    let mut inner = Vec::new();
    inner.extend(field_varint(4, 1920));
    inner.extend(field_varint(5, 1080));
    inner.extend(field_varint(6, 1));
    inner.extend(field_bytes(3, &bank));
    let desc = field_bytes(5, &inner);
    let media_blob = zlib_compress(&desc);
    let plist =
        build_dict(b"", 7, &media_blob, "00000000-0000-0000-0000-000000000000");
    let answer = parse_media_stream_answer(&plist).expect("parse answer");
    assert_eq!(answer.canvas_width, 1920);
    assert_eq!(answer.canvas_height, 1080);
    assert_eq!(answer.tile_count, 1);
    assert_eq!(answer.codec, Codec::Hevc);
}

#[test]
fn parse_media_stream_answer_rejects_degenerate_blob() {
    let mut desc = Vec::new();
    desc.extend(field_varint(4, 0));
    desc.extend(field_varint(5, 0));
    let media_blob = zlib_compress(&desc);
    let plist =
        build_dict(b"", 7, &media_blob, "00000000-0000-0000-0000-000000000000");
    assert_eq!(parse_media_stream_answer(&plist), None);
}
#[test]
fn parse_media_stream_init_stage1() {
    // Stage-1 announcement: u16 length prefix followed immediately by the
    // 14-byte fixed header (no leading padding).
    let payload = [
        0x00, 0x0e, // payload_len = 14
        0x00, 0x01, // version = 1
        0x00, 0x01, // type = 1 (stage 1)
        0x00, 0x02, // field6 = next stream port
        0x00, 0x03, // field8 = stream count
        0x12, 0x34, // field10 = base UDP port
        0x00, 0x00, 0x00, 0x00, // field12 = reserved
    ];
    let init = parse_media_stream_init(&payload).expect("parse init");
    assert_eq!(init.stage, 1);
    assert_eq!(init.base_udp_port, 0x1234);
    assert_eq!(init.stream_count, 0x0003);
    assert_eq!(init.next_stream_port, 0x0002);
}

#[test]
fn parse_media_stream_init_stage2() {
    let payload = [
        0x00, 0x0e, // payload_len = 14
        0x00, 0x02, // version = 2
        0x00, 0x02, // type = 2 (stage 2)
        0x00, 0x00, // field6
        0x00, 0x01, // field8
        0x00, 0x00, // field10
        0x00, 0x00, 0x00, 0x00, // field12
    ];
    let init = parse_media_stream_init(&payload).expect("parse init");
    assert_eq!(init.stage, 2);
}

#[test]
fn parse_media_stream_init_version_zero() {
    // Some macOS builds emit a (0,0) announcement as the first media-init
    // hint. In this variant field6 carries the base UDP port and field10
    // the stream count.
    let payload = [
        0x00, 0x0e, // payload_len = 14
        0x00, 0x00, // version = 0
        0x00, 0x00, // type = 0
        0x17, 0x0c, // field6 = 5900 base UDP port
        0x00, 0x00, // field8 = next stream port
        0x00, 0x01, // field10 = stream count
        0x17, 0x10, 0x17, 0x00, // field12 = 386727936
    ];
    let init = parse_media_stream_init(&payload).expect("parse init");
    assert_eq!(init.stage, 1);
    assert_eq!(init.base_udp_port, 5900);
    assert_eq!(init.stream_count, 1);
    assert_eq!(init.next_stream_port, 0);
}

#[test]
fn varint_has_seven_bits_per_byte() {
    assert_eq!(varint(0), vec![0]);
    assert_eq!(varint(127), vec![127]);
    assert_eq!(varint(300), vec![0xac, 0x02]);
    assert_eq!(varint(u64::MAX).len(), 10);
    assert_eq!(read_varint(&varint(u64::MAX), 0), Some((u64::MAX, 10)));
    assert_eq!(read_varint(&[0x80], 0), None);
}

#[test]
fn fields_carry_their_number_and_wire_type() {
    assert_eq!(field_varint(4, 300), vec![0x20, 0xac, 0x02]);
    assert_eq!(field_bytes(2, b"ab"), vec![0x12, 2, b'a', b'b']);
}

#[test]
fn uuid_text_and_bytes_round_trip() {
    let text = "550E8400-E29B-41D4-A716-446655440000";
    let bytes = uuid_bytes(text);
    assert_eq!(bytes.len(), 16);
    assert_eq!(bytes[0], 0x55);
    assert_eq!(bytes[15], 0x00);
    assert_eq!(uuid_bytes(&uuid_string(&bytes)), bytes);
}

#[test]
fn version_four_bits_are_set() {
    let b = version_4(&[0xff; 16]);
    assert_eq!(b[6], 0x4f);
    assert_eq!(b[8], 0xbf);
    let random = random_uuid_string();
    assert_eq!(random.len(), 36);
    assert_eq!(uuid_bytes(&random)[6] >> 4, 4);
}

#[test]
fn random_keys_differ() {
    let a = MediaStreamKeys::random();
    let b = MediaStreamKeys::random();
    assert_ne!(a.video_key_v, b.video_key_v);
}

#[test]
fn malformed_property_list_is_refused() {
    assert!(parse_dict(b"").is_none());
    assert!(parse_dict(b"bplist00").is_none());
    let mut plist = build_dict(b"", 7, b"", "x");
    let end = plist.len() - 1;
    plist[end] = 0xff;
    assert!(parse_dict(&plist).is_none());
}

#[test]
fn init_announcement_too_short_is_refused() {
    assert!(parse_media_stream_init(&[0x00]).is_none());
    assert!(parse_media_stream_init(&[0x00, 0x0e, 0x00]).is_none());
    assert!(parse_media_stream_init(&[0x00, 0x02, 0x00, 0x01]).is_none());
}

#[test]
fn offers_are_property_lists() {
    let video = build_video_offer(7, &endpoint(), 0, "id");
    assert!(parse_dict(&video).is_some());
    let audio = build_audio_offer(7, true, &endpoint(), 0, "id");
    assert!(parse_dict(&audio).is_some());
    assert!(!build_remote_endpoint_info(&endpoint()).is_empty());
}

#[test]
fn zlib_gives_back_what_it_compressed() {
    let data = vec![7u8; 1000];
    let packed = zlib_compress(&data);
    assert_ne!(packed, data);
    assert_eq!(zlib_decompress(&packed), Some(data));
    assert_eq!(zlib_decompress(b"not a stream"), None);
}

#[test]
fn identifiers_are_drawn_anew() {
    assert_ne!(random_uuid_string(), random_uuid_string());
}
