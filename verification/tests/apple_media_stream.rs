use vnc_client::apple_media::{MediaStreamKeys, SRTP_KEY_BLOB_LEN};
use vnc_client::apple_media_stream::canvas::Canvas;
use vnc_client::apple_media_stream::depacketizer::{H264Depacketizer, HevcDepacketizer};
use vnc_client::apple_media_stream::receiver::{
    scan_units, MediaAction, MediaStreamWorker, WallClock,
};
use vnc_client::apple_media_stream::rtcp::{
    build_rtcp_fir, build_rtcp_fir_legacy, build_rtcp_ltrp, build_rtcp_nack, build_rtcp_pli,
    build_rtcp_rr, build_rtcp_sr, parse_rtcp_sr,
};
use vnc_client::apple_media_stream::srtp::{
    aes_ctr_apply, hmac_sha1_trunc, salt_int, split_blob, srtp_kdf, SrtcpDecryptor,
    SrtcpEncryptor, SrtpDecryptor, SrtpEncryptor,
};
use vnc_client::apple_media_stream::tiles::{TileGroup, TileStream};
use vnc_client::decoder::Codec;

const SRTP_MASTER_KEY_LEN: usize = 32;
const SRTP_MASTER_SALT_LEN: usize = 14;
const SRTP_AUTH_TAG_LEN: usize = 10;

#[test]
fn aes_ctr_zero_key_iv_matches_aes256_zero_vector() {
    let key = [0u8; 32];
    let iv = [0u8; 16];
    let plaintext = aes_ctr_apply(&key, &iv, &[0u8; 16]);
    assert_eq!(
        plaintext,
        [
            0xdc, 0x95, 0xc0, 0x78, 0xa2, 0x40, 0x89, 0x89, 0xad, 0x48, 0xa2, 0x14, 0x92, 0x84,
            0x20, 0x87
        ]
    );
}

#[test]
fn srtp_kdf_known_shape() {
    let key = [0xab; SRTP_MASTER_KEY_LEN];
    let salt = [0xcd; SRTP_MASTER_SALT_LEN];
    let cipher = srtp_kdf(&key, &salt, 0, 32);
    assert_eq!(cipher.len(), 32);
    let auth = srtp_kdf(&key, &salt, 1, 20);
    assert_eq!(auth.len(), 20);
}

#[test]
fn srtp_roundtrip() {
    let key: [u8; SRTP_MASTER_KEY_LEN] = rand::random();
    let salt: [u8; SRTP_MASTER_SALT_LEN] = rand::random();
    let ssrc = 0x12345678u32;
    let seq = 0xabcdu16;
    let payload = b"hello srtp";

    // Build an RTP packet manually (12-byte header).
    let mut pkt = Vec::new();
    pkt.push(0x80); // V=2
    pkt.push(100); // PT=100
    pkt.extend_from_slice(&seq.to_be_bytes());
    pkt.extend_from_slice(&0u32.to_be_bytes()); // timestamp
    pkt.extend_from_slice(&ssrc.to_be_bytes());
    pkt.extend_from_slice(payload);

    let cipher_key: [u8; 32] = srtp_kdf(&key, &salt, 0, 32).try_into().unwrap();
    let auth_key: [u8; 20] = srtp_kdf(&key, &salt, 1, 20).try_into().unwrap();
    let iv = salt_int(&salt) ^ ((ssrc as u128) << 64) ^ ((seq as u128) << 16);
    let encrypted_payload = aes_ctr_apply(&cipher_key, &iv.to_be_bytes(), payload);

    let mut full_pkt = pkt.clone();
    full_pkt.truncate(12);
    full_pkt.extend_from_slice(&encrypted_payload);
    let auth = hmac_sha1_trunc(
        &auth_key,
        &[&full_pkt[..], &0u32.to_be_bytes()].concat(),
        SRTP_AUTH_TAG_LEN,
    );
    full_pkt.extend_from_slice(&auth);

    let mut dec = SrtpDecryptor::from_keys(cipher_key, auth_key, &salt);
    let (header, decrypted) = dec.decrypt(&full_pkt).expect("decrypt");
    assert_eq!(header, &pkt[..12]);
    assert_eq!(&decrypted, payload);
}

#[test]
fn srtcp_roundtrip() {
    let key: [u8; SRTP_MASTER_KEY_LEN] = rand::random();
    let salt: [u8; SRTP_MASTER_SALT_LEN] = rand::random();
    // RTCP RR with sender SSRC 1 and no report blocks.
    let rr = build_rtcp_rr(1, &[], None);
    let mut enc = SrtcpEncryptor::from_blob(&concat_key(&key, &salt));
    let protected = enc.protect(&rr);
    let dec = SrtcpDecryptor::from_blob(&concat_key(&key, &salt));
    let decrypted = dec.unprotect(&protected).expect("unprotect");
    assert_eq!(decrypted, rr);
}

fn concat_key(key: &[u8; 32], salt: &[u8; 14]) -> [u8; 46] {
    let mut blob = [0u8; 46];
    blob[..32].copy_from_slice(key);
    blob[32..].copy_from_slice(salt);
    blob
}

#[test]
fn h264_single_nal_passed_through() {
    let mut dep = H264Depacketizer::new();
    let mut out: Vec<Vec<u8>> = Vec::new();
    out.extend(dep.feed(&[0x65, 0x88, 0x84]));
    assert_eq!(out, vec![vec![0x65, 0x88, 0x84]]);
}

#[test]
fn h264_fu_a_reassembly() {
    let mut dep = H264Depacketizer::new();
    let mut out: Vec<Vec<u8>> = Vec::new();
    // FU-A start fragment for an IDR slice (nal type 5).
    out.extend(dep.feed(&[0x7c, 0x85, 0x88, 0x84]));
    assert!(out.is_empty());
    out.extend(dep.feed(&[0x7c, 0x45, 0x12, 0x34]));
    assert_eq!(out.len(), 1);
    assert_eq!(out[0], vec![0x65, 0x88, 0x84, 0x12, 0x34]);
}

#[test]
fn h264_stap_a_emits_multiple_nals() {
    let mut dep = H264Depacketizer::new();
    let mut out: Vec<Vec<u8>> = Vec::new();
    let mut pkt = vec![0x18]; // STAP-A header
    pkt.extend_from_slice(&0x0003u16.to_be_bytes());
    pkt.extend_from_slice(&[0x67, 0x42, 0x00]);
    pkt.extend_from_slice(&0x0002u16.to_be_bytes());
    pkt.extend_from_slice(&[0x68, 0xce]);
    out.extend(dep.feed(&pkt));
    assert_eq!(out, vec![vec![0x67, 0x42, 0x00], vec![0x68, 0xce]]);
}

#[test]
fn hevc_single_nal_strips_donl() {
    let mut dep = HevcDepacketizer::new();
    let mut out: Vec<Vec<u8>> = Vec::new();
    // Outer type 19 (IDR_N_LP) => (0x26 >> 1) & 0x3f = 19
    // DONL = 0x0001, then NAL payload.
    let payload = [0x26, 0x01, 0x00, 0x01, 0xab, 0xcd, 0xef];
    out.extend(dep.feed(&payload));
    assert_eq!(out.len(), 1);
    assert_eq!(out[0], vec![0x26, 0x01, 0xab, 0xcd, 0xef]);
}

#[test]
fn hevc_ap_emits_sub_nals_without_donl() {
    let mut dep = HevcDepacketizer::new();
    let mut out: Vec<Vec<u8>> = Vec::new();
    // AP header type 48: (0x60 >> 1) & 0x3f = 48
    // DONL = 0x0002
    // sub-NAL 1: size 3, [0x40, 0x01, 0x02]
    // sub-NAL 2: size 2, [0x42, 0x00]
    let payload = [
        0x60, 0x01, // AP header
        0x00, 0x02, // DONL
        0x00, 0x03, 0x40, 0x01, 0x02, // sub-NAL 1
        0x00, 0x02, 0x42, 0x00, // sub-NAL 2
    ];
    out.extend(dep.feed(&payload));
    assert_eq!(out, vec![vec![0x40, 0x01, 0x02], vec![0x42, 0x00]]);
}

#[test]
fn hevc_fu_reassembly() {
    let mut dep = HevcDepacketizer::new();
    let mut out: Vec<Vec<u8>> = Vec::new();

    // FU start for an IDR_W_RADL slice (inner type 19).
    // Outer header: type 49 -> (0x7e >> 1) & 0x3f = 63? Wait, need type 49.
    // Type 49 = 0x62 -> (0x62 >> 1) & 0x3f = 49.
    // FU header: start=1, type=19 -> 0x93
    // DONL = 0x0005
    let start = [
        0x62, 0x01, // outer header (type 49)
        0x93, // FU header: start + type 19
        0x00, 0x05, // DONL
        0x88, 0x84, // fragment data
    ];

    // FU end.
    let end = [
        0x62, 0x01, // outer header
        0x53, // FU header: end + type 19
        0x00, 0x05, // DONL
        0x12, 0x34, // fragment data
    ];

    out.extend(dep.feed(&start));
    assert!(out.is_empty());
    out.extend(dep.feed(&end));
    assert_eq!(out.len(), 1);
    // Reconstructed NAL header: (0x62 & 0x81) | (19 << 1) = 0x26,
    // second byte preserved from outer header = 0x01.
    assert_eq!(out[0], vec![0x26, 0x01, 0x88, 0x84, 0x12, 0x34]);
}

#[test]
fn fir_compound_srtcp_matches_isharescreen() {
    let mut blob = [0u8; SRTP_KEY_BLOB_LEN];
    for (i, b) in blob.iter_mut().enumerate() {
        *b = i as u8;
    }
    let sender = 0xAABBCCDDu32;
    let target = 0x11223344u32;

    let mut compound = build_rtcp_rr(sender, &[], None);
    compound.extend_from_slice(&build_rtcp_fir(sender, target, 7));
    compound.extend_from_slice(&build_rtcp_pli(sender, target));
    compound.extend_from_slice(&build_rtcp_fir_legacy(target));

    let expected_plain: &[u8] = &[
        0x80, 0xc9, 0x00, 0x01, 0xaa, 0xbb, 0xcc, 0xdd, 0x84, 0xce, 0x00, 0x04, 0xaa, 0xbb,
        0xcc, 0xdd, 0x00, 0x00, 0x00, 0x00, 0x11, 0x22, 0x33, 0x44, 0x07, 0x00, 0x00, 0x00,
        0x81, 0xce, 0x00, 0x02, 0xaa, 0xbb, 0xcc, 0xdd, 0x11, 0x22, 0x33, 0x44, 0x80, 0xc0,
        0x00, 0x01, 0x11, 0x22, 0x33, 0x44,
    ];
    assert_eq!(compound, expected_plain, "FIR compound plaintext mismatch");

    let idx0: &[u8] = &[
        0x80, 0xc9, 0x00, 0x01, 0xaa, 0xbb, 0xcc, 0xdd, 0x86, 0x0f, 0xab, 0xd9, 0x27, 0xbb,
        0xa6, 0xe2, 0x1f, 0x27, 0x70, 0x71, 0xb6, 0x1d, 0xd1, 0xbd, 0x43, 0xb5, 0x7f, 0x56,
        0x41, 0x68, 0x55, 0x35, 0x16, 0x65, 0xc2, 0x1c, 0xc4, 0x68, 0x70, 0xad, 0x29, 0x11,
        0xde, 0x79, 0x84, 0xff, 0xc7, 0xc1, 0x80, 0x00, 0x00, 0x00, 0xb9, 0x27, 0xaa, 0xeb,
        0x8d, 0x2d, 0xd9, 0x64, 0xab, 0x47,
    ];
    let idx1: &[u8] = &[
        0x80, 0xc9, 0x00, 0x01, 0xaa, 0xbb, 0xcc, 0xdd, 0xd3, 0x90, 0x7c, 0x88, 0x4e, 0xa4,
        0xf3, 0x3d, 0xf1, 0x3d, 0x87, 0xa7, 0xbc, 0x14, 0x7f, 0xe8, 0x01, 0x96, 0x8c, 0x2a,
        0xf4, 0x1e, 0x4d, 0xbe, 0x3d, 0xce, 0x4c, 0x66, 0x22, 0x91, 0x04, 0x95, 0x32, 0xfa,
        0x85, 0xcc, 0x30, 0xb3, 0x08, 0x1f, 0x80, 0x00, 0x00, 0x01, 0x2b, 0xad, 0xee, 0x7f,
        0xe0, 0xb5, 0x24, 0xbc, 0x74, 0xff,
    ];
    let mut enc = SrtcpEncryptor::from_blob(&blob);
    assert_eq!(enc.protect(&compound), idx0, "SRTCP index 0 mismatch");
    assert_eq!(enc.protect(&compound), idx1, "SRTCP index 1 mismatch");
}

#[test]
fn nack_coalesces_consecutive_losses() {
    // Lost 5,6,7 and 20: all fit in one FCI — pid=5 with BLP bits for
    // +1 (6), +2 (7) and +15 (20).
    let pkt = build_rtcp_nack(0xaaaa, 0xbbbb, &[5, 6, 7, 20]);
    assert_eq!(pkt[0], 0x81); // V=2, FMT=1
    assert_eq!(pkt[1], 205); // PT=RTPFB
    let len = u16::from_be_bytes([pkt[2], pkt[3]]) as usize;
    assert_eq!(pkt.len(), (len + 1) * 4);
    assert_eq!(&pkt[4..8], &0xaaaa_u32.to_be_bytes()); // sender
    assert_eq!(&pkt[8..12], &0xbbbb_u32.to_be_bytes()); // media ssrc
                                                        // FCI: pid=5, blp = 0x4003 (lost 6, 7 and 20)
    assert_eq!(&pkt[12..14], &5u16.to_be_bytes());
    assert_eq!(&pkt[14..16], &0x4003u16.to_be_bytes());
    assert_eq!(pkt.len(), 16);
}

#[test]
fn hmac_sha1_has_its_known_value() {
    // HMAC-SHA1 with a key of twenty 0x0b bytes over "Hi There".
    assert_eq!(
        hmac_sha1_trunc(&[0x0b; 20], b"Hi There", 20),
        [
            0xb6, 0x17, 0x31, 0x86, 0x55, 0x05, 0x72, 0x64, 0xe2, 0x8b, 0xc0, 0xb6, 0xfb, 0x37,
            0x8c, 0x8e, 0xf1, 0x46, 0xbe, 0x00
        ]
    );
}

#[test]
fn ctr_applied_twice_gives_the_data_back() {
    let (key, iv) = ([3u8; 32], [9u8; 16]);
    let data: Vec<u8> = (0..100).collect();
    let once = aes_ctr_apply(&key, &iv, &data);
    assert_ne!(once, data);
    assert_eq!(aes_ctr_apply(&key, &iv, &once), data);
}

#[test]
fn blob_splits_into_key_and_salt() {
    let mut blob = [1u8; 46];
    blob[32] = 2;
    let (key, salt) = split_blob(&blob);
    assert_eq!(key, [1u8; 32]);
    assert_eq!(salt[0], 2);
    assert_eq!(salt_int(&[0, 0, 0, 0, 0, 0, 0, 0, 0, 0, 0, 0, 0, 1]), 0x1_0000);
}

#[test]
fn sealed_packets_open_in_order_and_not_when_altered() {
    let blob = [5u8; 46];
    let mut enc = SrtpEncryptor::from_blob(&blob, 9);
    let mut dec = SrtpDecryptor::from_blob(&blob);
    let first = enc.encrypt(b"one", 100);
    let second = enc.encrypt(b"two", 100);
    assert_eq!(dec.decrypt(&first).unwrap().1, b"one");
    let mut damaged = second.clone();
    damaged[12] ^= 1;
    assert!(dec.decrypt(&damaged).is_none());
    assert_eq!(dec.decrypt(&second).unwrap().1, b"two");
    assert!(dec.decrypt(&second[..20]).is_none());
    assert_eq!(dec.ssrc_stats(&[9]).len(), 1);
}

#[test]
fn sender_report_is_found_again() {
    let sr = build_rtcp_sr(7, 0x1122_3344, 0x5566_7788, 9);
    assert_eq!(sr[..4], [0x80, 200, 0, 6]);
    assert_eq!(sr.len(), 28);
    assert_eq!(sr[8..20], [0x11, 0x22, 0x33, 0x44, 0x55, 0x66, 0x77, 0x88, 0, 0, 0, 9]);
    assert_eq!(parse_rtcp_sr(&sr), Some((7, 0x3344_5566)));
    let mut compound = sr.clone();
    compound.extend(build_rtcp_pli(1, 2));
    assert_eq!(parse_rtcp_sr(&compound), Some((7, 0x3344_5566)));
    assert_eq!(parse_rtcp_sr(&build_rtcp_pli(1, 2)), None);
}

#[test]
fn ltr_acknowledgement_names_the_order_number() {
    let pkt = build_rtcp_ltrp(1, 0x1234);
    assert_eq!(&pkt[14..16], &[0x12, 0x34]);
}

#[test]
fn four_consecutive_sources_form_a_group() {
    let mut group = TileGroup::new();
    let mut adopted = false;
    for _ in 0..8 {
        for ssrc in [10u32, 11, 12, 13] {
            adopted = group.note_ssrc(Codec::Hevc, ssrc, false) || adopted;
        }
    }
    assert!(adopted);
    assert_eq!(group.tiles(), &vec![10, 11, 12, 13]);
    // A group that works stays.
    for ssrc in [20u32, 21, 22, 23] {
        assert!(!group.note_ssrc(Codec::Hevc, ssrc, true));
    }
}

#[test]
fn lost_packets_are_reported() {
    let mut stream = TileStream::new(Codec::H264);
    let (lost, _) = stream.receive(1, false, &[0x65, 1]);
    assert!(lost.is_empty());
    let (lost, unit) = stream.receive(4, true, &[0x65, 2]);
    assert_eq!(lost, vec![2, 3]);
    assert!(unit.is_some());
    stream.flush();
}

#[test]
fn access_unit_gathers_units_behind_start_codes() {
    let mut stream = TileStream::new(Codec::H264);
    let (_, none) = stream.receive(1, false, &[0x67, 1]);
    assert!(none.is_none());
    let (_, unit) = stream.receive(2, true, &[0x65, 2]);
    let (au, donl) = unit.unwrap();
    assert_eq!(au, vec![0, 0, 0, 1, 0x67, 1, 0, 0, 0, 1, 0x65, 2]);
    assert_eq!(donl, None);
    let kinds = scan_units(Codec::H264, &[0, 0, 0, 1, 0x67, 1, 0, 0, 0, 1, 0x65, 2]);
    assert!(kinds.sps && kinds.idr && !kinds.pps && !kinds.vps);
}

#[test]
fn strips_make_up_the_canvas() {
    let mut canvas = Canvas::new();
    assert!(!canvas.configure(0, 5));
    assert!(canvas.take_picture().is_none());
    canvas.composite_strip(0, 1, Some((1, 2)), &[1, 2, 3, 4, 5, 6, 7, 8]);
    let (w, h, rgba) = canvas.take_picture().unwrap();
    assert_eq!((w, h), (1, 2));
    assert_eq!(rgba, vec![1, 2, 3, 4, 5, 6, 7, 8]);
    assert!(canvas.take_picture().is_none());
    assert_eq!(canvas.dump().len(), 16 + 8);
    canvas.clear();
    assert_eq!(canvas.configured(), (0, 0));
}

fn worker_keys() -> MediaStreamKeys {
    MediaStreamKeys {
        audio_key_v: [1; SRTP_KEY_BLOB_LEN],
        audio_key_s: [2; SRTP_KEY_BLOB_LEN],
        video_key_v: [3; SRTP_KEY_BLOB_LEN],
        video_key_s: [4; SRTP_KEY_BLOB_LEN],
        audio_ssrc: 1,
        video_ssrc: 2,
    }
}

#[test]
fn video_packet_becomes_an_access_unit() {
    let mut worker = MediaStreamWorker::new(&worker_keys(), Codec::H264, 0);
    let mut server = SrtpEncryptor::from_blob(&[4; SRTP_KEY_BLOB_LEN], 77);
    let actions = worker.process_packet(&server.encrypt(&[0x65, 9], 0x80 | 100), false, 1);
    let mut units = Vec::new();
    for action in actions {
        if let MediaAction::Decode { au, .. } = action {
            units.push(au);
        }
    }
    assert_eq!(units, vec![vec![0, 0, 0, 1, 0x65, 9]]);
    assert_eq!(worker.video_packets(), 1);
}

#[test]
fn packet_that_does_not_authenticate_is_ignored() {
    let mut worker = MediaStreamWorker::new(&worker_keys(), Codec::H264, 0);
    let mut other = SrtpEncryptor::from_blob(&[9; SRTP_KEY_BLOB_LEN], 77);
    let actions = worker.process_packet(&other.encrypt(&[0x65, 9], 0x80 | 100), false, 1);
    assert!(actions.is_empty());
    assert_eq!(worker.video_packets(), 0);
}

#[test]
fn decoder_size_is_kept() {
    let mut worker = MediaStreamWorker::new(&worker_keys(), Codec::Hevc, 0);
    assert_eq!(worker.decoder_size(), None);
    assert!(worker.set_decoder_size(640, 480));
    assert!(!worker.set_decoder_size(0, 480));
    assert_eq!(worker.decoder_size(), Some((640, 480)));
    assert!(!worker.decoder_stalled(0));
    worker.request_keyframe();
    worker.restart_decoder(5);
    assert!(worker.next_frame(6).is_none());
    assert_eq!(worker.report_arrival(), None);
    let clock = WallClock { ntp_sec: 0, ntp_frac: 0, rtp_ts: 0 };
    let _ = worker.tick(2_000_000_000, 0, clock);
    assert_eq!(worker.dump_canvas_frame().len(), 16);
}

#[test]
fn receiver_report_counts_the_blocks_that_follow() {
    for n in [0u32, 1, 31, 40] {
        let sources: Vec<(u32, u32, u16)> = (0..n).map(|ssrc| (ssrc, 0, 0)).collect();
        let rr = build_rtcp_rr(1, &sources, None);
        let words = u16::from_be_bytes([rr[2], rr[3]]) as usize;
        assert_eq!(rr.len(), 4 * (words + 1));
        assert_eq!(rr[0], 0x80 + n.min(31) as u8);
    }
}
