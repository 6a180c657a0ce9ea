use std::io::Write;

use vnc_client::apple_media::ViewerEndpoint;
use vnc_client::apple_record_layer::AppleRecordLayer;
use vnc_client::auth::{AuthHandler, NoAuthHandler};
use vnc_client::client::send::{after_failed_read, after_timeout, ReadFailure};
use vnc_client::client::{ClientState, Deed, Phase};
use vnc_client::cursor::{decode_apple_cursor_store, AppleCursor};
use vnc_client::desktop::rects::Streams;
use vnc_client::desktop::{Refusal, Transport, Work};
use vnc_client::encodings::Encoding;
use vnc_client::messages::{RectHeader, FENCE_FLAG_BLOCK_BEFORE, FENCE_FLAG_REQUEST};
use vnc_client::protocol;
use vnc_client::vencrypt::SubTypes;
use vnc_client::{PixelFormat, Transform, VncClient, VncClientBuilder, VncError, VncEvent};

fn subtypes() -> SubTypes {
    SubTypes {
        tls: 256,
        rsa_aes256: 27,
        rsa_aes: 26,
        x509: 262,
        sasl: 263,
        apple_dh: 30,
        plain: 1,
        vnc_auth: 2,
    }
}

fn build(builder: VncClientBuilder) -> VncClient {
    builder.build(subtypes(), 0)
}

#[test]
fn builder_copies_encodings_to_client() {
    let client = build(VncClientBuilder::new()
        .encodings(vec![Encoding::Raw, Encoding::CopyRect]));
    assert_eq!(client.config.encodings, vec![Encoding::Raw, Encoding::CopyRect]);
}

#[test]
fn high_performance_preserves_user_encodings() {
    let client = build(VncClientBuilder::new()
        .encodings(vec![Encoding::Raw, Encoding::CopyRect])
        .high_performance(true));
    assert!(client.config.high_performance);
    assert_eq!(client.config.encodings[0], Encoding::AppleHp(1010));
    assert!(client.config.encodings.contains(&Encoding::Raw));
    assert!(client.config.encodings.contains(&Encoding::CopyRect));
    // Apple HP encodings come first; duplicates are removed.
    assert_eq!(
        client
            .config
            .encodings
            .iter()
            .filter(|&&e| e == Encoding::Raw)
            .count(),
        1
    );
}

#[test]
fn high_performance_media_stream_h264_sets_flag() {
    let client = build(VncClientBuilder::new()
        .high_performance(true)
        .apple_media_stream_h264(true));
    assert!(client.config.high_performance);
    assert!(client.config.apple_media_stream_h264);
    // The HP encoding list already advertises the media-path values.
    assert!(client.config.apple_hp_encodings.contains(&1002)); // 0x3ea
    assert!(client.config.apple_hp_encodings.contains(&1010)); // 0x3f2
    assert!(client.config.apple_hp_encodings.contains(&1011)); // 0x3f3
                                                        // No duplicate values should be present.
    let mut uniq = client.config.apple_hp_encodings.clone();
    uniq.sort();
    uniq.dedup();
    assert_eq!(uniq.len(), client.config.apple_hp_encodings.len());
}

#[test]
fn high_performance_without_media_stream_h264_clears_flag() {
    let client = build(VncClientBuilder::new().high_performance(true));
    assert!(!client.config.apple_media_stream_h264);
}

#[test]
fn builder_apple_display_options_applied() {
    let client = build(VncClientBuilder::new()
        .high_performance(true)
        .apple_display_size(1280, 720)
        .apple_display_dynamic(true)
        .apple_hidpi_scale(1.0f32.to_bits())
        .apple_virtual_display(false));
    assert!(client.config.high_performance);
    assert_eq!(client.config.apple_display_width, 1280);
    assert_eq!(client.config.apple_display_height, 720);
    assert!(client.config.apple_display_dynamic);
    assert_eq!(f32::from_bits(client.config.apple_hidpi_scale), 1.0);
    assert!(!client.config.apple_virtual_display);
    assert_eq!(
        client.client_init_shared,
        protocol::apple::CLIENT_INIT_SHARED
    );
}

#[test]
fn apple_cursor_decode_store() {
    let bgra = vec![
        0x00, 0x00, 0xff, 0x00, // blue pixel in BGRA
        0x00, 0xff, 0x00, 0x00, // green pixel in BGRA
    ];
    let alpha = vec![0xff, 0x80];
    let mut raw = bgra.clone();
    raw.extend_from_slice(&alpha);
    let mut encoder = flate2::write::ZlibEncoder::new(Vec::new(), flate2::Compression::default());
    encoder.write_all(&raw).unwrap();
    let payload = encoder.finish().unwrap();

    let cursor = decode_apple_cursor_store(2, 1, &payload).unwrap();
    assert_eq!(cursor.width, 2);
    assert_eq!(cursor.height, 1);
    assert_eq!(
        cursor.pixels,
        vec![
            0xff, 0x00, 0x00, 0xff, // red pixel (was BGRA blue -> RGBA red)
            0x00, 0xff, 0x00, 0x80, // green pixel with 0x80 alpha
        ]
    );
}

#[test]
fn apple_cursor_select_emits_shape() {
    let mut client = build(VncClientBuilder::new().high_performance(true));
    client.desktop.cursors.insert(
        42,
        AppleCursor {
            width: 1,
            height: 1,
            pixels: vec![0x12, 0x34, 0x56, 0x78],
        },
    );
    let mut events = client.desktop.handle_apple_cursor_select(5, 6, 42);
    assert_eq!(events.len(), 1);
    let shape = match events.remove(0) {
        VncEvent::CursorShape(s) => s,
        _ => panic!("expected CursorShape event"),
    };
    assert_eq!(shape.width, 1);
    assert_eq!(shape.height, 1);
    assert_eq!(shape.hotspot_x, 5);
    assert_eq!(shape.hotspot_y, 6);
    assert_eq!(shape.pixels, vec![0x12, 0x34, 0x56, 0x78]);
    assert_eq!(shape.mask, vec![0xff]); // 1 visible pixel, remaining padding bits also 1
}

#[test]
fn apple_cursor_select_unknown_id_ignored() {
    let client = build(VncClientBuilder::new().high_performance(true));
    let events = client.desktop.handle_apple_cursor_select(0, 0, 99);
    assert!(events.is_empty());
}

#[test]
fn hp_send_methods_require_connection() {
    let client = build(VncClientBuilder::new().high_performance(true));
    assert!(matches!(
        client.send_hp_key_event(None, true, 0x61, 0, 0),
        Err(VncError::NotConnected)
    ));
    assert!(matches!(
        client.send_hp_pointer_event(None, 0, 0, 0),
        Err(VncError::NotConnected)
    ));
    assert!(matches!(
        client.send_hp_set_mode(1),
        Err(VncError::NotConnected)
    ));
    assert!(matches!(
        client.send_hp_scale_factor(2.0f64.to_bits(), "2"),
        Err(VncError::NotConnected)
    ));
    assert!(matches!(
        client.send_hp_set_display_message(true, 0),
        Err(VncError::NotConnected)
    ));
    assert!(matches!(
        client.send_hp_auto_pasteboard(1),
        Err(VncError::NotConnected)
    ));
    assert!(matches!(
        client.send_hp_set_keyboard_input_source("com.apple.keylayout.ABC"),
        Err(VncError::NotConnected)
    ));
    assert!(matches!(
        client.request_clipboard_fetch(),
        Err(VncError::NotConnected)
    ));
}

#[test]
fn hp_scale_factor_rejects_non_positive() {
    let client = build(VncClientBuilder::new().high_performance(true));
    assert!(matches!(
        client.send_hp_scale_factor(0.0f64.to_bits(), "0"),
        Err(VncError::Protocol(_))
    ));
    assert!(matches!(
        client.send_hp_scale_factor((-1.0f64).to_bits(), "-1"),
        Err(VncError::Protocol(_))
    ));
}

#[test]
fn hp_auto_pasteboard_rejects_invalid_selector() {
    let client = build(VncClientBuilder::new().high_performance(true));
    assert!(matches!(
        client.send_hp_auto_pasteboard(0),
        Err(VncError::Protocol(_))
    ));
    assert!(matches!(
        client.send_hp_auto_pasteboard(3),
        Err(VncError::Protocol(_))
    ));
}

/// A client with a connection, past its handshake.
fn connected_client() -> VncClient {
    let mut client = build(VncClientBuilder::new());
    client.connected(Transport::Plain);
    client.state = ClientState::Ready;
    client
}

/// Reads everything in `input` and returns the events and the replies.
fn read_all(client: &mut VncClient, input: &[u8]) -> Result<(Vec<VncEvent>, Vec<u8>), VncError> {
    let mut streams = Streams::new();
    let (mut events, mut replies) = (Vec::new(), Vec::new());
    let mut at = 0;
    while at < input.len() {
        let turn = client
            .read_messages(&mut streams, &input[at..], &[])
            .map_err(|refusal| refusal.error)?
            .expect("a whole message");
        at += turn.used;
        events.extend(turn.events);
        replies.extend(turn.replies);
    }
    Ok((events, replies))
}

#[test]
fn send_fence_writes_spec_wire_format() {
    let client = connected_client();
    let flags = FENCE_FLAG_REQUEST | FENCE_FLAG_BLOCK_BEFORE;
    let buf = client.send_fence(flags, b"ping").unwrap();

    // ClientFence: type u8 (248), 3 bytes padding, flags u32, length u8,
    // payload[length].
    assert_eq!(
        buf,
        [
            248, 0, 0, 0, // message type + padding
            0x80, 0x00, 0x00, 0x01, // flags: Request | BlockBefore
            4,    // payload length (u8)
            b'p', b'i', b'n', b'g',
        ]
    );
}

#[test]
fn send_fence_rejects_payload_over_255_bytes() {
    let client = connected_client();
    let data = vec![0u8; 256];
    assert!(matches!(
        client.send_fence(FENCE_FLAG_REQUEST, &data),
        Err(VncError::Protocol(_))
    ));
    // 255 bytes is the maximum the u8 length field can express.
    let data = vec![0u8; 255];
    client.send_fence(FENCE_FLAG_REQUEST, &data).unwrap();
}

#[test]
fn server_fence_request_is_echoed_with_request_cleared() {
    let mut client = connected_client();
    // ServerFence: type, 3 bytes padding, flags u32, length u8, payload.
    let (mut events, replies) = read_all(
        &mut client,
        &[
            protocol::SERVER_FENCE,
            0, 0, 0, // padding
            0x80, 0x00, 0x00, 0x03, // flags: Request | BlockBefore | BlockAfter
            3,    // payload length
            1, 2, 3, // payload
        ],
    )
    .unwrap();

    // The echo clears the Request bit and keeps the payload.
    assert_eq!(
        replies,
        [
            248, 0, 0, 0, // ClientFence + padding
            0x00, 0x00, 0x00, 0x03, // BlockBefore | BlockAfter, Request cleared
            3,    // payload length
            1, 2, 3,
        ]
    );

    assert_eq!(events.len(), 1);
    match events.remove(0) {
        VncEvent::Fence { flags, data } => {
            assert_eq!(flags, 0x8000_0003);
            assert_eq!(data, vec![1, 2, 3]);
        }
        _ => panic!("expected Fence event"),
    }
}

#[test]
fn server_fence_without_request_is_not_echoed() {
    let mut client = connected_client();
    let (events, replies) = read_all(
        &mut client,
        &[
            protocol::SERVER_FENCE,
            0, 0, 0, // padding
            0x00, 0x00, 0x00, 0x01, // flags: BlockBefore only, no Request
            2,    // payload length
            9, 9,
        ],
    )
    .unwrap();
    assert_eq!(events.len(), 1);

    // No response is to be written back to the server.
    assert!(replies.is_empty());
}

#[test]
fn handle_apple_media_stream_init_yields_event() {
    let mut client = connected_client();

    // One update rectangle with encoding 0x3f2 and a stage-1 payload.
    // The 0x3f2 body has a u16 length prefix and a 14-byte fixed header;
    // there is no leading padding before the version/type pair.
    let mut init_payload = Vec::new();
    init_payload.extend_from_slice(&1u16.to_be_bytes()); // version = 1
    init_payload.extend_from_slice(&1u16.to_be_bytes()); // type = 1 (stage 1)
    init_payload.extend_from_slice(&0u16.to_be_bytes()); // field6 = next stream port
    init_payload.extend_from_slice(&1u16.to_be_bytes()); // field8 = stream_count
    init_payload.extend_from_slice(&5900u16.to_be_bytes()); // field10 = base UDP port
    init_payload.extend_from_slice(&0u32.to_be_bytes()); // field12

    let mut input = vec![0, 0, 0, 1]; // type + padding + num_rects = 1
    let header = RectHeader {
        x: 0,
        y: 0,
        width: 0,
        height: 0,
        encoding: protocol::apple::ENC_MEDIA_STREAM,
    };
    input.extend(header.to_bytes());
    input.extend((init_payload.len() as u16).to_be_bytes());
    input.extend(&init_payload);

    let (mut events, _) = read_all(&mut client, &input).unwrap();
    assert_eq!(events.len(), 1);
    match events.remove(0) {
        VncEvent::MediaStreamInit(init) => {
            assert_eq!(init.stage, 1);
            assert_eq!(init.base_udp_port, 5900);
            assert_eq!(init.stream_count, 1);
        }
        _ => panic!("expected MediaStreamInit event"),
    }
}

#[test]
fn handle_apple_media_stream_options_yields_answer_event() {
    let mut client = connected_client();

    // A degenerate answer (empty body) behind the message type.
    let input = [
        protocol::apple::MEDIA_STREAM_OPTIONS,
        protocol::apple::MEDIA_STREAM_OPTIONS,
        0,
        0,
        0, // message_size = 0
    ];
    let (mut events, _) = read_all(&mut client, &input).unwrap();
    assert_eq!(events.len(), 1);
    match events.remove(0) {
        VncEvent::MediaStreamAnswer(answer) => {
            assert_eq!(answer.canvas_width, 0);
            assert_eq!(answer.canvas_height, 0);
            assert_eq!(answer.tile_count, 0);
        }
        _ => panic!("expected MediaStreamAnswer event"),
    }
}

#[test]
fn handle_apple_device_info_reads_message_size_prefix() {
    let client = connected_client();
    let identifier = "MacBookPro18,1";
    let color = "Silver";
    let mut payload = Vec::new();
    payload.extend_from_slice(&2u16.to_be_bytes()); // block_pair_count
    payload.extend_from_slice(&1u32.to_be_bytes()); // structure_version
    payload.extend_from_slice(&0u32.to_be_bytes()); // enclosure_rgb_color
    payload.extend_from_slice(&((identifier.len() + 1) as u16).to_be_bytes()); // device_identifier_len
    payload.extend_from_slice(&((color.len() + 1) as u16).to_be_bytes()); // device_color_len
    payload.extend_from_slice(&((color.len() + 1) as u16).to_be_bytes()); // enclosure_color_len
    payload.extend_from_slice(identifier.as_bytes());
    payload.push(0);
    payload.extend_from_slice(color.as_bytes());
    payload.push(0);
    payload.extend_from_slice(color.as_bytes());
    payload.push(0);
    payload.extend_from_slice(&7i32.to_be_bytes()); // housing_color

    let mut input = (payload.len() as u16).to_be_bytes().to_vec();
    input.extend(&payload);

    let mut events = client.desktop.handle_apple_device_info(&input).unwrap().unwrap().events;
    assert_eq!(events.len(), 1);
    match events.remove(0) {
        VncEvent::DeviceInfo {
            device_identifier,
            housing_color,
            ..
        } => {
            assert_eq!(device_identifier, identifier);
            assert_eq!(housing_color, 7);
        }
        _ => panic!("expected DeviceInfo event"),
    }
}

#[test]
fn handle_apple_device_info_rejects_short_message_size() {
    let client = connected_client();
    let mut input = 2u16.to_be_bytes().to_vec(); // message_size = 2 (too small)
    input.extend([0u8; 2]);
    assert!(matches!(
        client.desktop.handle_apple_device_info(&input),
        Err(Refusal { error: VncError::Protocol(_), used: 2 })
    ));
}

/// A client that waits for the server's security types.
fn authenticating_client() -> VncClient {
    let mut client = build(VncClientBuilder::new());
    client.connected(Transport::Plain);
    let order = client.handshake_input(b"RFB 003.008\n").unwrap().unwrap();
    assert_eq!(order.used, 12);
    assert_eq!(order.send, b"RFB 003.008\n");
    client
}

#[test]
fn handshake_failure_reason_over_limit_rejected() {
    let mut client = authenticating_client();
    // num_types == 0 followed by a huge reason length: the client must
    // reject before allocating or reading the reason bytes.
    let mut input = vec![0];
    input.extend(70_000u32.to_be_bytes());
    assert!(matches!(
        client.handshake_input(&input),
        Err(VncError::Protocol(_))
    ));
}

#[test]
fn handshake_failure_reason_within_limit_returned() {
    let mut client = authenticating_client();
    let mut input = vec![0];
    input.extend(5u32.to_be_bytes());
    input.extend(b"nope!");
    match client.handshake_input(&input) {
        Err(VncError::AuthFailed(reason)) => assert_eq!(reason, "nope!"),
        other => panic!("expected AuthFailed, got {:?}", other.is_ok()),
    }
}

#[test]
fn framebuffer_update_rejects_absurd_rect_dimensions() {
    let mut client = connected_client();
    // One Raw rectangle of 65535x1: exceeds the per-dimension cap and
    // must be rejected before any pixel data is read.
    let input = [
        0, 0, 0, 1, // type + padding + num_rects = 1
        0, 0, // x
        0, 0, // y
        0xff, 0xff, // width = 65535
        0, 1, // height = 1
        0, 0, 0, 0, // encoding = Raw
    ];
    assert!(matches!(
        read_all(&mut client, &input),
        Err(VncError::Protocol(_))
    ));
}

#[test]
fn qemu_audio_length_over_limit_rejected() {
    let mut client = connected_client();
    // QEMU extension, sub-type 2 (audio), operation 2 (audio data) with
    // a huge length.
    let mut input = vec![protocol::SERVER_QEMU, 2, 2];
    input.extend(u32::MAX.to_be_bytes());
    assert!(matches!(
        read_all(&mut client, &input),
        Err(VncError::Protocol(_))
    ));
}

#[test]
fn whole_handshake_without_authentication() {
    let mut client = authenticating_client();
    let order = client.handshake_input(&[2, 2, 1]).unwrap().unwrap();
    assert_eq!(order.used, 3);
    assert_eq!(client.server_security_types(), &[2, 1]);
    assert_eq!(client.phase, Phase::Choice);
    let kind = NoAuthHandler.select_security_type(client.server_security_types()).unwrap();
    assert_eq!(client.handshake_choice(kind), vec![1]);
    let order = client.handshake_input(&[0, 0, 0, 0]).unwrap().unwrap();
    assert_eq!(order.send, vec![1]);
    // ServerInit: 2x1 pixels, the format, and the name.
    let mut init = vec![0, 2, 0, 1];
    init.extend(PixelFormat::rgba32().to_bytes());
    init.extend([0, 0, 0, 2, b'h', b'i']);
    let order = client.handshake_input(&init).unwrap().unwrap();
    assert_eq!(order.used, init.len());
    assert_eq!(client.state, ClientState::Ready);
    assert_eq!(client.dimensions(), (2, 1));
    assert_eq!((client.width(), client.height()), (2, 1));
    assert_eq!(client.name(), "hi");
    assert_eq!(client.framebuffer().data().len(), 8);
}

#[test]
fn short_handshake_input_asks_for_more() {
    let mut client = build(VncClientBuilder::new());
    client.connected(Transport::Plain);
    assert!(client.handshake_input(b"RFB 003").unwrap().is_none());
    assert!(client.handshake_input(b"HELLO WORLD\n").is_err());
}

#[test]
fn refused_security_result_fails() {
    let mut client = authenticating_client();
    client.handshake_input(&[1, 1]).unwrap().unwrap();
    client.handshake_choice(1);
    assert!(matches!(
        client.handshake_input(&[0, 0, 0, 1]),
        Err(VncError::AuthFailed(_))
    ));
}

#[test]
fn password_choice_is_a_deed() {
    let mut client = authenticating_client();
    client.handshake_input(&[1, 2]).unwrap().unwrap();
    client.handshake_choice(2);
    assert_eq!(client.phase, Phase::Outside(Deed::VncAuth));
    assert_eq!(client.check_deed(Deed::VncAuth), Ok(()));
    client.handshake_deed_done(None);
    assert_eq!(client.phase, Phase::Init);
}

#[test]
fn tls_under_tls_is_refused() {
    let mut client = authenticating_client();
    client.connected(Transport::Tls);
    assert!(client.check_deed(Deed::VencryptAppleDh).is_err());
    assert!(client.check_deed(Deed::Sasl).is_err());
    assert_eq!(client.desktop.transport, Transport::Tls);
    assert_eq!(
        client.check_deed(Deed::Tls { x509: false }),
        Err(VncError::Protocol("Already TLS".to_string()))
    );
    // The stream is gone with the refused upgrade.
    assert_eq!(client.desktop.transport, Transport::Disconnected);
    assert_eq!(
        client.check_deed(Deed::Tls { x509: false }),
        Err(VncError::NotConnected)
    );
    assert_eq!(client.handshake_input(&[1, 1]).err(), Some(VncError::NotConnected));
}

#[test]
fn raw_rectangle_is_painted_and_counted() {
    let mut client = connected_client();
    client.desktop.resize(2, 1);
    let mut input = vec![0, 0, 0, 1];
    let header = RectHeader { x: 1, y: 0, width: 1, height: 1, encoding: 0 };
    input.extend(header.to_bytes());
    let format = *client.pixel_format();
    input.extend(if format == PixelFormat::rgba32() { [1, 2, 3, 4] } else { [3, 2, 1, 4] });
    let (events, _) = read_all(&mut client, &input).unwrap();
    assert!(matches!(
        events[..],
        [VncEvent::FramebufferUpdate { x: 1, y: 0, width: 1, height: 1 }]
    ));
    assert_eq!(client.framebuffer().data()[4..7], [1, 2, 3]);
    let stats = client.stats(10, 28, 0);
    assert_eq!(stats.frames, 1);
    assert_eq!(stats.encoding, "Raw");
}

#[test]
fn desktop_size_changes_the_image() {
    let mut client = connected_client();
    let mut input = vec![0, 0, 0, 1];
    let header = RectHeader { x: 0, y: 0, width: 3, height: 2, encoding: -223 };
    input.extend(header.to_bytes());
    let (events, _) = read_all(&mut client, &input).unwrap();
    assert!(matches!(events[0], VncEvent::GeometryChanged { width: 3, height: 2 }));
    assert_eq!(client.framebuffer().data().len(), 24);
}

#[test]
fn tight_rectangle_goes_through_the_session() {
    let mut client = connected_client();
    client.desktop.resize(1, 1);
    let mut input = vec![0, 0, 0, 1];
    input.extend(RectHeader { x: 0, y: 0, width: 1, height: 1, encoding: 7 }.to_bytes());
    input.extend([0x80, 9, 9, 9]);
    let (events, _) = read_all(&mut client, &input).unwrap();
    assert_eq!(events.len(), 1);
    assert_eq!(client.framebuffer().data(), &vec![9, 9, 9, 255]);
}

#[test]
fn jpeg_rectangle_waits_for_its_pixels() {
    let mut client = connected_client();
    client.desktop.resize(1, 1);
    let mut streams = Streams::new();
    client.read_messages(&mut streams, &[0, 0, 0, 1], &[]).unwrap();
    let mut input = RectHeader { x: 0, y: 0, width: 1, height: 1, encoding: 7 }.to_bytes();
    input.extend([0x90, 1, 0xff]);
    let turn = client.read_messages(&mut streams, &input, &[]).unwrap().unwrap();
    assert!(matches!(turn.work, Work::DecodeJpeg { .. }));
    client.desktop.finish_decoded(&[1, 2, 3, 255], Some((1, 1)));
    assert_eq!(client.framebuffer().data(), &vec![1, 2, 3, 255]);
}

#[test]
fn unfinished_message_changes_nothing() {
    let mut client = connected_client();
    let mut streams = Streams::new();
    assert!(client.read_messages(&mut streams, &[0, 0], &[]).unwrap().is_none());
    assert!(client.read_messages(&mut streams, &[], &[]).unwrap().is_none());
}

#[test]
fn unknown_message_names_what_came_before() {
    let mut client = connected_client();
    read_all(&mut client, &[protocol::SERVER_BELL]).unwrap();
    match read_all(&mut client, &[0x77]) {
        Err(VncError::Protocol(text)) => assert_eq!(
            text,
            "Unknown server message type: 119 (last_msg_type=Some(2), last_encoding=None, \
             recent_encodings=[])"
        ),
        _ => panic!("expected a protocol error"),
    }
}

#[test]
fn not_ready_client_reads_nothing() {
    let mut client = build(VncClientBuilder::new());
    assert!(client.read_messages(&mut Streams::new(), &[2], &[]).is_err());
}

#[test]
fn cut_text_and_clipboard_are_reported() {
    let mut client = connected_client();
    let mut input = vec![3, 0, 0, 0, 0, 0, 0, 2, b'h', b'i'];
    let data = vnc_client::clipboard::build_text_provide("smoke");
    input.extend([3, 0, 0, 0]);
    input.extend((-(data.len() as i32)).to_be_bytes());
    input.extend(&data);
    let (events, _) = read_all(&mut client, &input).unwrap();
    assert!(matches!(&events[0], VncEvent::CutText(t) if t == "hi"));
    assert!(matches!(&events[1], VncEvent::ClipboardData(_)));
}

#[test]
fn requests_have_their_bytes() {
    let client = connected_client();
    assert_eq!(
        client.request_update(true, 1, 2, 3, 4).unwrap(),
        vec![3, 1, 0, 1, 0, 2, 0, 3, 0, 4]
    );
    assert_eq!(client.send_pointer_event_raw(1, 2, 3).unwrap(), vec![5, 1, 0, 2, 0, 3]);
    assert_eq!(client.send_key_event(true, 0x61).unwrap(), vec![4, 1, 0, 0, 0, 0, 0, 0x61]);
    assert_eq!(client.send_cut_text("a").unwrap(), vec![6, 0, 0, 0, 0, 0, 0, 1, b'a']);
    assert!(client.send_extended_clipboard_text("a").unwrap().len() > 8);
    assert_eq!(
        client.set_encodings(&[Encoding::Raw, Encoding::Cursor]).unwrap(),
        vec![2, 0, 0, 2, 0, 0, 0, 0, 0xff, 0xff, 0xff, 0x11]
    );
    assert_eq!(
        client.enable_continuous_updates(true, 0, 0, 1, 1).unwrap(),
        vec![150, 1, 0, 0, 0, 0, 0, 1, 0, 1]
    );
}

#[test]
fn encrypted_events_need_the_record_layer() {
    let client = connected_client();
    let layer = AppleRecordLayer::new([0; 16], [1; 16], [2; 16]);
    assert_eq!(client.send_hp_key_event(Some(&layer), true, 0x61, 0, 0).unwrap().len(), 18);
    assert!(matches!(
        client.send_hp_pointer_event(None, 0, 0, 0),
        Err(VncError::Protocol(_))
    ));
}

#[test]
fn jpeg_quality_is_clamped() {
    let client = build(VncClientBuilder::new().encodings(Vec::new()).jpeg_quality(200));
    assert_eq!(client.config.encodings, vec![Encoding::JpegQuality(9)]);
}

#[test]
fn transform_is_set_on_the_framebuffer() {
    let mut client = build(VncClientBuilder::new());
    client.set_transform(Transform::FlipBoth);
    assert_eq!(client.framebuffer().transform(), Transform::FlipBoth);
    client.framebuffer_mut().resize(1, 1);
    assert_eq!(client.framebuffer().width(), 1);
}

#[test]
fn cursor_store_with_wrong_size_is_refused() {
    let mut encoder =
        flate2::write::ZlibEncoder::new(Vec::new(), flate2::Compression::default());
    encoder.write_all(&[0; 4]).unwrap();
    let payload = encoder.finish().unwrap();
    assert!(decode_apple_cursor_store(2, 1, &payload).is_err());
    assert!(decode_apple_cursor_store(2, 1, b"junk").is_err());
}

/// Hands the bytes over one at a time and keeps what was not taken.
fn read_piecewise(client: &mut VncClient, input: &[u8]) -> usize {
    let mut streams = Streams::new();
    let (mut kept, mut events) = (Vec::new(), 0);
    for &byte in input {
        kept.push(byte);
        while let Some(turn) = client.read_messages(&mut streams, &kept, &[]).unwrap() {
            kept.drain(..turn.used);
            events += turn.events.len();
        }
    }
    assert!(kept.is_empty());
    events
}

#[test]
fn updates_are_read_however_they_arrive() {
    let mut input = vec![protocol::SERVER_BELL, 0, 0, 0, 3];
    input.extend(RectHeader { x: 0, y: 0, width: 2, height: 1, encoding: 0 }.to_bytes());
    input.extend([1, 2, 3, 0, 4, 5, 6, 0]);
    input.extend(RectHeader { x: 1, y: 1, width: 1, height: 1, encoding: 1 }.to_bytes());
    input.extend([0, 0, 0, 0]);
    input.extend(RectHeader { x: 0, y: 1, width: 1, height: 1, encoding: 7 }.to_bytes());
    input.extend([0x80, 9, 8, 7]);
    let mut whole = connected_client();
    whole.desktop.resize(2, 2);
    let (events, _) = read_all(&mut whole, &input).unwrap();
    let mut pieces = connected_client();
    pieces.desktop.resize(2, 2);
    assert_eq!(read_piecewise(&mut pieces, &input), events.len());
    assert_eq!(events.len(), 4);
    assert_eq!(pieces.framebuffer().data(), whole.framebuffer().data());
    assert_eq!(pieces.desktop.pending, 0);
    assert_eq!(pieces.stats(1, 0, 0).frames, 1);
}

#[test]
fn handshake_steps_are_read_however_they_arrive() {
    let mut client = build(VncClientBuilder::new());
    client.connected(Transport::Plain);
    let input = b"RFB 003.008\n\x02\x02\x01";
    let mut kept = Vec::new();
    let mut sent = Vec::new();
    for &byte in input.iter() {
        kept.push(byte);
        if let Some(order) = client.handshake_input(&kept).unwrap() {
            kept.drain(..order.used);
            sent.extend(order.send);
        }
    }
    assert!(kept.is_empty());
    assert_eq!(sent, b"RFB 003.008\n");
    assert_eq!(client.server_security_types(), &[2, 1]);
    assert_eq!(client.phase, Phase::Choice);
}

#[test]
fn refused_rectangle_stays_on_record() {
    let mut client = connected_client();
    let mut input = vec![0, 0, 0, 1];
    input.extend(RectHeader { x: 0, y: 0, width: 20000, height: 1, encoding: 5 }.to_bytes());
    assert!(read_all(&mut client, &input).is_err());
    assert_eq!(client.desktop.last_encoding, Some(5));
    assert_eq!(client.desktop.recent_encodings, vec![5]);
}

#[test]
fn refused_handshake_step_changes_nothing() {
    let mut client = authenticating_client();
    assert!(client.handshake_input(&[0, 0, 0, 0, 0]).is_err());
    assert_eq!(client.phase, Phase::Types);
    assert!(client.handshake_input(&[1, 1]).unwrap().is_some());
}

#[test]
fn offers_with_fresh_keys_need_high_performance() {
    let endpoint = ViewerEndpoint {
        os: "linux".to_string(),
        arch: "x86_64".to_string(),
        os_build: "1".to_string(),
    };
    let mut plain = connected_client();
    assert!(matches!(
        plain.send_hp_media_stream_options(true, &endpoint, 7),
        Err(VncError::Protocol(_))
    ));
    let mut client = build(VncClientBuilder::new().high_performance(true));
    assert!(matches!(
        client.send_hp_media_stream_options(true, &endpoint, 7),
        Err(VncError::NotConnected)
    ));
    client.connected(Transport::Plain);
    let (keys, message) = client.send_hp_media_stream_options(true, &endpoint, 7).unwrap();
    assert_eq!(message[0], protocol::apple::MEDIA_STREAM_OPTIONS);
    assert_eq!(client.apple_media_stream_keys().unwrap().video_key_v, keys.video_key_v);
}

#[test]
fn gathered_events_win_over_a_timeout() {
    assert_eq!(after_timeout(Vec::new()).err(), Some(VncError::Timeout));
    assert_eq!(after_timeout(vec![VncEvent::Bell]).unwrap().len(), 1);
    let events = || vec![VncEvent::Bell];
    assert_eq!(after_failed_read(ReadFailure::TimedOut, events()).unwrap().len(), 1);
    assert_eq!(
        after_failed_read(ReadFailure::Ended, events()).err(),
        Some(VncError::ServerClosed)
    );
    assert_eq!(
        after_failed_read(ReadFailure::Other("reset".to_string()), events()).err(),
        Some(VncError::Io("reset".to_string()))
    );
}

#[test]
fn refusals_say_how_much_they_took() {
    let mut client = connected_client();
    let mut streams = Streams::new();
    let mut used = |client: &mut VncClient, input: &[u8]| {
        client.read_messages(&mut streams, input, &[]).err().unwrap().used
    };
    assert_eq!(used(&mut client, &[0x77, 2]), 1);
    assert_eq!(used(&mut client, &[3, 0, 0, 0, 0x7f, 0xff, 0xff, 0xff, 1]), 8);
    // A name that is too long: the header of the rectangle and the length.
    let mut input = vec![0, 0, 0, 1];
    assert_eq!(read_all(&mut client, &input).unwrap().0.len(), 0);
    input = RectHeader { x: 0, y: 0, width: 0, height: 0, encoding: -307 }.to_bytes();
    input.extend([0xff; 6]);
    assert_eq!(used(&mut client, &input), 16);
}

#[test]
fn refused_update_is_given_up() {
    let mut client = connected_client();
    let mut input = vec![0, 0, 0, 2];
    input.extend(RectHeader { x: 0, y: 0, width: 20000, height: 1, encoding: 0 }.to_bytes());
    assert!(read_all(&mut client, &input).is_err());
    assert_eq!(client.desktop.pending, 0);
    assert_eq!(client.desktop.waiting, None);
    // A new message follows.
    let (events, _) = read_all(&mut client, &[protocol::SERVER_BELL]).unwrap();
    assert!(matches!(events[..], [VncEvent::Bell]));
}

#[test]
fn refused_initialization_keeps_what_it_said() {
    let mut client = authenticating_client();
    client.handshake_input(&[1, 1]).unwrap().unwrap();
    client.handshake_choice(1);
    client.handshake_input(&[0, 0, 0, 0]).unwrap().unwrap();
    let mut init = vec![0xff, 0xff, 0, 1];
    init.extend(PixelFormat::rgba32().to_bytes());
    init.extend([0, 0, 0, 2, b'h', b'i']);
    assert!(client.handshake_input(&init).is_err());
    assert_eq!(client.dimensions(), (0xffff, 1));
    assert_eq!(client.name(), "hi");
    assert!(client.framebuffer().data().is_empty());
}

#[test]
fn failed_upgrade_disconnects() {
    let mut client = authenticating_client();
    client.handshake_deed_failed(Deed::Sasl);
    assert_eq!(client.desktop.transport, Transport::Plain);
    client.handshake_deed_failed(Deed::Aes(16));
    assert_eq!(client.desktop.transport, Transport::Disconnected);
}

#[test]
fn record_layer_needs_a_plain_stream_and_a_whole_key() {
    let mut client = connected_client();
    client.apple_wrap_key = Some(vec![0; 16]);
    client.desktop.transport = Transport::Tls;
    assert!(client.start_record_layer(&[0; 36]).is_err());
    assert_eq!(client.desktop.transport, Transport::Tls);
    client.desktop.transport = Transport::Plain;
    assert!(client.start_record_layer(&[0; 36]).is_ok());
    assert_eq!(client.desktop.transport, Transport::Plain);
    client.apple_wrap_key = Some(vec![0; 15]);
    assert!(client.start_record_layer(&[0; 36]).is_err());
    assert_eq!(client.desktop.transport, Transport::Disconnected);
}

#[test]
fn waiting_is_short_between_messages() {
    let mut client = connected_client();
    assert!(client.between_messages(0));
    assert_eq!(client.read_wait(0), 50);
    assert_eq!(client.read_wait(3), 60_000);
    client.desktop.pending = 1;
    assert_eq!(client.read_wait(0), 60_000);
}

#[test]
fn disconnected_client_reads_nothing() {
    let mut client = connected_client();
    client.desktop.transport = Transport::Disconnected;
    let refusal = client.read_messages(&mut Streams::new(), &[2], &[]).err().unwrap();
    assert_eq!((refusal.error, refusal.used), (VncError::NotConnected, 0));
}
