use aes::cipher::{Block, BlockDecrypt, KeyInit};
use aes::Aes128;
use vnc_client::apple_record_layer::{
    apple_hp_encodings, build_auto_framebuffer_update, build_auto_pasteboard,
    build_clipboard_fetch, build_post_encryption_toggle, build_scale_factor,
    build_set_display_configuration, build_set_display_message, build_set_encryption_command1,
    build_set_keyboard_input_source, build_set_mode, build_viewer_info, record_len,
    AppleRecordLayer, DisplayMode,
};
use vnc_client::protocol;
use vnc_client::VncError;

const DISPLAY_MODE_ENTRY_LEN: usize = 28;

fn test_layer() -> AppleRecordLayer {
    AppleRecordLayer::new([0u8; 16], [1u8; 16], [2u8; 16])
}

/// The native mode table, scaled to a logical size.
fn modes(width: u16, height: u16, hidpi_scale: f64) -> Vec<DisplayMode> {
    let sx = f64::from(width) / 1920.0;
    let sy = f64::from(height) / 1080.0;
    [(1920u32, 1080u32), (1440, 900), (1920, 1080), (1440, 810), (1312, 848)]
        .iter()
        .map(|&(w, h)| {
            let point_width = (f64::from(w) * sx + 0.5) as u32;
            let point_height = (f64::from(h) * sy + 0.5) as u32;
            DisplayMode {
                pixel_width: (f64::from(point_width) * hidpi_scale + 0.5) as u32,
                pixel_height: (f64::from(point_height) * hidpi_scale + 0.5) as u32,
                point_width,
                point_height,
            }
        })
        .collect()
}

#[test]
fn roundtrip_record() {
    let mut layer = test_layer();
    let msg = b"hello Apple HP record layer";
    let written = layer.write_record(msg);
    // Verify ciphertext length is a non-zero multiple of 16 and is prefixed by u16.
    let ct_len = u16::from_be_bytes([written[0], written[1]]) as usize;
    assert!(ct_len > 0 && ct_len % 16 == 0);
    // Read it back with a fresh layer.
    let mut layer2 = AppleRecordLayer::new([0u8; 16], [1u8; 16], [2u8; 16]);
    assert_eq!(record_len(&[written[0], written[1]]), Ok(ct_len));
    let out = layer2.read_record(&written[2..]).unwrap();
    assert_eq!(out, msg.as_slice());
}

#[test]
fn rekey_updates_keys() {
    let mut layer = test_layer();
    // Rekey body: 4-byte generation + 16-byte enc_key + 16-byte enc_iv.
    // The enc_key/iv are the current key/iv encrypted under the current wrap key.
    // Since wrap_key is all zeros, the ECB-decrypt will invert the block.
    let mut rekey = vec![0u8; 36];
    rekey[4..20].copy_from_slice(&[1u8; 16]);
    rekey[20..36].copy_from_slice(&[2u8; 16]);
    layer.rekey(&rekey);
    // After rekey, we can still encrypt and decrypt a record.
    let written = layer.write_record(b"post-rekey");
    let mut layer2 = AppleRecordLayer::new([0u8; 16], [1u8; 16], [2u8; 16]);
    // layer2 must also rekey to the same new key before it can read.
    layer2.rekey(&rekey);
    let out = layer2.read_record(&written[2..]).unwrap();
    assert_eq!(out, b"post-rekey");
}

#[test]
fn auto_framebuffer_update_format() {
    let msg =
        build_auto_framebuffer_update(protocol::apple::SELECTED_SCREEN_ALL, 0, 0, 1920, 1080);
    assert_eq!(msg.len(), 16);
    assert_eq!(msg[0], protocol::apple::AUTO_FRAMEBUFFER_UPDATE);
    assert_eq!(u16::from_be_bytes([msg[2], msg[3]]), 1); // version
    assert_eq!(
        u32::from_be_bytes([msg[4], msg[5], msg[6], msg[7]]),
        protocol::apple::SELECTED_SCREEN_ALL
    );
    assert_eq!(u16::from_be_bytes([msg[8], msg[9]]), 0);
    assert_eq!(u16::from_be_bytes([msg[10], msg[11]]), 0);
    assert_eq!(u16::from_be_bytes([msg[12], msg[13]]), 1920);
    assert_eq!(u16::from_be_bytes([msg[14], msg[15]]), 1080);
}

#[test]
fn set_display_configuration_format() {
    let msg = build_set_display_configuration(true, &modes(1920, 1080, 2.0));
    assert_eq!(msg[0], protocol::apple::SET_DISPLAY_CONFIGURATION);
    let message_size = u16::from_be_bytes([msg[2], msg[3]]) as usize;
    assert_eq!(msg.len(), 4 + message_size);
    assert_eq!(u16::from_be_bytes([msg[4], msg[5]]), 1); // version
    assert_eq!(u16::from_be_bytes([msg[6], msg[7]]), 1); // display_count
    assert_eq!(u32::from_be_bytes([msg[8], msg[9], msg[10], msg[11]]), 0); // flags

    // Display descriptor starts at offset 12.
    let descriptor_size = u16::from_be_bytes([msg[12], msg[13]]) as usize;
    assert_eq!(descriptor_size, 0x9c + 5 * DISPLAY_MODE_ENTRY_LEN);
    // display_info_region ends with a NUL at D+0x79 (offset 12 + 0x79).
    assert_eq!(msg[12 + 0x79], 0);
    // display_flags at D+0x7a.
    assert_eq!(
        u32::from_be_bytes([
            msg[12 + 0x7a],
            msg[12 + 0x7b],
            msg[12 + 0x7c],
            msg[12 + 0x7d]
        ]),
        protocol::apple::DISPLAY_FLAG_DYNAMIC
    );
    // display_type at D+0x7e.
    assert_eq!(
        u32::from_be_bytes([
            msg[12 + 0x7e],
            msg[12 + 0x7f],
            msg[12 + 0x80],
            msg[12 + 0x81]
        ]),
        protocol::apple::DISPLAY_TYPE_VIRTUAL
    );
    // reserved at D+0x96 — native Screen Sharing.app emits 7.
    assert_eq!(
        u32::from_be_bytes([
            msg[12 + 0x96],
            msg[12 + 0x97],
            msg[12 + 0x98],
            msg[12 + 0x99]
        ]),
        7
    );
    // mode_count at D+0x9a.
    assert_eq!(u16::from_be_bytes([msg[12 + 0x9a], msg[12 + 0x9b]]), 5);

    // Mode table entry 0 starts at D+0x9c. For 1920×1080 @ 2× scale this is
    // the first native template un-scaled.
    let mode_off = 12 + 0x9c;
    assert_eq!(
        u32::from_be_bytes([
            msg[mode_off],
            msg[mode_off + 1],
            msg[mode_off + 2],
            msg[mode_off + 3]
        ]),
        3840
    );
    assert_eq!(
        u32::from_be_bytes([
            msg[mode_off + 4],
            msg[mode_off + 5],
            msg[mode_off + 6],
            msg[mode_off + 7]
        ]),
        2160
    );
    assert_eq!(
        u32::from_be_bytes([
            msg[mode_off + 8],
            msg[mode_off + 9],
            msg[mode_off + 10],
            msg[mode_off + 11]
        ]),
        1920
    );
    assert_eq!(
        u32::from_be_bytes([
            msg[mode_off + 12],
            msg[mode_off + 13],
            msg[mode_off + 14],
            msg[mode_off + 15]
        ]),
        1080
    );
}

#[test]
fn set_display_configuration_flat_session() {
    let msg = build_set_display_configuration(false, &modes(1280, 720, 1.0));
    let descriptor_size = u16::from_be_bytes([msg[12], msg[13]]) as usize;
    assert_eq!(descriptor_size, 0x9c + 5 * DISPLAY_MODE_ENTRY_LEN);
    assert_eq!(
        u32::from_be_bytes([
            msg[12 + 0x7a],
            msg[12 + 0x7b],
            msg[12 + 0x7c],
            msg[12 + 0x7d]
        ]),
        0
    );
    assert_eq!(
        u32::from_be_bytes([
            msg[12 + 0x7e],
            msg[12 + 0x7f],
            msg[12 + 0x80],
            msg[12 + 0x81]
        ]),
        protocol::apple::DISPLAY_TYPE_PHYSICAL
    );

    // Mode table entry 0 for 1280×720 @ 1× scale.
    let mode_off = 12 + 0x9c;
    assert_eq!(
        u32::from_be_bytes([
            msg[mode_off],
            msg[mode_off + 1],
            msg[mode_off + 2],
            msg[mode_off + 3]
        ]),
        1280
    );
    assert_eq!(
        u32::from_be_bytes([
            msg[mode_off + 4],
            msg[mode_off + 5],
            msg[mode_off + 6],
            msg[mode_off + 7]
        ]),
        720
    );
}

#[test]
fn content_key_tracks_rekey() {
    let mut layer = test_layer();
    assert_eq!(layer.content_key, [1u8; 16]);
    let mut rekey = vec![0u8; 36];
    rekey[4..20].copy_from_slice(&[3u8; 16]);
    rekey[20..36].copy_from_slice(&[4u8; 16]);
    layer.rekey(&rekey);
    // After rekey, the content key should be the unwrapped new key.
    assert_ne!(layer.content_key, [1u8; 16]);
}

#[test]
fn encrypted_key_event_format() {
    let layer = test_layer();
    let msg = layer.build_encrypted_key_event(true, 0x61, 0, 0);
    assert_eq!(msg.len(), 18);
    assert_eq!(msg[0], protocol::apple::ENCRYPTED_INPUT_EVENT);
    assert_eq!(msg[1], 0x01); // subtype 1

    // Decrypt the 16-byte block with the content key (ECB).
    let cipher = Aes128::new_from_slice(&layer.content_key).unwrap();
    let mut block = Block::<Aes128>::clone_from_slice(&msg[2..18]);
    cipher.decrypt_block(&mut block);
    assert_eq!(block[0], 0);
    assert_eq!(block[1], 1); // down
    assert_eq!(
        u32::from_be_bytes([block[2], block[3], block[4], block[5]]),
        0x61
    );
    // bytes 6..11 left as zero, key_type and key_code zero.
    assert_eq!(u16::from_be_bytes([block[12], block[13]]), 0);
    assert_eq!(u16::from_be_bytes([block[14], block[15]]), 0);
}

#[test]
fn encrypted_pointer_event_format() {
    let layer = test_layer();
    let msg = layer.build_encrypted_pointer_event(0x05, 100, 200);
    assert_eq!(msg.len(), 18);
    assert_eq!(msg[0], protocol::apple::ENCRYPTED_INPUT_EVENT);
    assert_eq!(msg[1], 0x03); // subtype 3

    let cipher = Aes128::new_from_slice(&layer.content_key).unwrap();
    let mut block = Block::<Aes128>::clone_from_slice(&msg[2..18]);
    cipher.decrypt_block(&mut block);
    assert_eq!(block[10], 0xff); // event marker
    assert_eq!(block[11], 0x05); // button mask
    assert_eq!(u16::from_be_bytes([block[12], block[13]]), 100);
    assert_eq!(u16::from_be_bytes([block[14], block[15]]), 200);
}

#[test]
fn set_mode_format() {
    let msg = build_set_mode(1);
    assert_eq!(msg.len(), 4);
    assert_eq!(msg[0], protocol::apple::SET_MODE);
    assert_eq!(u16::from_be_bytes([msg[2], msg[3]]), 1);
}

#[test]
fn scale_factor_format() {
    let msg = build_scale_factor(2.0f64.to_bits());
    assert_eq!(msg.len(), 10);
    assert_eq!(msg[0], protocol::apple::SCALE_FACTOR);
    assert_eq!(f64::from_be_bytes(msg[2..10].try_into().unwrap()), 2.0);
}

#[test]
fn set_display_message_format() {
    let msg = build_set_display_message(true, 0x12345678);
    assert_eq!(msg.len(), 8);
    assert_eq!(msg[0], protocol::apple::SET_DISPLAY_MESSAGE);
    assert_eq!(msg[1], 1);
    assert_eq!(u16::from_be_bytes([msg[2], msg[3]]), 0);
    assert_eq!(
        u32::from_be_bytes([msg[4], msg[5], msg[6], msg[7]]),
        0x12345678
    );
}

#[test]
fn auto_pasteboard_format() {
    let msg = build_auto_pasteboard(1);
    assert_eq!(msg.len(), 8);
    assert_eq!(msg[0], protocol::apple::AUTO_PASTEBOARD);
    assert_eq!(msg[4], 1);
}

#[test]
fn set_keyboard_input_source_format() {
    let msg = build_set_keyboard_input_source("com.apple.keylayout.ABC");
    assert_eq!(msg[0], protocol::apple::SET_KEYBOARD_INPUT_SOURCE);
    let size = u16::from_be_bytes([msg[1], msg[2]]) as usize;
    assert_eq!(msg.len(), 3 + size);
    assert_eq!(u16::from_be_bytes([msg[3], msg[4]]), 1); // message_version
    assert_eq!(u16::from_be_bytes([msg[5], msg[6]]), 23); // id_len
    assert_eq!(&msg[7..], b"com.apple.keylayout.ABC");
}

#[test]
fn clipboard_fetch_format() {
    let msg = build_clipboard_fetch();
    assert_eq!(msg.len(), 1);
    assert_eq!(msg[0], protocol::apple::CLIPBOARD_FETCH);
}

#[test]
fn altered_record_is_refused() {
    let mut layer = test_layer();
    let mut written = layer.write_record(b"payload");
    let last = written.len() - 1;
    written[last] ^= 1;
    assert!(test_layer().read_record(&written[2..]).is_err());
}

#[test]
fn record_out_of_order_is_refused() {
    let mut layer = test_layer();
    let first = layer.write_record(b"one");
    let second = layer.write_record(b"two");
    let mut reader = test_layer();
    assert!(reader.read_record(&second[2..]).is_err());
    let mut reader = test_layer();
    assert_eq!(reader.read_record(&first[2..]).unwrap(), b"one");
    assert_eq!(reader.read_record(&second[2..]).unwrap(), b"two");
}

#[test]
fn record_length_must_be_whole_blocks() {
    assert!(matches!(record_len(&[0, 0]), Err(VncError::Io(_))));
    assert!(matches!(record_len(&[0, 17]), Err(VncError::Io(_))));
    assert_eq!(record_len(&[0, 32]), Ok(32));
}

#[test]
fn layer_from_rekey_needs_a_key_and_a_body() {
    assert!(AppleRecordLayer::new_from_rekey(&[0; 15], &[0; 36]).is_err());
    assert!(AppleRecordLayer::new_from_rekey(&[0; 16], &[0; 35]).is_err());
    let layer = AppleRecordLayer::new_from_rekey(&[0; 16], &[0; 36]).unwrap();
    // AES-128 decryption of the zero block under the zero key.
    assert_eq!(layer.content_key[..4], [0x14, 0x0f, 0x0f, 0x10]);
}

#[test]
fn fixed_messages_have_their_bytes() {
    assert_eq!(build_set_encryption_command1().len(), 12);
    assert_eq!(build_post_encryption_toggle().len(), 8);
    assert_eq!(apple_hp_encodings()[0], 1010);
    let info = build_viewer_info(b"ab");
    assert_eq!(info[0], protocol::apple::VIEWER_INFO);
    assert_eq!(u16::from_be_bytes([info[2], info[3]]) as usize, 64 + 2);
}
