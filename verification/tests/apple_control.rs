use vnc_client::apple_control::{
    apple_pointer_button_mask, parse_apple_device_info, parse_apple_display_layout,
    parse_apple_keyboard_input_source,
};

#[test]
fn parse_apple_device_info_short_payload_is_rejected() {
    // The fixed header is 16 bytes (2 + 4 + 4 + 3 * u16 string lengths).
    let payload = [0u8; 12];
    assert!(parse_apple_device_info(&payload).is_none());

    // 15 bytes is still too short.
    let payload = [0u8; 15];
    assert!(parse_apple_device_info(&payload).is_none());

    // A minimal well-formed payload: no strings, just the fixed header
    // plus the trailing housing_color i32.
    let mut payload = Vec::new();
    payload.extend_from_slice(&0u16.to_be_bytes()); // block_pair_count
    payload.extend_from_slice(&1u32.to_be_bytes()); // structure_version
    payload.extend_from_slice(&0xaabbccddu32.to_be_bytes()); // enclosure_rgb_color
    payload.extend_from_slice(&0u16.to_be_bytes()); // identifier_len
    payload.extend_from_slice(&0u16.to_be_bytes()); // color_len
    payload.extend_from_slice(&0u16.to_be_bytes()); // enclosure_len
    payload.extend_from_slice(&7i32.to_be_bytes()); // housing_color
    let info = parse_apple_device_info(&payload).expect("16-byte header parses");
    assert_eq!(info.structure_version, 1);
    assert_eq!(info.enclosure_rgb_color, 0xaabbccdd);
    assert_eq!(info.housing_color, 7);
    assert_eq!(info.device_identifier, "");
}

#[test]
fn apple_pointer_button_mask_swaps_right_middle() {
    // Standard mask: bit 0 left, bit 1 middle, bit 2 right.
    // Apple HP mask: bit 0 left, bit 1 right, bit 2 middle.
    assert_eq!(apple_pointer_button_mask(0x00), 0x00);
    assert_eq!(apple_pointer_button_mask(0x01), 0x01); // left unchanged
    assert_eq!(apple_pointer_button_mask(0x02), 0x04); // middle -> right
    assert_eq!(apple_pointer_button_mask(0x04), 0x02); // right -> middle
    assert_eq!(apple_pointer_button_mask(0x07), 0x07); // all three -> same set
    assert_eq!(apple_pointer_button_mask(0x18), 0x18); // scroll bits unchanged
}

#[test]
fn parse_apple_display_layout_extracts_screens() {
    // Build a payload for a single 1920×1080 display.
    let mut payload = Vec::new();
    payload.extend_from_slice(&1u16.to_be_bytes()); // version
    payload.extend_from_slice(&1920u16.to_be_bytes()); // scaled_width
    payload.extend_from_slice(&1080u16.to_be_bytes()); // scaled_height
    payload.extend_from_slice(&3840u16.to_be_bytes()); // backing_width
    payload.extend_from_slice(&2160u16.to_be_bytes()); // backing_height
    payload.extend_from_slice(&0xffffffffu32.to_be_bytes()); // current_display sentinel
    payload.extend_from_slice(&0u32.to_be_bytes()); // field/flags
    payload.extend_from_slice(&1u16.to_be_bytes()); // display_count

    // Per-display entry (56 bytes).
    let mut entry = vec![0u8; 56];
    entry[16..20].copy_from_slice(&0x12345678u32.to_be_bytes()); // display_id
                                                                 // Virtual rect (ignored by parser).
                                                                 // Pixel rect y0,x0,y1,x1 at offsets 36..44.
    entry[36..38].copy_from_slice(&0u16.to_be_bytes()); // y0
    entry[38..40].copy_from_slice(&0u16.to_be_bytes()); // x0
    entry[40..42].copy_from_slice(&2160u16.to_be_bytes()); // y1
    entry[42..44].copy_from_slice(&3840u16.to_be_bytes()); // x1
                                                           // flags at offsets 48..52.
    entry[48..52].copy_from_slice(&0x00000001u32.to_be_bytes());
    payload.extend_from_slice(&entry);

    let result = parse_apple_display_layout(&payload);
    let (sw, sh, bw, bh, screens) = result.unwrap();
    assert_eq!(sw, 1920);
    assert_eq!(sh, 1080);
    assert_eq!(bw, 3840);
    assert_eq!(bh, 2160);
    assert_eq!(screens.len(), 1);
    assert_eq!(screens[0].id, 0x12345678);
    assert_eq!(screens[0].x, 0);
    assert_eq!(screens[0].y, 0);
    assert_eq!(screens[0].width, 3840);
    assert_eq!(screens[0].height, 2160);
    assert_eq!(screens[0].flags, 0x00000001);
}

#[test]
fn parse_apple_display_layout_rejects_short_payload() {
    assert!(parse_apple_display_layout(&[0u8; 10]).is_none());
}

#[test]
fn parse_apple_keyboard_input_source_extracts_fields() {
    let id = "com.apple.keylayout.ABC";
    let mut payload = Vec::new();
    payload.extend_from_slice(&1u16.to_be_bytes()); // version_marker
    payload.extend_from_slice(&1u32.to_be_bytes()); // keyboard_input_flags
    payload.extend_from_slice(&(id.len() as u16).to_be_bytes()); // id_len
    payload.extend_from_slice(id.as_bytes());

    let info = parse_apple_keyboard_input_source(&payload).unwrap();
    assert_eq!(info.version_marker, 1);
    assert_eq!(info.keyboard_input_flags, 1);
    assert_eq!(info.input_source_id, id);
    assert!(info.secure_event_input);
}

#[test]
fn parse_apple_keyboard_input_source_rejects_short_payload() {
    assert!(parse_apple_keyboard_input_source(&[0u8; 6]).is_none());
    // id_len exceeds payload
    let mut payload = vec![0u8; 8];
    payload[6..8].copy_from_slice(&10u16.to_be_bytes());
    assert!(parse_apple_keyboard_input_source(&payload).is_none());
}

#[test]
fn parse_apple_device_info_extracts_fields() {
    let identifier = "MacBookPro18,1";
    let color = "Silver";
    let mut payload = Vec::new();
    payload.extend_from_slice(&2u16.to_be_bytes()); // block_pair_count
    payload.extend_from_slice(&1u32.to_be_bytes()); // structure_version
    payload.extend_from_slice(&0x12345678u32.to_be_bytes()); // enclosure_rgb_color
    payload.extend_from_slice(&((identifier.len() + 1) as u16).to_be_bytes()); // device_identifier_len
    payload.extend_from_slice(&((color.len() + 1) as u16).to_be_bytes()); // device_color_len
    payload.extend_from_slice(&((color.len() + 1) as u16).to_be_bytes()); // enclosure_color_len
    payload.extend_from_slice(identifier.as_bytes());
    payload.push(0);
    payload.extend_from_slice(color.as_bytes());
    payload.push(0);
    payload.extend_from_slice(color.as_bytes());
    payload.push(0);
    payload.extend_from_slice(&42i32.to_be_bytes()); // housing_color

    let info = parse_apple_device_info(&payload).unwrap();
    assert_eq!(info.structure_version, 1);
    assert_eq!(info.enclosure_rgb_color, 0x12345678);
    assert_eq!(info.device_identifier, identifier);
    assert_eq!(info.device_color, color);
    assert_eq!(info.enclosure_color, color);
    assert_eq!(info.housing_color, 42);
}

