use vnc_client::framebuffer::Framebuffer;
use vnc_client::rre::decode;
use vnc_client::PixelFormat;

#[test]
fn decode_zero_subrects() {
    let mut fb = Framebuffer::new(2, 2);
    // 0 subrects, then red background pixel in BGRA: [B, G, R, A] = [0, 0, 0xff, 0xff]
    let data = vec![
        0x00, 0x00, 0x00, 0x00, // num_subrects = 0
        0x00, 0x00, 0xff, 0xff, // background in BGRA → red in RGBA
    ];
    decode(
        &data,
        &mut fb,
        0,
        0,
        2,
        2,
        &PixelFormat::bgra32(),
    )
    .unwrap();

    // All pixels should be red (RGBA)
    let expected = vec![
        0xff, 0x00, 0x00, 0xff, 0xff, 0x00, 0x00, 0xff, 0xff, 0x00, 0x00, 0xff, 0xff, 0x00,
        0x00, 0xff,
    ];
    assert_eq!(fb.data(), &expected);
}

#[test]
fn decode_one_subrect() {
    let mut fb = Framebuffer::new(3, 2);
    // 1 subrect, white background, red foreground at (1,0) size 2x1
    // BGRA white: [0xff, 0xff, 0xff, 0xff] → RGBA white
    // BGRA red:  [0x00, 0x00, 0xff, 0xff] → RGBA red
    let data = vec![
        0x00, 0x00, 0x00, 0x01, // num_subrects = 1
        0xff, 0xff, 0xff, 0xff, // background: white (BGRA)
        0x00, 0x00, 0xff, 0xff, // foreground: red (BGRA)
        0x00, 0x01, // sx = 1
        0x00, 0x00, // sy = 0
        0x00, 0x02, // sw = 2
        0x00, 0x01, // sh = 1
    ];
    decode(
        &data,
        &mut fb,
        0,
        0,
        3,
        2,
        &PixelFormat::bgra32(),
    )
    .unwrap();

    // Row 0: white, red, red
    assert_eq!(fb.data()[0..4], [0xff, 0xff, 0xff, 0xff]); // white
    assert_eq!(fb.data()[4..8], [0xff, 0x00, 0x00, 0xff]); // red
    assert_eq!(fb.data()[8..12], [0xff, 0x00, 0x00, 0xff]); // red
                                                            // Row 1: all white
    assert_eq!(fb.data()[12..16], [0xff, 0xff, 0xff, 0xff]);
}

#[test]
fn unfinished_subrects_ask_for_more() {
    let mut fb = Framebuffer::new(2, 2);
    let data = [0, 0, 0, 1, 1, 2, 3, 4];
    assert_eq!(decode(&data, &mut fb, 0, 0, 2, 2, &PixelFormat::rgba32()), Ok(None));
}
