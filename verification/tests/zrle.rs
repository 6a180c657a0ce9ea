use std::io::Write;

use flate2::write::ZlibEncoder;
use flate2::Compression;
use vnc_client::framebuffer::Framebuffer;
use vnc_client::zlib::len_prefixed;
use vnc_client::zrle::{decode, output_limit};
use vnc_client::{PixelFormat, VncError};

fn compress(data: &[u8]) -> Vec<u8> {
    let mut encoder = ZlibEncoder::new(Vec::new(), Compression::default());
    encoder.write_all(data).unwrap();
    encoder.finish().unwrap()
}

fn build_zrle_payload(compressed: &[u8]) -> Vec<u8> {
    len_prefixed(compressed)
}

#[test]
fn solid_3_byte_cpixel() {
    // ZRLE solid tile with 3-byte CPIXEL (32-bit depth 24 little-endian).
    let fmt = PixelFormat::rgba32();
    let mut tile = vec![1u8]; // solid subencoding
    tile.extend_from_slice(&[0xff, 0x00, 0x00]); // red CPIXEL

    let mut fb = Framebuffer::new(2, 2);
    decode(
        &build_zrle_payload(&compress(&tile)),
        &mut None,
        &mut fb,
        0,
        0,
        2,
        2,
        &fmt,
    )
    .unwrap();

    for i in 0..4 {
        assert_eq!(&fb.data()[i * 4..i * 4 + 4], &[0xff, 0x00, 0x00, 0xff]);
    }
}

#[test]
fn palette_rle_neatvnc_format() {
    // neatvnc style palette RLE: subencoding = 128 | palette_size.
    // 2-color palette, 3-byte CPIXELs, 4 pixels: red red red green.
    let fmt = PixelFormat::rgba32();
    let red = [0xff, 0x00, 0x00];
    let green = [0x00, 0xff, 0x00];

    let mut tile = vec![130u8]; // 128 | 2
    tile.extend_from_slice(&red);
    tile.extend_from_slice(&green);
    // Three red pixels: index 0 with high bit set, length 3 -> 0x80, 2
    tile.push(0x80);
    tile.push(2);
    // One green pixel: index 1 without high bit
    tile.push(1);

    let mut fb = Framebuffer::new(4, 1);
    decode(
        &build_zrle_payload(&compress(&tile)),
        &mut None,
        &mut fb,
        0,
        0,
        4,
        1,
        &fmt,
    )
    .unwrap();

    assert_eq!(&fb.data()[0..4], &[0xff, 0x00, 0x00, 0xff]);
    assert_eq!(&fb.data()[4..8], &[0xff, 0x00, 0x00, 0xff]);
    assert_eq!(&fb.data()[8..12], &[0xff, 0x00, 0x00, 0xff]);
    assert_eq!(&fb.data()[12..16], &[0x00, 0xff, 0x00, 0xff]);
}

#[test]
fn plain_rle_3_byte_cpixel() {
    let fmt = PixelFormat::rgba32();
    let red = [0xff, 0x00, 0x00];
    let green = [0x00, 0xff, 0x00];

    let mut tile = vec![128u8]; // plain RLE
    tile.extend_from_slice(&red);
    tile.push(2); // run length 3
    tile.extend_from_slice(&green);
    tile.push(0); // run length 1

    let mut fb = Framebuffer::new(4, 1);
    decode(
        &build_zrle_payload(&compress(&tile)),
        &mut None,
        &mut fb,
        0,
        0,
        4,
        1,
        &fmt,
    )
    .unwrap();

    assert_eq!(&fb.data()[0..4], &[0xff, 0x00, 0x00, 0xff]);
    assert_eq!(&fb.data()[4..8], &[0xff, 0x00, 0x00, 0xff]);
    assert_eq!(&fb.data()[8..12], &[0xff, 0x00, 0x00, 0xff]);
    assert_eq!(&fb.data()[12..16], &[0x00, 0xff, 0x00, 0xff]);
}

#[test]
fn packed_palette_4_color() {
    let fmt = PixelFormat::rgba32();
    let red = [0xff, 0x00, 0x00];
    let green = [0x00, 0xff, 0x00];
    let blue = [0x00, 0x00, 0xff];
    let white = [0xff, 0xff, 0xff];

    let mut tile = vec![4u8]; // 4 colors
    tile.extend_from_slice(&red);
    tile.extend_from_slice(&green);
    tile.extend_from_slice(&blue);
    tile.extend_from_slice(&white);
    // 4 pixels, 2 bits each: 00 01 10 11 = 0b00011011 = 0x1b
    tile.push(0x1b);

    let mut fb = Framebuffer::new(4, 1);
    decode(
        &build_zrle_payload(&compress(&tile)),
        &mut None,
        &mut fb,
        0,
        0,
        4,
        1,
        &fmt,
    )
    .unwrap();

    assert_eq!(&fb.data()[0..4], &[0xff, 0x00, 0x00, 0xff]);
    assert_eq!(&fb.data()[4..8], &[0x00, 0xff, 0x00, 0xff]);
    assert_eq!(&fb.data()[8..12], &[0x00, 0x00, 0xff, 0xff]);
    assert_eq!(&fb.data()[12..16], &[0xff, 0xff, 0xff, 0xff]);
}

#[test]
fn zrle_packed_palette_two_color_scanline_padding() {
    // 5x2 tile, 2 colours -> 1 bit per pixel, each scanline padded to a
    // whole byte. Row 0: R G R G R -> 0b01010xxx = 0x50.
    // Row 1: G R G R G -> 0b10101xxx = 0xa8.
    let fmt = PixelFormat::rgba32();
    let red = [0xff, 0x00, 0x00];
    let green = [0x00, 0xff, 0x00];

    let mut tile = vec![2u8]; // packed palette, 2 colours
    tile.extend_from_slice(&red);
    tile.extend_from_slice(&green);
    tile.push(0x50);
    tile.push(0xa8);

    let mut fb = Framebuffer::new(5, 2);
    decode(
        &build_zrle_payload(&compress(&tile)),
        &mut None,
        &mut fb,
        0,
        0,
        5,
        2,
        &fmt,
    )
    .unwrap();

    let r = [0xff, 0x00, 0x00, 0xff];
    let g = [0x00, 0xff, 0x00, 0xff];
    let expected = [r, g, r, g, r, g, r, g, r, g];
    for (i, want) in expected.iter().enumerate() {
        assert_eq!(&fb.data()[i * 4..i * 4 + 4], want, "pixel {}", i);
    }
}

#[test]
fn zrle_plain_rle_run_length_continuation() {
    // Run length 300 -> 299 = 255 + 44 -> [255, 44]; run length 20 -> [19].
    let fmt = PixelFormat::rgba32();
    let red = [0xff, 0x00, 0x00];
    let green = [0x00, 0xff, 0x00];

    let mut tile = vec![128u8]; // plain RLE
    tile.extend_from_slice(&red);
    tile.push(255);
    tile.push(44);
    tile.extend_from_slice(&green);
    tile.push(19);

    let mut fb = Framebuffer::new(64, 5); // 320 pixels
    decode(
        &build_zrle_payload(&compress(&tile)),
        &mut None,
        &mut fb,
        0,
        0,
        64,
        5,
        &fmt,
    )
    .unwrap();

    let r = [0xff, 0x00, 0x00, 0xff];
    let g = [0x00, 0xff, 0x00, 0xff];
    for i in 0..300 {
        assert_eq!(&fb.data()[i * 4..i * 4 + 4], &r, "pixel {}", i);
    }
    for i in 300..320 {
        assert_eq!(&fb.data()[i * 4..i * 4 + 4], &g, "pixel {}", i);
    }
}

#[test]
fn zrle_invalid_subencoding_is_rejected() {
    // Subencodings 17..=127 are invalid.
    let fmt = PixelFormat::rgba32();
    let tile = vec![17u8];
    let mut fb = Framebuffer::new(1, 1);
    assert!(decode(
        &build_zrle_payload(&compress(&tile)),
        &mut None,
        &mut fb,
        0,
        0,
        1,
        1,
        &fmt,
    )
    .is_err());
}

#[test]
fn decompression_bomb_is_rejected() {
    // A 2x2 rectangle can legitimately decode to only a handful of bytes;
    // data that inflates far beyond that must produce a clean error
    // instead of an unbounded allocation (or a reserve underflow panic).
    let fmt = PixelFormat::rgba32();
    let bomb = vec![0u8; 100_000];
    let mut fb = Framebuffer::new(2, 2);
    let err = decode(
        &build_zrle_payload(&compress(&bomb)),
        &mut None,
        &mut fb,
        0,
        0,
        2,
        2,
        &fmt,
    )
    .expect_err("oversized decompressed output must be rejected");
    assert!(matches!(err, VncError::Protocol(_)));
}

#[test]
fn chunk_without_a_stream_is_refused() {
    let mut fb = Framebuffer::new(1, 1);
    let err = decode(
        &build_zrle_payload(&[1, 2, 3]),
        &mut None,
        &mut fb,
        0,
        0,
        1,
        1,
        &PixelFormat::rgba32(),
    );
    assert_eq!(
        err,
        Err(VncError::Protocol("ZRLE decompressor not initialized".to_string()))
    );
}

#[test]
fn output_limit_counts_pixels_tiles_and_slack() {
    // 65x1 pixels of 3 + 1 bytes, two tiles, and 64 bytes more.
    assert_eq!(output_limit(65, 1, &PixelFormat::rgba32()), 65 * 4 + 2 + 64);
}

#[test]
fn refused_chunks_leave_the_stream_alone() {
    let fmt = PixelFormat::rgba32();
    let mut fb = Framebuffer::new(1, 1);
    let mut session = None;
    // No stream has begun.
    let chunk = build_zrle_payload(&[0, 0]);
    assert!(decode(&chunk, &mut session, &mut fb, 0, 0, 1, 1, &fmt).is_err());
    assert!(session.is_none());
    // A length beyond the limit reaches no stream either.
    assert!(decode(&[0xff; 4], &mut session, &mut fb, 0, 0, 1, 1, &fmt).is_err());
    assert!(session.is_none());
    let good = build_zrle_payload(&compress(&[1, 7, 8, 9]));
    assert!(decode(&good, &mut session, &mut fb, 0, 0, 1, 1, &fmt).is_ok());
    assert!(decode(&[0xff; 4], &mut session, &mut fb, 0, 0, 1, 1, &fmt).is_err());
    assert!(session.is_some());
}
