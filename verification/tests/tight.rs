use std::io::Write;

use flate2::write::ZlibEncoder;
use flate2::Compression;
use vnc_client::framebuffer::Framebuffer;
use vnc_client::tight::{decode, read_compact_len, write_compact_len, TightStreams};
use vnc_client::PixelFormat;

#[test]
fn decode_fill_tile() {
    let mut fb = Framebuffer::new(2, 2);
    // Fill control byte: 0x08 << 4 = 0x80, followed by one 3-byte CPIXEL.
    let mut data = vec![0x80];
    data.extend_from_slice(&[0xff, 0x00, 0x00]); // red CPIXEL

    decode(
        &data,
        &mut TightStreams::new(),
        &mut fb,
        0,
        0,
        2,
        2,
        &PixelFormat::rgba32(),
    )
    .unwrap();
    assert_eq!(
        fb.data(),
        &vec![255, 0, 0, 255, 255, 0, 0, 255, 255, 0, 0, 255, 255, 0, 0, 255]
    );
}

/// Smoke test: two rectangles sharing one persistent zlib stream through
/// the client wrapper (the full fixture matrix lives in vnc-protocol).
#[test]
fn persistent_stream_across_rects() {
    let cpixels1 = vec![
        0xff, 0x00, 0x00, 0x00, 0xff, 0x00, 0x00, 0x00, 0xff, 0x01, 0x01, 0x01,
    ];
    let cpixels2 = vec![
        0x10, 0x20, 0x30, 0x40, 0x50, 0x60, 0x70, 0x80, 0x90, 0xa0, 0xb0, 0xc0,
    ];

    let mut encoder = ZlibEncoder::new(Vec::new(), Compression::default());
    encoder.write_all(&cpixels1).unwrap();
    encoder.flush().unwrap();
    let chunk1: Vec<u8> = encoder.get_mut().drain(..).collect();
    encoder.write_all(&cpixels2).unwrap();
    encoder.flush().unwrap();
    let chunk2: Vec<u8> = encoder.get_mut().drain(..).collect();

    let mut streams = TightStreams::new();
    let mut fb = Framebuffer::new(4, 2);

    let mut data1 = vec![0x01]; // stream 0 + reset bit
    write_compact_len(&mut data1, chunk1.len() as u32);
    data1.extend_from_slice(&chunk1);
    decode(
        &data1,
        &mut streams,
        &mut fb,
        0,
        0,
        2,
        2,
        &PixelFormat::rgba32(),
    )
    .unwrap();

    let mut data2 = vec![0x00]; // stream 0, no reset: continue the stream
    write_compact_len(&mut data2, chunk2.len() as u32);
    data2.extend_from_slice(&chunk2);
    decode(
        &data2,
        &mut streams,
        &mut fb,
        2,
        0,
        2,
        2,
        &PixelFormat::rgba32(),
    )
    .unwrap();

    assert_eq!(&fb.data()[0..4], &[0xff, 0x00, 0x00, 0xff]);
    // First pixel of the second rect at (2, 0).
    assert_eq!(&fb.data()[8..12], &[0x10, 0x20, 0x30, 0xff]);
    // Last pixel of the second rect at (3, 1).
    assert_eq!(&fb.data()[28..32], &[0xa0, 0xb0, 0xc0, 0xff]);
}

#[test]
fn compact_length_round_trips() {
    for n in [0u32, 127, 128, 16383, 16384, 0x3f_ffff] {
        let mut out = vec![0xee];
        write_compact_len(&mut out, n);
        let end = out.len();
        out.push(0x55);
        assert_eq!(read_compact_len(&out, 1), Some((n, end)));
    }
    assert_eq!(read_compact_len(&[0x80], 0), None);
    let mut out = Vec::new();
    write_compact_len(&mut out, 300);
    assert_eq!(out, vec![0xac, 0x02]);
}

fn tight(data: &[u8], w: usize, h: usize) -> Vec<u8> {
    let mut fb = Framebuffer::new(w, h);
    let done = decode(
        data,
        &mut TightStreams::new(),
        &mut fb,
        0,
        0,
        w,
        h,
        &PixelFormat::rgba32(),
    )
    .unwrap()
    .unwrap();
    assert_eq!(done.used, data.len());
    assert_eq!(done.jpeg, None);
    fb.data().to_vec()
}

#[test]
fn small_rectangle_is_not_compressed() {
    assert_eq!(tight(&[0x00, 1, 2, 3], 1, 1), vec![1, 2, 3, 255]);
}

#[test]
fn two_colours_take_one_bit_each() {
    // Explicit palette filter, two colours, one row of nine pixels.
    let data = [0x40, 1, 1, 10, 0, 0, 20, 0, 0, 0b0101_0101, 0b1000_0000];
    let px = tight(&data, 9, 1);
    let reds: Vec<u8> = px.chunks(4).map(|p| p[0]).collect();
    assert_eq!(reds, vec![10, 20, 10, 20, 10, 20, 10, 20, 20]);
}

#[test]
fn more_colours_take_one_byte_each() {
    let data = [0x40, 1, 2, 10, 0, 0, 20, 0, 0, 30, 0, 0, 2, 0, 1];
    let px = tight(&data, 3, 1);
    let reds: Vec<u8> = px.chunks(4).map(|p| p[0]).collect();
    assert_eq!(reds, vec![30, 10, 20]);
}

#[test]
fn gradient_adds_what_the_neighbours_let_expect() {
    // 1x2 pixels: the second row adds the first.
    let px = tight(&[0x40, 2, 10, 20, 30, 1, 2, 250], 1, 2);
    assert_eq!(px, vec![10, 20, 30, 255, 11, 22, 24, 255]);
    // 2x1 pixels: the second column adds the first.
    let px = tight(&[0x40, 2, 10, 20, 30, 1, 1, 1], 2, 1);
    assert_eq!(px, vec![10, 20, 30, 255, 11, 21, 31, 255]);
}

#[test]
fn bad_control_filter_and_index_are_refused() {
    let mut fb = Framebuffer::new(1, 1);
    for data in [&[0xa0u8][..], &[0x40, 3], &[0x40, 1, 0, 1, 2, 3, 0x80]] {
        let r = decode(
            data,
            &mut TightStreams::new(),
            &mut fb,
            0,
            0,
            1,
            1,
            &PixelFormat::rgba32(),
        );
        assert!(r.is_err());
    }
}

#[test]
fn jpeg_image_is_handed_out() {
    let mut fb = Framebuffer::new(1, 1);
    let done = decode(
        &[0x90, 2, 0xff, 0xd8],
        &mut TightStreams::new(),
        &mut fb,
        0,
        0,
        1,
        1,
        &PixelFormat::rgba32(),
    )
    .unwrap()
    .unwrap();
    assert_eq!(done.jpeg, Some(vec![0xff, 0xd8]));
    assert_eq!(fb.data(), &vec![0u8; 4]);
}
