use std::io::Write;

use vnc_client::framebuffer::Framebuffer;
use vnc_client::zlib::{
    check_chunk, decode, is_zlib_header, len_prefixed, read_len_prefixed, SessionInflate,
};
use vnc_client::{PixelFormat, VncError};

#[test]
fn decode_simple_raw_zlib() {
    // 2x2 RGBA raw pixels
    let raw = vec![
        0xff, 0x00, 0x00, 0xff, // red
        0x00, 0xff, 0x00, 0xff, // green
        0x00, 0x00, 0xff, 0xff, // blue
        0xff, 0xff, 0xff, 0xff, // white
    ];

    // Compress with zlib
    let mut encoder =
        flate2::write::ZlibEncoder::new(Vec::new(), flate2::Compression::default());
    encoder.write_all(&raw).unwrap();
    let compressed = encoder.finish().unwrap();

    let data = len_prefixed(&compressed);

    let mut fb = Framebuffer::new(2, 2);
    let mut session = SessionInflate::new();
    decode(
        &data,
        &mut session,
        &mut fb,
        0,
        0,
        2,
        2,
        &PixelFormat::rgba32(),
    )
    .unwrap();

    assert_eq!(fb.data(), &raw);
}

#[test]
fn stream_goes_on_over_rectangles() {
    let mut encoder =
        flate2::write::ZlibEncoder::new(Vec::new(), flate2::Compression::default());
    encoder.write_all(&[1, 2, 3, 4]).unwrap();
    encoder.flush().unwrap();
    let first: Vec<u8> = std::mem::take(encoder.get_mut());
    encoder.write_all(&[5, 6, 7, 8]).unwrap();
    encoder.flush().unwrap();
    let second: Vec<u8> = std::mem::take(encoder.get_mut());
    let mut session = SessionInflate::new();
    assert_eq!(session.feed(&first, 4, 4).unwrap(), vec![1, 2, 3, 4]);
    assert_eq!(session.feed(&second, 4, 4).unwrap(), vec![5, 6, 7, 8]);
}

#[test]
fn long_output_of_a_short_chunk_is_complete() {
    let data = vec![7u8; 1_000_000];
    let mut encoder =
        flate2::write::ZlibEncoder::new(Vec::new(), flate2::Compression::best());
    encoder.write_all(&data).unwrap();
    encoder.flush().unwrap();
    let chunk: Vec<u8> = std::mem::take(encoder.get_mut());
    let mut session = SessionInflate::new();
    assert_eq!(session.feed(&chunk, 1_000_000, 1_000_000).unwrap(), data);
}

#[test]
fn output_outside_the_limits_is_refused() {
    let chunk = vnc_client::inflate::zlib_compress(&[0u8; 10]);
    assert!(SessionInflate::new().feed(&chunk, 0, 9).is_err());
    assert!(SessionInflate::new().feed(&chunk, 11, 20).is_err());
    assert!(SessionInflate::new().feed(&[0xff, 0xff, 0xff], 0, 20).is_err());
    assert!(matches!(check_chunk(None, 0, 1), Err(VncError::Protocol(_))));
    assert_eq!(check_chunk(Some(vec![1]), 1, 1), Ok(vec![1]));
}

#[test]
fn chunk_behind_its_length_reads_back() {
    let data = len_prefixed(&[9, 8, 7]);
    assert_eq!(data, vec![0, 0, 0, 3, 9, 8, 7]);
    assert_eq!(read_len_prefixed(&data, 100), Ok(Some((vec![9, 8, 7], 7))));
    assert_eq!(read_len_prefixed(&data[..5], 100), Ok(None));
    assert!(read_len_prefixed(&data, 2).is_err());
}

#[test]
fn zlib_header_is_recognised() {
    assert!(is_zlib_header(&[0x78, 0x9c]));
    assert!(!is_zlib_header(&[0x78, 0x9d]));
    assert!(!is_zlib_header(&[0x78]));
}
