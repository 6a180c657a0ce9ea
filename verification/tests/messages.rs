use vnc_client::cursor::{AppleCursor, CursorCache, CursorShape};
use vnc_client::encodings::{encoding_name, from_i32, Encoding};
use vnc_client::error::protocol_error;
use vnc_client::messages::{
    build_set_pixel_format, check_dimensions, read_screen_list, RectHeader,
};
use vnc_client::text::{
    capitalise_first, contains_text, decimal, lossy_string, lowercase, option, signed, trim_end,
    trim_nuls, utf8_string,
};
use vnc_client::{PixelFormat, VncError};

#[test]
fn encodings_and_numbers_invert_each_other() {
    for e in [
        Encoding::Raw,
        Encoding::Zrle,
        Encoding::Cursor,
        Encoding::JpegQuality(9),
        Encoding::AppleHp(1010),
        Encoding::ExtendedClipboard,
    ] {
        assert_eq!(from_i32(e.as_i32()), Some(e));
    }
    assert_eq!(Encoding::JpegQuality(9).as_i32(), -23);
    assert_eq!(from_i32(12345), None);
    assert_eq!(encoding_name(0), "Raw");
}

#[test]
fn rectangle_header_round_trips() {
    let h = RectHeader { x: 1, y: 2, width: 3, height: 4, encoding: -239 };
    let bytes = h.to_bytes();
    assert_eq!(bytes, vec![0, 1, 0, 2, 0, 3, 0, 4, 0xff, 0xff, 0xff, 0x11]);
    assert_eq!(RectHeader::from_bytes(&bytes), h);
}

#[test]
fn dimensions_have_a_limit() {
    assert_eq!(check_dimensions(16384, 16384), Ok(()));
    assert_eq!(
        check_dimensions(16385, 1),
        Err(VncError::Protocol("Invalid dimensions: 16385x1".to_string()))
    );
}

#[test]
fn pixel_format_round_trips() {
    let f = PixelFormat::bgra32();
    assert_eq!(PixelFormat::from_bytes(&f.to_bytes()), f);
    assert_eq!(f.bytes_per_pixel(), 4);
    assert_eq!(f.bytes_per_cpixel(), 3);
    assert_eq!(f.to_rgba(&[1, 2, 3, 0]), [3, 2, 1, 255]);
    assert_eq!(build_set_pixel_format(&f).len(), 20);
}

#[test]
fn screens_are_read() {
    let mut data = vec![1, 0, 0, 0];
    data.extend([0, 0, 0, 7, 0, 1, 0, 2, 0, 3, 0, 4, 0, 0, 0, 9]);
    let (screens, used) = read_screen_list(&data).unwrap();
    assert_eq!(used, 20);
    assert_eq!((screens[0].id, screens[0].width, screens[0].flags), (7, 3, 9));
    assert!(read_screen_list(&data[..19]).is_none());
}

#[test]
fn cursor_shape_takes_pixels_and_mask() {
    let format = PixelFormat::rgba32();
    assert_eq!(CursorShape::wire_len(9, 2, &format), 9 * 2 * 4 + 2 * 2);
}

#[test]
fn full_cursor_cache_forgets_the_smallest_id() {
    let mut cache = CursorCache::new();
    for id in (0..65u32).rev() {
        cache.insert(id, AppleCursor { width: 0, height: 0, pixels: Vec::new() });
    }
    assert_eq!(cache.entries.len(), 64);
    assert!(cache.get(1).is_none());
    assert!(cache.get(0).is_some());
    assert!(cache.get(64).is_some());
}

#[test]
fn texts_are_written_as_shown() {
    assert_eq!(decimal(u64::MAX), u64::MAX.to_string());
    assert_eq!(signed(-5), "-5");
    assert_eq!(option(Some(3)), "Some(3)");
    assert_eq!(option(None), "None");
    assert_eq!(trim_end("a b \n\u{a0}"), "a b");
    assert_eq!(trim_nuls("ab\0\0"), "ab");
    assert_eq!(capitalise_first("linux"), "Linux");
    assert_eq!(lowercase("ÄBc"), "äbc");
    assert!(contains_text("haystack", "stac"));
    assert!(!contains_text("haystack", "stak"));
    assert_eq!(utf8_string(&[0xff]), None);
    assert_eq!(lossy_string(&[b'a', 0xff]), "a\u{fffd}");
}

#[test]
fn errors_say_what_went_wrong() {
    assert_eq!(protocol_error("x").message(), "Protocol error: x");
    assert_eq!(VncError::NotConnected.message(), "Not connected");
    assert_eq!(VncError::ServerClosed.message(), "Server closed connection");
    assert_eq!(VncError::Timeout.message(), "Read timed out");
    assert_eq!(VncError::Io("x".to_string()).message(), "IO error: x");
    assert_eq!(
        VncError::UnsupportedVersion("x".to_string()).message(),
        "Unsupported protocol version: x"
    );
    assert_eq!(
        VncError::AuthFailed("x".to_string()).message(),
        "Authentication failed: x"
    );
}
