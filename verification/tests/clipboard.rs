use vnc_client::clipboard::{
    build_text_provide, build_text_request, decode_message, read_message, ClipboardFormat,
    ClipboardMessage,
};
use vnc_client::VncError;

#[test]
fn reexported_text_provide_roundtrip() {
    let data = build_text_provide("smoke");
    match decode_message(&data).unwrap() {
        ClipboardMessage::Provide { data } => {
            assert_eq!(data.len(), 1);
            assert_eq!(data[0].0, ClipboardFormat::Text);
            assert_eq!(data[0].1, b"smoke");
        }
        _ => panic!("expected Provide message"),
    }
}

#[test]
fn request_for_text_is_read_as_one() {
    let data = build_text_request();
    assert_eq!(data, vec![0x02, 0, 0, 1]);
    match decode_message(&data).unwrap() {
        ClipboardMessage::Request { formats } => assert_eq!(formats, vec![ClipboardFormat::Text]),
        _ => panic!("expected Request message"),
    }
}

#[test]
fn other_messages_are_read() {
    assert!(matches!(decode_message(&[0x04, 0, 0, 0]), Ok(ClipboardMessage::Peek)));
    match decode_message(&[0x08, 0, 0, 6]).unwrap() {
        ClipboardMessage::Notify { formats } => {
            assert_eq!(formats, vec![ClipboardFormat::Rtf, ClipboardFormat::Html]);
        }
        _ => panic!("expected Notify message"),
    }
    match decode_message(&[0x01, 0, 0, 9, 0, 0, 0, 5, 0, 0, 1, 0]).unwrap() {
        ClipboardMessage::Caps { formats } => {
            assert_eq!(formats, vec![(ClipboardFormat::Text, 5), (ClipboardFormat::Dib, 256)]);
        }
        _ => panic!("expected Caps message"),
    }
}

#[test]
fn malformed_messages_are_refused() {
    for data in [
        &[0u8, 0, 0][..],
        &[0, 0, 0, 1],
        &[0x01, 0, 0, 1, 0],
        &[0x10, 0, 0, 1, 1, 2, 3],
    ] {
        assert!(matches!(decode_message(data), Err(VncError::Protocol(_))));
    }
    assert!(read_message(&[0x10, 0, 0, 1], Some(vec![0, 0, 0, 9])).is_err());
    assert!(read_message(&[0x10, 0, 0, 1], Some(vec![0, 0, 0, 1, 7])).is_ok());
}
