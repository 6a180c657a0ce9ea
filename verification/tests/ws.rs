use vnc_client::ws::{WsBuffer, WsMessage};
use vnc_client::VncError;

#[test]
fn messages_come_out_in_pieces() {
    let mut buffer = WsBuffer::new();
    assert!(buffer.drained());
    assert_eq!(buffer.fill_buffer(WsMessage::Binary(vec![1, 2, 3])), Ok(true));
    assert_eq!(buffer.read(2), vec![1, 2]);
    assert!(!buffer.drained());
    assert_eq!(buffer.read(2), vec![3]);
    assert!(buffer.drained());
    assert_eq!(buffer.fill_buffer(WsMessage::Text(b"hi".to_vec())), Ok(true));
    assert_eq!(buffer.read(9), b"hi");
}

#[test]
fn other_messages_are_skipped_and_a_close_ends_the_stream() {
    let mut buffer = WsBuffer::new();
    assert_eq!(buffer.fill_buffer(WsMessage::Other), Ok(false));
    assert_eq!(
        buffer.fill_buffer(WsMessage::Close),
        Err(VncError::Io("WebSocket closed".to_string()))
    );
    assert!(buffer.drained());
}

#[test]
fn writes_are_sent_as_one_message() {
    let mut buffer = WsBuffer::new();
    assert_eq!(buffer.unsent(), None);
    buffer.write(&[1]);
    buffer.write(&[2, 3]);
    assert_eq!(buffer.unsent(), Some(vec![1, 2, 3]));
    assert_eq!(buffer.unsent(), Some(vec![1, 2, 3]));
    buffer.sent();
    assert_eq!(buffer.unsent(), None);
}
