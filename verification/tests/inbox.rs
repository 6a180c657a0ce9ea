use vnc_client::inbox::Inbox;

#[test]
fn bytes_leave_from_the_front() {
    let mut inbox = Inbox::new();
    inbox.receive(&[1, 2]);
    inbox.receive(&[3]);
    assert_eq!(inbox.input(), &[1, 2, 3]);
    inbox.consume(2);
    assert_eq!(inbox.input(), &[3]);
    assert!(inbox.ends().is_empty());
}

#[test]
fn record_ends_move_with_the_bytes() {
    let mut inbox = Inbox::new();
    inbox.receive_record(&[1, 2, 3]);
    inbox.receive_record(&[4, 5]);
    assert_eq!(inbox.ends(), &[3, 5]);
    inbox.consume(1);
    assert_eq!(inbox.ends(), &[2, 4]);
    inbox.consume(2);
    assert_eq!(inbox.ends(), &[2]);
    assert_eq!(inbox.input(), &[4, 5]);
}
