use tick_relay::message::{Frame, Message, MessageKind, ReadOutcome};

#[test]
fn text_message_keeps_kind_and_bytes() {
    let m = Message::text(b"hello".to_vec());
    assert_eq!(m.kind(), MessageKind::Text);
    assert_eq!(m.payload(), &b"hello".to_vec());
}

#[test]
fn binary_message_keeps_kind_and_bytes() {
    let m = Message::binary(vec![0, 1, 3, 4, 241]);
    assert_eq!(m.kind(), MessageKind::Binary);
    assert_eq!(m.payload(), &vec![0u8, 1, 3, 4, 241]);
}

#[test]
fn new_message_is_what_text_and_binary_build() {
    assert_eq!(Message::new(MessageKind::Text, b"a".to_vec()), Message::text(b"a".to_vec()));
    assert_eq!(Message::new(MessageKind::Binary, vec![7]), Message::binary(vec![7]));
}

#[test]
fn same_bytes_of_another_kind_are_another_message() {
    assert_ne!(Message::text(b"abc".to_vec()), Message::binary(b"abc".to_vec()));
}

#[test]
fn empty_payload_is_a_message() {
    let m = Message::text(Vec::new());
    assert_eq!(m.payload().len(), 0);
    assert_eq!(m.kind(), MessageKind::Text);
}

#[test]
fn clone_is_equal_and_independent() {
    let m = Message::binary(vec![9, 8, 7]);
    let c = m.clone();
    assert_eq!(c, m);
    let bytes = c.into_payload();
    assert_eq!(bytes, vec![9, 8, 7]);
    assert_eq!(m.payload(), &vec![9u8, 8, 7]);
}

#[test]
fn into_payload_gives_the_bytes_back() {
    assert_eq!(Message::text(b"xyz".to_vec()).into_payload(), b"xyz".to_vec());
}

#[test]
fn text_frame_becomes_text_message() {
    let m = Frame::Text(b"hello".to_vec()).into_message();
    assert_eq!(m, Some(Message::text(b"hello".to_vec())));
}

#[test]
fn binary_frame_becomes_binary_message() {
    let m = Frame::Binary(vec![1, 2, 3]).into_message();
    assert_eq!(m, Some(Message::binary(vec![1, 2, 3])));
}

#[test]
fn ping_frame_is_no_message() {
    assert_eq!(Frame::Ping(b"ping".to_vec()).into_message(), None);
}

#[test]
fn pong_frame_is_no_message() {
    assert_eq!(Frame::Pong(b"pong".to_vec()).into_message(), None);
}

#[test]
fn close_frame_is_no_message() {
    assert_eq!(Frame::Close.into_message(), None);
}

#[test]
fn control_frames_are_ping_pong_and_close() {
    assert!(Frame::Ping(Vec::new()).is_control());
    assert!(Frame::Pong(vec![1]).is_control());
    assert!(Frame::Close.is_control());
    assert!(!Frame::Text(b"ping".to_vec()).is_control());
    assert!(!Frame::Binary(Vec::new()).is_control());
}

#[test]
fn read_outcomes_compare_by_content() {
    assert_eq!(ReadOutcome::Idle, ReadOutcome::Idle);
    assert_ne!(ReadOutcome::Idle, ReadOutcome::Failed);
    assert_eq!(
        ReadOutcome::Frame(Frame::Text(b"a".to_vec())),
        ReadOutcome::Frame(Frame::Text(b"a".to_vec()))
    );
    assert_ne!(
        ReadOutcome::Frame(Frame::Text(b"a".to_vec())),
        ReadOutcome::Frame(Frame::Binary(b"a".to_vec()))
    );
}
