use repeater::message::{CloseFrame, Message};

#[test]
fn data_of_text_is_utf8() {
    let msg = Message::Text("h\u{e9}".to_string());
    assert_eq!(msg.into_data(), vec![0x68, 0xc3, 0xa9]);
}

#[test]
fn data_of_bytes_is_the_bytes() {
    assert_eq!(Message::binary(vec![1, 2, 3]).into_data(), vec![1, 2, 3]);
    assert_eq!(Message::Ping(vec![4]).into_data(), vec![4]);
    assert_eq!(Message::Pong(vec![5, 6]).into_data(), vec![5, 6]);
}

#[test]
fn data_of_close_is_the_reason() {
    assert_eq!(Message::Close(None).into_data(), Vec::<u8>::new());
    let frame = CloseFrame { code: 1000, reason: "bye".to_string() };
    assert_eq!(Message::Close(Some(frame)).into_data(), b"bye".to_vec());
    let frame = CloseFrame { code: 0, reason: String::new() };
    assert_eq!(Message::Close(Some(frame)).into_data(), Vec::<u8>::new());
}

#[test]
fn a_clone_is_equal() {
    let messages = vec![
        Message::Text("a".to_string()),
        Message::Binary(vec![1, 2]),
        Message::Ping(vec![]),
        Message::Pong(vec![3]),
        Message::Close(None),
        Message::Close(Some(CloseFrame { code: 4001, reason: "r".to_string() })),
    ];
    for msg in &messages {
        assert_eq!(msg.clone(), *msg);
    }
}
