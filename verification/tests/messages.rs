use esp32c6_probe::message::{decode_message, encode_message, MessageError, MESSAGE_CAPACITY};

#[test]
fn decodes_text() {
    let message = decode_message(b"test message").unwrap();
    assert_eq!(message.as_str(), "test message");
}

#[test]
fn decodes_empty_payload() {
    assert_eq!(decode_message(&[]).unwrap().as_str(), "");
}

#[test]
fn decodes_more_than_ascii() {
    let message = decode_message(&[0xf0, 0x9f, 0x92, 0x96]).unwrap();
    assert_eq!(message.chars().count(), 1);
    assert_eq!(message.len(), 4);
}

#[test]
fn decodes_payload_of_full_length() {
    let payload = [b'x'; MESSAGE_CAPACITY];
    assert_eq!(decode_message(&payload).unwrap().len(), 128);
}

#[test]
fn refuses_payload_that_is_too_long() {
    let payload = [b'x'; MESSAGE_CAPACITY + 1];
    assert_eq!(decode_message(&payload), Err(MessageError::TooLong));
}

#[test]
fn refuses_payload_that_is_not_utf8() {
    assert_eq!(decode_message(&[0, 159, 146, 150]), Err(MessageError::NotUtf8));
    assert_eq!(decode_message(&[0xed, 0xa0, 0x80]), Err(MessageError::NotUtf8));
}

#[test]
fn refuses_long_payload_before_looking_at_it() {
    let payload = [0xff; MESSAGE_CAPACITY + 1];
    assert_eq!(decode_message(&payload), Err(MessageError::TooLong));
}

#[test]
fn text_survives() {
    for text in ["", "test message", "{\"centigrade\":21.5,\"humidity_percent\":40.25}", "\u{20ac}\u{e9}"] {
        let message = decode_message(text.as_bytes()).unwrap();
        assert_eq!(encode_message(&message), text.as_bytes());
        let again = decode_message(encode_message(&message)).unwrap();
        assert_eq!(again.as_str(), text);
    }
}

#[test]
fn payloads_stay_apart() {
    assert_ne!(decode_message(b"on").unwrap(), decode_message(b"on ").unwrap());
    assert_ne!(
        decode_message("\u{e9}".as_bytes()).unwrap(),
        decode_message("e\u{301}".as_bytes()).unwrap()
    );
}
