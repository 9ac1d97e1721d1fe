use chat_core::codec::{
    decode_frame, deserialize_message, encode_frame, serialize_message, DeserializationError,
};
use chat_core::message::MessageType;
use chat_core::report::ChatError;

fn roundtrip(message: &MessageType) -> MessageType {
    let serialized = serialize_message(message).unwrap();
    deserialize_message(&serialized).unwrap()
}

#[test]
fn test_serialize_deserialize_text_message() {
    let message = MessageType::Text("Příliš žluťoučký kůň úpěl ďábelské ódy!".to_string());
    let serialized = serialize_message(&message).unwrap();
    let deserialized: MessageType = deserialize_message(&serialized).unwrap();

    if let MessageType::Text(text) = deserialized {
        assert_eq!(text, "Příliš žluťoučký kůň úpěl ďábelské ódy!")
    } else {
        panic!("Deserialized message is not of type Text");
    }
}

#[test]
fn test_serialize_deserialize_image_message() {
    let message = MessageType::Image(vec![1, 2, 3, 4, 5]);
    let serialized = serialize_message(&message).unwrap();
    let deserialized: MessageType = deserialize_message(&serialized).unwrap();

    if let MessageType::Image(data) = deserialized {
        assert_eq!(data, vec![1, 2, 3, 4, 5]);
    } else {
        panic!("Deserialized message is not of type Image");
    }
}

#[test]
fn test_serialize_deserialize_file_message() {
    let message = MessageType::File("test.txt".to_string(), vec![1, 2, 3, 4, 5, 6]);
    let serialized = serialize_message(&message).unwrap();
    let deserialized: MessageType = deserialize_message(&serialized).unwrap();

    if let MessageType::File(filename, data) = deserialized {
        assert_eq!(filename, "test.txt");
        assert_eq!(data, vec![1, 2, 3, 4, 5, 6]);
    } else {
        panic!("Deserialized message is not of type File");
    }
}

#[test]
fn text_payload_exact_bytes() {
    let bytes = serialize_message(&MessageType::Text("hi".to_string())).unwrap();
    assert_eq!(bytes, vec![0u8, 0, 0, 0, 2, 104, 105]);
}

#[test]
fn frame_exact_bytes() {
    let frame = encode_frame(&MessageType::Text("hi".to_string())).unwrap();
    assert_eq!(frame, vec![0u8, 0, 0, 7, 0, 0, 0, 0, 2, 104, 105]);
}

#[test]
fn quit_payload_is_one_tag_byte() {
    let bytes = serialize_message(&MessageType::Quit).unwrap();
    assert_eq!(bytes, vec![3u8]);
}

#[test]
fn roundtrip_empty_text() {
    match roundtrip(&MessageType::Text(String::new())) {
        MessageType::Text(t) => assert_eq!(t, ""),
        _ => panic!("wrong variant"),
    }
}

#[test]
fn roundtrip_empty_image() {
    match roundtrip(&MessageType::Image(Vec::new())) {
        MessageType::Image(b) => assert!(b.is_empty()),
        _ => panic!("wrong variant"),
    }
}

#[test]
fn roundtrip_large_blob() {
    let blob: Vec<u8> = (0..100_000u32).map(|i| (i % 251) as u8).collect();
    match roundtrip(&MessageType::Image(blob.clone())) {
        MessageType::Image(b) => assert_eq!(b, blob),
        _ => panic!("wrong variant"),
    }
}

#[test]
fn roundtrip_file_with_unicode_name() {
    let message = MessageType::File("ěščř.bin".to_string(), vec![0, 255, 128]);
    match roundtrip(&message) {
        MessageType::File(n, b) => {
            assert_eq!(n, "ěščř.bin");
            assert_eq!(b, vec![0, 255, 128]);
        },
        _ => panic!("wrong variant"),
    }
}

#[test]
fn roundtrip_error_login_register() {
    match roundtrip(&MessageType::Error("boom".to_string())) {
        MessageType::Error(e) => assert_eq!(e, "boom"),
        _ => panic!("wrong variant"),
    }
    match roundtrip(&MessageType::Login("alice".to_string())) {
        MessageType::Login(u) => assert_eq!(u, "alice"),
        _ => panic!("wrong variant"),
    }
    match roundtrip(&MessageType::Register("bob".to_string())) {
        MessageType::Register(u) => assert_eq!(u, "bob"),
        _ => panic!("wrong variant"),
    }
    match roundtrip(&MessageType::Quit) {
        MessageType::Quit => (),
        _ => panic!("wrong variant"),
    }
}

#[test]
fn unknown_tag_is_rejected() {
    let r = deserialize_message(&vec![9u8]);
    assert_eq!(r.unwrap_err(), DeserializationError::MalformedPayload);
}

#[test]
fn trailing_bytes_are_rejected() {
    let mut bytes = serialize_message(&MessageType::Quit).unwrap();
    bytes.push(0);
    assert!(deserialize_message(&bytes).is_err());
}

#[test]
fn field_length_past_end_is_rejected() {
    // Text tag announcing 10 bytes but carrying 2
    let bytes = vec![0u8, 0, 0, 0, 10, 104, 105];
    assert!(deserialize_message(&bytes).is_err());
}

#[test]
fn invalid_utf8_text_is_rejected() {
    let bytes = vec![0u8, 0, 0, 0, 2, 0xff, 0xfe];
    assert!(deserialize_message(&bytes).is_err());
}

#[test]
fn decode_frame_reads_one_message() {
    let frame = encode_frame(&MessageType::Login("alice".to_string())).unwrap();
    let (message, next) = decode_frame(&frame, 0).unwrap();
    assert_eq!(next, frame.len());
    match message {
        MessageType::Login(u) => assert_eq!(u, "alice"),
        _ => panic!("wrong variant"),
    }
}

#[test]
fn decode_frame_reads_a_stream_of_frames() {
    let mut stream = encode_frame(&MessageType::Text("one".to_string())).unwrap();
    stream.extend(encode_frame(&MessageType::Quit).unwrap());
    let (first, mid) = decode_frame(&stream, 0).unwrap();
    let (second, end) = decode_frame(&stream, mid).unwrap();
    assert_eq!(end, stream.len());
    assert!(matches!(first, MessageType::Text(t) if t == "one"));
    assert!(matches!(second, MessageType::Quit));
}

#[test]
fn truncated_mid_length_is_a_framing_error() {
    let frame = encode_frame(&MessageType::Text("hello".to_string())).unwrap();
    let cut = frame[..2].to_vec();
    assert_eq!(decode_frame(&cut, 0).unwrap_err(), ChatError::Framing);
}

#[test]
fn truncated_mid_payload_is_a_framing_error() {
    let frame = encode_frame(&MessageType::Text("hello".to_string())).unwrap();
    let cut = frame[..frame.len() - 1].to_vec();
    assert_eq!(decode_frame(&cut, 0).unwrap_err(), ChatError::Framing);
}

#[test]
fn empty_stream_is_a_framing_error() {
    assert_eq!(decode_frame(&Vec::new(), 0).unwrap_err(), ChatError::Framing);
}

#[test]
fn complete_frame_with_garbage_payload_is_a_decode_error() {
    // well-formed frame carrying a payload with an unknown tag
    let stream = vec![0u8, 0, 0, 1, 42];
    assert_eq!(decode_frame(&stream, 0).unwrap_err(), ChatError::Decode);
}
