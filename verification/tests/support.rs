use chat_core::corrupt::{corrupt_bytes, corruption_count};
use chat_core::decimal::u64_to_string;
use chat_core::dispatch::{file_path, image_path, is_plain_file_name};
use chat_core::message::MessageType;
use chat_core::report::{error_reply, ChatError};
use chat_core::wire::str_eq;

#[test]
fn decimal_rendering_is_exact() {
    assert_eq!(u64_to_string(0), "0");
    assert_eq!(u64_to_string(7), "7");
    assert_eq!(u64_to_string(42), "42");
    assert_eq!(u64_to_string(1000), "1000");
    assert_eq!(u64_to_string(u64::MAX), "18446744073709551615");
}

#[test]
fn storage_paths() {
    assert_eq!(image_path(1234), "images/1234.png");
    assert_eq!(file_path(&"notes.txt".to_string()), "files/notes.txt");
}

#[test]
fn plain_file_names() {
    assert!(is_plain_file_name(&"notes.txt".to_string()));
    assert!(!is_plain_file_name(&"".to_string()));
    assert!(!is_plain_file_name(&"a/b".to_string()));
    assert!(!is_plain_file_name(&"..".to_string()));
    assert!(!is_plain_file_name(&".".to_string()));
    assert!(!is_plain_file_name(&"a\\b".to_string()));
}

#[test]
fn only_framing_failures_are_fatal() {
    assert!(ChatError::Framing.is_fatal());
    for e in [
        ChatError::Decode,
        ChatError::Protocol,
        ChatError::Auth,
        ChatError::Persistence,
        ChatError::Io,
    ] {
        assert!(!e.is_fatal());
    }
}

#[test]
fn error_replies_carry_the_description() {
    match error_reply(&ChatError::Persistence) {
        MessageType::Error(t) => assert_eq!(t, "Failed to persist the message"),
        other => panic!("expected an error message, got {:?}", other),
    }
    match error_reply(&ChatError::Decode) {
        MessageType::Error(t) => assert_eq!(t, "Decode error: the payload is not a known message"),
        other => panic!("expected an error message, got {:?}", other),
    }
    match error_reply(&ChatError::Protocol) {
        MessageType::Error(t) => {
            assert_eq!(t, "Protocol error: that message is not allowed right now")
        }
        other => panic!("expected an error message, got {:?}", other),
    }
}

#[test]
fn corruption_budget_is_a_tenth() {
    assert_eq!(corruption_count(0), 0);
    assert_eq!(corruption_count(9), 0);
    assert_eq!(corruption_count(10), 1);
    assert_eq!(corruption_count(105), 10);
}

#[test]
fn corrupt_bytes_applies_edits_in_order() {
    let data = vec![0u8, 1, 2, 3];
    let edits = vec![(1usize, 9u8), (3, 8), (1, 7)];
    let out = corrupt_bytes(data, &edits);
    assert_eq!(out, vec![0u8, 7, 2, 8]);
}

#[test]
fn str_eq_compares_by_characters() {
    assert!(str_eq("příliš", "příliš"));
    assert!(!str_eq("a", "b"));
    assert!(!str_eq("a", "ab"));
    assert!(str_eq("", ""));
}

#[test]
fn report_error_frame_round_trips() {
    let frame = chat_core::report::report_error_frame(&ChatError::Decode);
    let (message, next) = chat_core::codec::decode_frame(&frame, 0).unwrap();
    assert_eq!(next, frame.len());
    match message {
        MessageType::Error(t) => {
            assert_eq!(t, "Decode error: the payload is not a known message")
        }
        other => panic!("expected an error message, got {:?}", other),
    }
}
