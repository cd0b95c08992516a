use sure_shot::codec::{decode_message, encode_message};
use sure_shot::types::{Attachment, ReceivedMessage};

fn sample() -> ReceivedMessage {
    ReceivedMessage {
        from: "192.168.1.10".to_string(),
        from_name: "alice".to_string(),
        message: "hi there: with 7:colons and \"quotes\"".to_string(),
        message_type: "text".to_string(),
        timestamp: "2024-06-01T12:34:56+00:00".to_string(),
        is_self: true,
        attachments: vec![
            Attachment {
                id: "a1".to_string(),
                filename: "photo.png".to_string(),
                mime_type: "image/png".to_string(),
                size: 123456,
                data: "QUJDREVG".to_string(),
                thumbnail: Some("dGh1bWI=".to_string()),
            },
            Attachment {
                id: "a2".to_string(),
                filename: "notes.txt".to_string(),
                mime_type: "text/plain".to_string(),
                size: 0,
                data: "".to_string(),
                thumbnail: None,
            },
        ],
    }
}

#[test]
fn round_trip_recomputes_is_self_for_the_sender() {
    let m = sample();
    let wire = encode_message(&m);
    // Read back on the node whose address is the sender's own.
    let back = decode_message(wire.as_str(), "192.168.1.10").expect("decodes");
    assert_eq!(back.from, m.from);
    assert_eq!(back.from_name, m.from_name);
    assert_eq!(back.message, m.message);
    assert_eq!(back.message_type, m.message_type);
    assert_eq!(back.timestamp, m.timestamp);
    assert_eq!(back.attachments, m.attachments);
    assert!(back.is_self);
}

#[test]
fn round_trip_recomputes_is_self_for_another_reader() {
    let m = sample();
    let wire = encode_message(&m);
    // Another node reads the same bytes: every field equal, is_self not.
    let back = decode_message(wire.as_str(), "192.168.1.20").expect("decodes");
    assert_eq!(back.from, m.from);
    assert_eq!(back.attachments, m.attachments);
    assert!(!back.is_self);
}

#[test]
fn round_trip_of_empty_fields() {
    let m = ReceivedMessage {
        from: "".to_string(),
        from_name: "".to_string(),
        message: "".to_string(),
        message_type: "".to_string(),
        timestamp: "".to_string(),
        is_self: false,
        attachments: Vec::new(),
    };
    let wire = encode_message(&m);
    let back = decode_message(wire.as_str(), "").expect("decodes");
    assert_eq!(back.message, "");
    assert_eq!(back.attachments.len(), 0);
    // The sender address equals the reading address: both empty.
    assert!(back.is_self);
}

#[test]
fn decode_rejects_garbage() {
    assert!(decode_message("", "x").is_none());
    assert!(decode_message("not a message", "x").is_none());
    assert!(decode_message("5:ab", "x").is_none());
}

#[test]
fn decode_rejects_trailing_junk() {
    let m = sample();
    let mut wire = encode_message(&m);
    wire.push_str("extra");
    assert!(decode_message(wire.as_str(), "192.168.1.10").is_none());
}

#[test]
fn decode_rejects_truncation() {
    let m = sample();
    let wire = encode_message(&m);
    let cut: String = wire.chars().take(wire.chars().count() - 3).collect();
    assert!(decode_message(cut.as_str(), "192.168.1.10").is_none());
}

#[test]
fn encoding_is_plain_text_with_lengths() {
    let m = ReceivedMessage {
        from: "a".to_string(),
        from_name: "b".to_string(),
        message: "cc".to_string(),
        message_type: "t".to_string(),
        timestamp: "z".to_string(),
        is_self: false,
        attachments: Vec::new(),
    };
    let wire = encode_message(&m);
    assert_eq!(wire, "1:a1:b2:cc1:t1:z00:");
}
