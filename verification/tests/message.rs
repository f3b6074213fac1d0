use hop::keys::Usage;
use hop::message::{decode, encode, encode_raw, Button, CodecError, Message, PROTOCOL_VERSION};
use hop::wire::Reason;

#[test]
fn clipboard_text_round_trips_including_awkward_content() {
    for text in [
        "hello",
        "",
        "line one\nline two\r\nline three",
        "unicode: caf\u{e9} \u{4f60}\u{597d} \u{1f600}",
        "  leading and trailing whitespace  ",
    ] {
        let original = Message::ClipboardText(text.to_string());
        let decoded = decode(&encode(&original).expect("encode")).expect("decode");
        assert_eq!(original, decoded, "clipboard text did not round trip");
    }
}

#[test]
fn a_peer_that_does_not_know_clipboard_ignores_it() {
    let future = encode_raw(9999, b"\x13some clipboard text").expect("encode");
    assert_eq!(decode(&future).expect("decode"), Message::Unknown);
}

#[test]
fn round_trips_every_variant() {
    let cases = vec![
        Message::Handshake {
            version: PROTOCOL_VERSION,
            capabilities: 0,
            peer_id: "pc".into(),
            nonce: [9u8; 32],
        },
        Message::MouseMove { dx: -3, dy: 7 },
        Message::MouseButton {
            button: Button::Left,
            pressed: true,
        },
        Message::Scroll { dx: 0, dy: -1 },
        Message::Key {
            usage: Usage(Usage::C),
            pressed: true,
        },
        Message::ReleaseAllKeys,
        Message::Heartbeat,
        Message::Release { along: (-204.5f32).to_bits() },
        Message::Enter { along: 1337.25f32.to_bits() },
    ];
    for original in cases {
        let bytes = encode(&original).expect("encode");
        let decoded = decode(&bytes).expect("decode");
        assert_eq!(original, decoded, "round trip failed");
    }
}

#[test]
fn rejects_truncated_input() {
    let bytes = encode(&Message::MouseMove { dx: 1, dy: 1 }).unwrap();
    let truncated = &bytes[..bytes.len() - 1];
    assert!(decode(truncated).is_err());
}

#[test]
fn unknown_message_types_decode_to_unknown() {
    let future = encode_raw(9999, &[]).expect("encode");
    assert_eq!(decode(&future).expect("decode"), Message::Unknown);
}

#[test]
fn the_encoding_is_the_tag_and_the_packed_body() {
    assert_eq!(encode(&Message::Heartbeat).unwrap(), [7, 0]);
    assert_eq!(encode(&Message::MouseMove { dx: -1, dy: 300 }).unwrap(), [2, 3, 1, 216, 4]);
    assert_eq!(encode(&Message::Key { usage: Usage(0xE0), pressed: true }).unwrap(), [5, 3, 224, 1, 1]);
    assert_eq!(
        encode(&Message::ClipboardText("hi".to_string())).unwrap(),
        [9, 3, 2, b'h', b'i']
    );
    assert_eq!(
        encode(&Message::Enter { along: 1.0f32.to_bits() }).unwrap(),
        [14, 4, 0, 0, 0x80, 0x3f]
    );
}

#[test]
fn every_number_of_a_file_and_an_edge_survives() {
    for original in [
        Message::FileOffer { name: "notes.txt".to_string(), size: u64::MAX },
        Message::FileChunk(vec![0, 255, 128]),
        Message::FileChunk(Vec::new()),
        Message::FileEnd,
        Message::FileAbort,
        Message::Enter { along: f32::NAN.to_bits() },
        Message::Release { along: f32::NEG_INFINITY.to_bits() },
        Message::MouseMove { dx: i32::MIN, dy: i32::MAX },
    ] {
        assert_eq!(decode(&encode(&original).expect("encode")), Ok(original));
    }
}

#[test]
fn every_cut_of_a_message_is_refused() {
    let bytes = encode(&Message::FileOffer { name: "notes.txt".to_string(), size: 70000 }).unwrap();
    for cut in 0..bytes.len() {
        assert_eq!(decode(&bytes[..cut]), Err(CodecError::Malformed(Reason::UnexpectedEnd)), "cut at {cut}");
    }
}

#[test]
fn what_was_not_understood_is_not_sent_on() {
    assert_eq!(encode(&Message::Unknown), Err(CodecError::UnknownNotEncodable));
    assert_eq!(
        CodecError::Malformed(Reason::BadBool).message(),
        "malformed message: Found a bool that wasn't 0 or 1"
    );
    assert_eq!(
        CodecError::UnknownNotEncodable.message(),
        "a message of unknown type cannot be encoded"
    );
}

#[test]
fn a_malformed_body_is_refused_with_its_reason() {
    let refused = |tag: u16, body: &[u8]| decode(&encode_raw(tag, body).expect("encode"));
    // A key press whose flag is neither 0 nor 1.
    assert_eq!(refused(5, &[4, 2]), Err(CodecError::Malformed(Reason::BadBool)));
    // Clipboard text that is no text.
    assert_eq!(refused(9, &[1, 0xFF]), Err(CodecError::Malformed(Reason::BadUtf8)));
    // A motion whose first number does not end.
    assert_eq!(refused(2, &[0xFF; 12]), Err(CodecError::Malformed(Reason::BadVarint)));
    // A button that there is not.
    assert_eq!(refused(3, &[9, 1]), Err(CodecError::Malformed(Reason::Reading)));
    assert_eq!(refused(3, &[9]), Err(CodecError::Malformed(Reason::Reading)));
    assert_eq!(refused(3, &[1]), Err(CodecError::Malformed(Reason::UnexpectedEnd)));
    assert_eq!(refused(8, &[0, 0, 0]), Err(CodecError::Malformed(Reason::UnexpectedEnd)));
    assert_eq!(
        refused(9, &[1, 0xFF]).unwrap_err().message(),
        format!("malformed message: {}", postcard::from_bytes::<String>(&[1, 0xFF]).unwrap_err())
    );
    assert_eq!(
        refused(2, &[0xFF; 12]).unwrap_err().message(),
        format!("malformed message: {}", postcard::from_bytes::<(i32, i32)>(&[0xFF; 12]).unwrap_err())
    );
}
