use hop::crypto::{seal_directed, Direction, SessionId, SharedKey};
use hop::keys::Usage;
use hop::message::{Button, Message};
use hop::transport::{enframe, read_failed, split, validated_len, TransportError, MAX_FRAME};

fn key() -> SharedKey {
    SharedKey::from_bytes([7u8; 32])
}

fn session() -> SessionId {
    SessionId([3u8; 32])
}

#[test]
fn sends_and_receives_a_message() {
    let (_, mut client) = split(key(), session(), Direction::ClientToServer);
    let (mut server, _) = split(key(), session(), Direction::ServerToClient);

    let sent = Message::Key {
        usage: Usage(Usage::C),
        pressed: true,
    };
    let bytes = client.send(&sent).expect("send");
    assert_eq!(server.recv(&bytes[4..]).expect("recv"), sent);
}

#[test]
fn preserves_order_across_many_messages() {
    let (_, mut client) = split(key(), session(), Direction::ClientToServer);
    let (mut server, _) = split(key(), session(), Direction::ServerToClient);

    let mut frames = Vec::new();
    for i in 0..50 {
        frames.push(client.send(&Message::MouseMove { dx: i, dy: -i }).unwrap());
    }
    for i in 0..50 {
        assert_eq!(
            server.recv(&frames[i as usize][4..]).unwrap(),
            Message::MouseMove { dx: i, dy: -i }
        );
    }
}

#[test]
fn rejects_a_peer_with_the_wrong_key() {
    let (_, mut client) = split(SharedKey::from_bytes([1u8; 32]), session(), Direction::ClientToServer);
    let (mut server, _) = split(SharedKey::from_bytes([2u8; 32]), session(), Direction::ServerToClient);

    let bytes = client.send(&Message::Heartbeat).unwrap();
    assert!(matches!(server.recv(&bytes[4..]), Err(TransportError::Crypto)));
}

#[test]
fn a_frame_sealed_under_one_session_is_refused_on_another() {
    let (_, mut client) = split(key(), SessionId([1u8; 32]), Direction::ClientToServer);
    let (mut server, _) = split(key(), SessionId([2u8; 32]), Direction::ServerToClient);

    let bytes = client.send(&Message::Heartbeat).unwrap();
    assert!(matches!(server.recv(&bytes[4..]), Err(TransportError::Crypto)));
}

#[test]
fn rejects_a_replayed_frame() {
    let (mut receiver, _) = split(key(), session(), Direction::ServerToClient);
    let frame = seal_directed(&key(), session(), Direction::ClientToServer, 1, &Message::Heartbeat).unwrap();

    assert_eq!(receiver.recv(&frame).unwrap(), Message::Heartbeat);
    assert!(matches!(receiver.recv(&frame), Err(TransportError::Replay)));
}

#[test]
fn refuses_an_oversized_declared_length() {
    assert!(matches!(
        validated_len(u32::MAX.to_be_bytes()),
        Err(TransportError::FrameTooLarge)
    ));
}

#[test]
fn a_forged_frame_cannot_poison_the_replay_window() {
    let (mut receiver, _) = split(key(), session(), Direction::ServerToClient);

    let mut forged = Vec::new();
    forged.extend_from_slice(&u64::MAX.to_be_bytes());
    forged.extend_from_slice(&[0u8; 64]);
    assert!(matches!(receiver.recv(&forged), Err(TransportError::Crypto)));

    let real = seal_directed(&key(), session(), Direction::ClientToServer, 1, &Message::Heartbeat).unwrap();
    assert_eq!(receiver.recv(&real).unwrap(), Message::Heartbeat);
}

#[test]
fn truncated_body_is_reported_distinctly_from_a_clean_close() {
    assert!(matches!(
        read_failed(true, true, "early eof".to_string()),
        TransportError::Truncated
    ));
}

#[test]
fn closing_between_frames_is_still_reported_as_closed() {
    assert!(matches!(
        read_failed(false, true, "early eof".to_string()),
        TransportError::Closed
    ));
}

#[test]
fn any_other_failure_of_the_stream_is_passed_on() {
    for inside_frame in [false, true] {
        assert_eq!(
            read_failed(inside_frame, false, "connection reset".to_string()),
            TransportError::Io("connection reset".to_string())
        );
    }
}

#[test]
fn each_direction_has_its_own_sequence_space() {
    let (mut ar, mut aw) = split(key(), SessionId::zero(), Direction::ClientToServer);
    let (mut br, mut bw) = split(key(), SessionId::zero(), Direction::ServerToClient);

    let from_a = aw.send(&Message::Heartbeat).unwrap();
    let from_b = bw.send(&Message::Heartbeat).unwrap();
    assert_eq!(br.recv(&from_a[4..]).unwrap(), Message::Heartbeat);
    assert_eq!(ar.recv(&from_b[4..]).unwrap(), Message::Heartbeat);
}

#[test]
fn a_frame_cannot_be_reflected_at_its_sender() {
    let (mut reader, mut writer) = split(key(), session(), Direction::ClientToServer);
    let sent = writer.send(&Message::Heartbeat).unwrap();
    assert_eq!(reader.recv(&sent[4..]), Err(TransportError::Crypto));
}

#[test]
fn every_message_variant_seals_under_the_frame_cap() {
    let cases = vec![
        Message::Handshake {
            version: 1,
            capabilities: 0,
            peer_id: "a-fairly-realistic-machine-identifier-1234".into(),
            nonce: [0u8; 32],
        },
        Message::MouseMove { dx: -3, dy: 7 },
        Message::MouseButton {
            button: Button::Left,
            pressed: true,
        },
        Message::Scroll { dx: 0, dy: -1 },
        Message::Key {
            usage: Usage(Usage::C),
            pressed: true,
        },
        Message::ReleaseAllKeys,
        Message::Heartbeat,
        Message::Release { along: 0 },
    ];
    for message in cases {
        let frame = seal_directed(&key(), session(), Direction::ClientToServer, 1, &message).unwrap();
        assert!(
            frame.len() < MAX_FRAME,
            "{message:?} sealed to {} bytes, which is not under MAX_FRAME",
            frame.len()
        );
    }
}

#[test]
fn the_length_goes_in_front_highest_byte_first() {
    assert_eq!(enframe(vec![9; 3]), Ok(vec![0, 0, 0, 3, 9, 9, 9]));
    assert_eq!(validated_len([0, 0, 0, 3]), Ok(3));
    assert_eq!(validated_len([0, 1, 0, 0]), Ok(MAX_FRAME));
    assert_eq!(validated_len([0, 1, 0, 1]), Err(TransportError::FrameTooLarge));
    let largest = enframe(vec![0; MAX_FRAME]).unwrap();
    assert_eq!(largest[..4], [0, 1, 0, 0]);
    assert_eq!(enframe(vec![0; MAX_FRAME + 1]), Err(TransportError::FrameTooLarge));
}

#[test]
fn what_does_not_fit_in_a_frame_is_not_sent() {
    let (_, mut writer) = split(key(), session(), Direction::ClientToServer);
    assert_eq!(
        writer.send(&Message::FileChunk(vec![0; MAX_FRAME])),
        Err(TransportError::FrameTooLarge)
    );
    assert_eq!(writer.send(&Message::Unknown), Err(TransportError::Crypto));
}

#[test]
fn every_transport_error_has_words() {
    assert_eq!(TransportError::Io("reset".to_string()).message(), "io: reset");
    assert_eq!(TransportError::Crypto.message(), "decryption or authentication failed");
    assert_eq!(TransportError::Replay.message(), "replayed frame refused");
    assert_eq!(TransportError::FrameTooLarge.message(), "frame too large");
    assert_eq!(TransportError::Closed.message(), "peer closed the connection");
    assert_eq!(TransportError::Truncated.message(), "connection ended mid-frame");
}
