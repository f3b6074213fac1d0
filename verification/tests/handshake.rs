use hop::crypto::{Direction, SessionId, SharedKey};
use hop::handshake::{
    derive_session, opening_halves, recv_handshake, server_halves, server_halves_with, server_reply, server_reply_with,
    ClientHandshake, HandshakeError, MessageKind,
};
use hop::keys::Usage;
use hop::message::{Message, PROTOCOL_VERSION};
use hop::transport::{split, TransportError};

#[test]
fn session_depends_on_both_nonces() {
    let a = [1u8; 32];
    let b = [2u8; 32];
    let base = derive_session(&a, &b);
    assert_ne!(base, derive_session(&[9u8; 32], &b), "client nonce ignored");
    assert_ne!(base, derive_session(&a, &[9u8; 32]), "server nonce ignored");
}

#[test]
fn session_is_order_sensitive() {
    let a = [1u8; 32];
    let b = [2u8; 32];
    assert_ne!(derive_session(&a, &b), derive_session(&b, &a));
}

#[test]
fn session_is_deterministic() {
    let a = [7u8; 32];
    let b = [8u8; 32];
    assert_eq!(derive_session(&a, &b), derive_session(&a, &b));
}

#[test]
fn session_is_never_zero_for_real_nonces() {
    assert_ne!(derive_session(&[0u8; 32], &[0u8; 32]), SessionId::zero());
}

fn shaken(key: &SharedKey) -> (SessionId, SessionId, String) {
    let (state, opening) = ClientHandshake::start("pc").expect("client");
    let (_, mut writer) = split(key.duplicate(), SessionId::zero(), Direction::ClientToServer);
    let (mut reader, _) = split(key.duplicate(), SessionId::zero(), Direction::ServerToClient);
    let sent = writer.send(&opening).expect("send");
    let received = reader.recv(&sent[4..]).expect("recv");
    let (reply, server_session, peer_id) = server_reply(received).expect("server");
    let client_session = state.finish(reply).expect("client");
    (client_session, server_session, peer_id)
}

#[test]
fn client_and_server_agree_on_a_session() {
    let key = SharedKey::from_bytes([3u8; 32]);
    let (client_session, server_session, peer_id) = shaken(&key);
    assert_eq!(
        client_session, server_session,
        "peers must derive the same session"
    );
    assert_eq!(peer_id, "pc");
    assert_ne!(client_session, SessionId::zero());
}

#[test]
fn a_version_mismatch_is_refused() {
    let outcome = recv_handshake(Message::Handshake {
        version: PROTOCOL_VERSION + 1,
        capabilities: 0,
        peer_id: "pc".into(),
        nonce: [1u8; 32],
    });
    assert!(matches!(
        outcome,
        Err(HandshakeError::VersionMismatch { .. })
    ));
}

#[test]
fn an_unexpected_keystroke_never_reaches_the_formatted_error() {
    let error = recv_handshake(Message::Key {
        usage: Usage(Usage::C),
        pressed: true,
    })
    .expect_err("a Key message is not a handshake");
    let rendered = error.message();

    assert!(
        !rendered.contains("Usage"),
        "rendered error must not name the usage field: {rendered}"
    );
    assert!(
        !rendered.contains('6'),
        "rendered error must not contain Usage::C's value: {rendered}"
    );
    assert!(
        !rendered.contains("pressed"),
        "rendered error must not contain the message's fields: {rendered}"
    );
    assert!(
        rendered.contains("Key"),
        "rendered error should still name the message kind: {rendered}"
    );
}

#[test]
fn client_handshake_moves_input_onto_the_derived_session_not_zero() {
    let key = SharedKey::from_bytes([13u8; 32]);
    let (state, opening) = ClientHandshake::start("pc").expect("client");
    let (_, mut opening_writer) = opening_halves(key.duplicate(), Direction::ClientToServer);
    let (mut opening_reader, _) = opening_halves(key.duplicate(), Direction::ServerToClient);
    let first = opening_writer.send(&opening).expect("send");
    let heard = opening_reader.recv(&first[4..]).expect("recv");
    let (reply, (mut server_reader, mut server_writer), peer_id) =
        server_halves(key.duplicate(), heard).expect("server");
    assert_eq!(peer_id, "pc");
    let (mut client_reader, mut client_writer) = state.finish_halves(key.duplicate(), reply).expect("client");

    let sent = Message::Key {
        usage: Usage(Usage::C),
        pressed: true,
    };
    let frame = client_writer.send(&sent).expect("send input");
    let (mut stale, _) = split(key.duplicate(), SessionId::zero(), Direction::ServerToClient);
    assert_eq!(stale.recv(&frame[4..]), Err(TransportError::Crypto));
    assert_eq!(server_reader.recv(&frame[4..]), Ok(sent));

    let reply = server_writer.send(&Message::Heartbeat).expect("send input");
    assert_eq!(client_reader.recv(&reply[4..]), Ok(Message::Heartbeat));
}

#[test]
fn the_session_is_the_digest_of_both_nonces() {
    let session = derive_session(&[1u8; 32], &[2u8; 32]);
    assert_ne!(session.0[..], [1u8; 32]);
    assert_ne!(session.0[..], [2u8; 32]);
    assert_eq!(
        session.0,
        [
            34, 169, 247, 252, 83, 103, 226, 168, 160, 207, 165, 228, 59, 80, 115, 45,
            203, 45, 185, 170, 237, 155, 35, 113, 244, 124, 139, 6, 60, 240, 172, 89,
        ]
    );
}

#[test]
fn the_server_answers_with_its_own_nonce_and_no_name() {
    let (state, opening) = ClientHandshake::start_with("pc", [1u8; 32]);
    let (reply, session, id) = server_reply_with(opening, [2u8; 32]).expect("reply");
    assert_eq!(
        reply,
        Message::Handshake {
            version: PROTOCOL_VERSION,
            capabilities: 0,
            peer_id: String::new(),
            nonce: [2u8; 32],
        }
    );
    assert_eq!(id, "pc");
    assert_eq!(session, derive_session(&[1u8; 32], &[2u8; 32]));
    assert_eq!(state.finish(reply), Ok(session));
}

#[test]
fn two_handshakes_open_with_different_nonces() {
    let (_, a) = ClientHandshake::start("pc").expect("start");
    let (_, b) = ClientHandshake::start("pc").expect("start");
    assert_ne!(a, b);
}

#[test]
fn a_client_refuses_a_reply_that_is_no_handshake() {
    let (state, _) = ClientHandshake::start_with("pc", [1u8; 32]);
    assert_eq!(
        state.finish(Message::Heartbeat),
        Err(HandshakeError::Unexpected(MessageKind::Heartbeat))
    );
    assert_eq!(
        server_reply_with(Message::Release { along: 0 }, [2u8; 32]),
        Err(HandshakeError::Unexpected(MessageKind::Release))
    );
}

#[test]
fn every_handshake_error_has_words() {
    assert_eq!(
        HandshakeError::Transport(TransportError::Closed).message(),
        "transport: peer closed the connection"
    );
    assert_eq!(
        HandshakeError::VersionMismatch { ours: 2, theirs: 3 }.message(),
        "peer speaks protocol version 3, we speak 2"
    );
    assert_eq!(
        HandshakeError::Unexpected(MessageKind::Key).message(),
        "peer sent Key instead of a handshake"
    );
    assert_eq!(HandshakeError::Random.message(), "system RNG unavailable");
    assert_eq!(
        HandshakeError::Timeout.message(),
        "handshake did not complete within the timeout; the peer connected but never finished it"
    );
}

#[test]
fn a_refused_opening_or_reply_gives_no_halves() {
    let key = || SharedKey::from_bytes([4u8; 32]);
    let wrong = HandshakeError::Unexpected(MessageKind::Heartbeat);
    match server_halves_with(key(), Message::Heartbeat, [2u8; 32]) {
        Err(error) => assert_eq!(error.message(), wrong.message()),
        Ok(_) => panic!("a heartbeat is no opening"),
    }
    assert!(server_halves(key(), Message::Heartbeat).is_err());
    let (state, _) = ClientHandshake::start_with("pc", [1u8; 32]);
    match state.finish_halves(key(), Message::Heartbeat) {
        Err(error) => assert_eq!(error.message(), wrong.message()),
        Ok(_) => panic!("a heartbeat is no reply"),
    }
}

#[test]
fn the_halves_of_a_handshake_are_those_of_its_session() {
    let key = || SharedKey::from_bytes([4u8; 32]);
    let (state, opening) = ClientHandshake::start_with("pc", [1u8; 32]);
    let (reply, (mut server_reader, _), _) = server_halves_with(key(), opening, [2u8; 32]).expect("server");
    let (_, mut client_writer) = state.finish_halves(key(), reply).expect("client");
    let (mut known, _) = split(key(), derive_session(&[1u8; 32], &[2u8; 32]), Direction::ServerToClient);
    let frame = client_writer.send(&Message::Heartbeat).expect("send");
    assert_eq!(known.recv(&frame[4..]), Ok(Message::Heartbeat));
    assert_eq!(server_reader.recv(&frame[4..]), Ok(Message::Heartbeat));
}
