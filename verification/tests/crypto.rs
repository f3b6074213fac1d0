use hop::crypto::{
    open, open_directed, seal, seal_directed, seal_with_nonce, CryptoError, Direction, SessionId, SharedKey, MIN_FRAME,
    NONCE_LEN, SEQ_LEN,
};
use hop::keys::Usage;
use hop::message::{encode, CodecError, Message};
use hop::wire::Reason;

fn sample() -> Message {
    Message::Key {
        usage: Usage(Usage::C),
        pressed: true,
    }
}

fn session() -> SessionId {
    SessionId([5u8; 32])
}

#[test]
fn seals_and_opens_round_trip() {
    let key = SharedKey::generate().unwrap();
    let sealed = seal(&key, session(), 7, &sample()).expect("seal");
    let (seq, message) = open(&key, session(), &sealed).expect("open");
    assert_eq!(seq, 7);
    assert_eq!(message, sample());
}

#[test]
fn rejects_wrong_key() {
    let sealed = seal(&SharedKey::generate().unwrap(), session(), 1, &sample()).unwrap();
    assert!(open(&SharedKey::generate().unwrap(), session(), &sealed).is_err());
}

#[test]
fn rejects_tampered_ciphertext() {
    let key = SharedKey::generate().unwrap();
    let mut sealed = seal(&key, session(), 1, &sample()).unwrap();
    let last = sealed.len() - 1;
    sealed[last] ^= 0x01;
    assert!(open(&key, session(), &sealed).is_err());
}

#[test]
fn rejects_tampered_sequence_number() {
    let key = SharedKey::generate().unwrap();
    let mut sealed = seal(&key, session(), 1, &sample()).unwrap();
    sealed[0] ^= 0xFF; // seq is authenticated, so this must fail the tag
    assert!(open(&key, session(), &sealed).is_err());
}

#[test]
fn rejects_short_frame() {
    let key = SharedKey::generate().unwrap();
    assert!(open(&key, session(), &[]).is_err());
    assert!(open(&key, session(), &[0u8; 8]).is_err());
    assert!(open(&key, session(), &[0u8; MIN_FRAME - 1]).is_err());
}

#[test]
fn nonces_differ_between_messages() {
    let key = SharedKey::generate().unwrap();
    let a = seal(&key, session(), 1, &sample()).unwrap();
    let b = seal(&key, session(), 1, &sample()).unwrap();
    assert_ne!(
        a[SEQ_LEN..SEQ_LEN + NONCE_LEN],
        b[SEQ_LEN..SEQ_LEN + NONCE_LEN],
        "identical plaintexts must not produce identical nonces"
    );
}

#[test]
fn ciphertext_does_not_contain_the_plaintext() {
    let key = SharedKey::generate().unwrap();
    let plaintext = encode(&sample()).expect("encode");
    let sealed = seal(&key, session(), 1, &sample()).unwrap();
    assert!(
        !sealed
            .windows(plaintext.len())
            .any(|window| window == plaintext.as_slice()),
        "the encoded plaintext must not appear verbatim in the sealed frame"
    );
}

#[test]
fn rejects_a_frame_sealed_under_a_different_session() {
    let key = SharedKey::generate().unwrap();
    let sealed = seal(&key, SessionId([1u8; 32]), 1, &sample()).unwrap();
    assert!(matches!(
        open(&key, SessionId([2u8; 32]), &sealed),
        Err(CryptoError::Authentication)
    ));
}

fn fixed_key() -> SharedKey {
    SharedKey::from_bytes([9u8; 32])
}

#[test]
fn a_frame_is_the_number_the_nonce_and_the_sealed_bytes() {
    let frame = seal_with_nonce(&fixed_key(), session(), None, 0x0102, &[7u8; 24], &sample()).unwrap();
    assert_eq!(frame[..SEQ_LEN], [0, 0, 0, 0, 0, 0, 1, 2]);
    assert_eq!(frame[SEQ_LEN..SEQ_LEN + NONCE_LEN], [7u8; NONCE_LEN]);
    assert_eq!(frame.len(), MIN_FRAME + encode(&sample()).unwrap().len());
    assert_eq!(open(&fixed_key(), session(), &frame), Ok((0x0102, sample())));
}

#[test]
fn sealing_is_a_function_of_what_goes_in() {
    let once = seal_with_nonce(&fixed_key(), session(), None, 3, &[7u8; 24], &sample()).unwrap();
    let again = seal_with_nonce(&fixed_key(), session(), None, 3, &[7u8; 24], &sample()).unwrap();
    let other_nonce = seal_with_nonce(&fixed_key(), session(), None, 3, &[8u8; 24], &sample()).unwrap();
    let other_number = seal_with_nonce(&fixed_key(), session(), None, 4, &[7u8; 24], &sample()).unwrap();
    assert_eq!(once, again);
    assert_ne!(once, other_nonce);
    assert_ne!(once, other_number);
}

#[test]
fn a_frame_opens_only_in_the_direction_it_was_sealed_for() {
    let frame = seal_directed(&fixed_key(), session(), Direction::ClientToServer, 1, &sample()).unwrap();
    assert_eq!(
        open_directed(&fixed_key(), session(), Direction::ClientToServer, &frame),
        Ok((1, sample()))
    );
    assert_eq!(
        open_directed(&fixed_key(), session(), Direction::ServerToClient, &frame),
        Err(CryptoError::Authentication)
    );
    assert_eq!(open(&fixed_key(), session(), &frame), Err(CryptoError::Authentication));
}

#[test]
fn a_short_frame_and_an_unknown_message_are_told_apart() {
    assert_eq!(open(&fixed_key(), session(), &[0u8; MIN_FRAME - 1]), Err(CryptoError::TooShort));
    assert_eq!(open(&fixed_key(), session(), &[0u8; MIN_FRAME]), Err(CryptoError::Authentication));
    assert_eq!(
        seal(&fixed_key(), session(), 1, &Message::Unknown),
        Err(CryptoError::Codec(CodecError::UnknownNotEncodable))
    );
}

#[test]
fn every_crypto_error_has_words() {
    assert_eq!(CryptoError::TooShort.message(), "frame too short");
    assert_eq!(CryptoError::Authentication.message(), "authentication failed");
    assert_eq!(
        CryptoError::Codec(CodecError::Malformed(Reason::UnexpectedEnd)).message(),
        "codec: malformed message: Hit the end of buffer, expected more data"
    );
    assert_eq!(CryptoError::Random.message(), "system RNG unavailable");
}

#[test]
fn generated_keys_differ() {
    let a = SharedKey::generate().unwrap();
    let b = SharedKey::generate().unwrap();
    assert_ne!(a.as_bytes(), b.as_bytes());
    assert_eq!(a.as_bytes(), a.duplicate().as_bytes());
}

#[test]
fn a_key_is_made_of_exactly_the_bytes_that_were_drawn() {
    let mut bytes = [7u8; 32];
    bytes[31] = 9;
    let key = SharedKey::drawn(Ok(bytes)).unwrap();
    assert_eq!(key.as_bytes(), &bytes);
    assert!(matches!(SharedKey::drawn(Err(getrandom::Error::UNSUPPORTED)), Err(CryptoError::Random)));
}

#[test]
fn the_placeholder_session_is_all_zeroes() {
    assert_eq!(SessionId::zero(), SessionId([0u8; 32]));
    assert_eq!(Direction::ClientToServer.opposite(), Direction::ServerToClient);
    assert_eq!(Direction::ServerToClient.opposite(), Direction::ClientToServer);
}
