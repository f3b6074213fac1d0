//! Sealing messages into frames that only a holder of the shared key can
//! make or read, and opening them again.

use chacha20poly1305::aead::{Aead, KeyInit, Payload};
use chacha20poly1305::{XChaCha20Poly1305, XNonce};
use vstd::bytes::*;
use vstd::prelude::*;

use crate::message::{decode, encode, CodecError, Message, MessageModel};

verus! {

/// Bytes of a frame that hold its sequence number.
pub const SEQ_LEN: usize = 8;
/// Bytes of a frame that hold its nonce.
pub const NONCE_LEN: usize = 24;
/// Bytes by which a ciphertext is longer than its plaintext.
pub const TAG_LEN: usize = 16;
/// Length of a frame with nothing in it; no frame is shorter.
pub const MIN_FRAME: usize = 48;
/// The longest plaintext the cipher has key stream for.
pub const MAX_PLAINTEXT: u64 = 0x3F_FFFF_FF80;

/// The error of the cipher, which says nothing but that it failed.
#[verifier::external_type_specification]
#[verifier::external_body]
pub struct ExAeadError(chacha20poly1305::Error);

/// The error of the system's source of random bytes.
#[verifier::external_type_specification]
#[verifier::external_body]
pub struct ExRandomError(getrandom::Error);

/// The ciphertext that XChaCha20-Poly1305 makes of a message, tag included.
pub uninterp spec fn xchacha_encrypted(key: Seq<u8>, nonce: Seq<u8>, aad: Seq<u8>, msg: Seq<u8>) -> Seq<u8>;

/// The message that XChaCha20-Poly1305 finds in a ciphertext, if its tag is
/// right.
pub uninterp spec fn xchacha_decrypted(key: Seq<u8>, nonce: Seq<u8>, aad: Seq<u8>, ciphertext: Seq<u8>) -> Option<Seq<u8>>;

/// `Aead::encrypt` of `XChaCha20Poly1305`.
///
/// Claimed: it succeeds within the length of its key stream, the result is
/// a function of the four arguments and longer than the message by the
/// tag, and decrypting it with the same key, nonce and associated data
/// gives the message back.
#[verifier::external_body]
fn aead_encrypt(key: &[u8; 32], nonce: &[u8; 24], aad: &[u8], msg: &[u8]) -> (r: Result<Vec<u8>, chacha20poly1305::Error>)
    requires
        msg@.len() <= MAX_PLAINTEXT,
    ensures
        r is Ok,
        r->Ok_0@ == xchacha_encrypted(key@, nonce@, aad@, msg@),
        r->Ok_0@.len() == msg@.len() + TAG_LEN,
        xchacha_decrypted(key@, nonce@, aad@, r->Ok_0@) == Some(msg@),
{
    XChaCha20Poly1305::new(key.into()).encrypt(&XNonce::from(*nonce), Payload { msg, aad })
}

/// `Aead::decrypt` of `XChaCha20Poly1305`.
///
/// Claimed: whether it succeeds and what it gives is a function of the four
/// arguments, and it accepts nothing but the ciphertext that encrypting its
/// result makes.
#[verifier::external_body]
fn aead_decrypt(key: &[u8; 32], nonce: &[u8; 24], aad: &[u8], ciphertext: &[u8]) -> (r: Result<Vec<u8>, chacha20poly1305::Error>)
    requires
        ciphertext@.len() <= MAX_PLAINTEXT + TAG_LEN,
    ensures
        r matches Ok(msg) ==> xchacha_decrypted(key@, nonce@, aad@, ciphertext@) == Some(msg@),
        r matches Ok(msg) ==> xchacha_encrypted(key@, nonce@, aad@, msg@) == ciphertext@,
        r is Err ==> xchacha_decrypted(key@, nonce@, aad@, ciphertext@) is None,
{
    XChaCha20Poly1305::new(key.into()).decrypt(
        &XNonce::from(*nonce),
        Payload { msg: ciphertext, aad },
    )
}

/// `getrandom::fill` on an array. Nothing is claimed of the bytes, nor of
/// when it succeeds.
#[verifier::external_body]
pub(crate) fn random_bytes<const N: usize>() -> (r: Result<[u8; N], getrandom::Error>) {
    let mut bytes = [0u8; N];
    getrandom::fill(&mut bytes)?;
    Ok(bytes)
}

/// Identifies one session between two peers, mixed into every frame's
/// authenticated data so a frame sealed under one session cannot
/// authenticate under another.
///
/// The handshake derives a fresh one from both peers' nonces before any
/// input message is processed. [`SessionId::zero`] is used only while the
/// handshake itself runs, before there is anything to derive a session
/// from.
#[derive(Debug, Clone, Copy, PartialEq, Eq)]
pub struct SessionId(pub [u8; 32]);

impl View for SessionId {
    type V = Seq<u8>;

    open spec fn view(&self) -> Seq<u8> {
        self.0@
    }
}

impl SessionId {
    /// The placeholder used only while the handshake is in flight.
    pub fn zero() -> (r: SessionId)
        ensures
            r@ == Seq::new(32, |i: int| 0u8),
    {
        let r = SessionId([0u8; 32]);
        assert(r@ =~= Seq::new(32, |i: int| 0u8));
        r
    }
}

/// Which way a frame travels. Part of what a frame is authenticated with,
/// so that a frame sent by one peer cannot be reflected back at it.
#[derive(Debug, Clone, Copy, PartialEq, Eq, Structural)]
pub enum Direction {
    ClientToServer,
    ServerToClient,
}

impl Direction {
    /// The way frames travel back.
    pub open spec fn spec_opposite(self) -> Direction {
        match self {
            Direction::ClientToServer => Direction::ServerToClient,
            Direction::ServerToClient => Direction::ClientToServer,
        }
    }

    /// The way frames travel back.
    pub fn opposite(self) -> (r: Direction)
        ensures
            r == self.spec_opposite(),
    {
        match self {
            Direction::ClientToServer => Direction::ServerToClient,
            Direction::ServerToClient => Direction::ClientToServer,
        }
    }

    /// The byte that stands for this direction in authenticated data.
    pub open spec fn spec_byte(self) -> u8 {
        match self {
            Direction::ClientToServer => 0,
            Direction::ServerToClient => 1,
        }
    }

    fn byte(self) -> (r: u8)
        ensures
            r == self.spec_byte(),
    {
        match self {
            Direction::ClientToServer => 0,
            Direction::ServerToClient => 1,
        }
    }
}

/// The pre-shared 32 byte secret. Both machines hold the same value. It
/// has no textual form, so key material cannot end up in a log.
#[derive(Clone)]
pub struct SharedKey([u8; 32]);

impl View for SharedKey {
    type V = Seq<u8>;

    closed spec fn view(&self) -> Seq<u8> {
        self.0@
    }
}

impl SharedKey {
    /// A fresh key from the system's source of random bytes, which is the
    /// only thing that can fail.
    pub fn generate() -> (r: Result<SharedKey, CryptoError>)
        ensures
            r matches Ok(key) ==> key@.len() == 32,
            r matches Err(e) ==> e is Random,
    {
        Self::drawn(random_bytes::<32>())
    }

    /// The key made of exactly the bytes that the system's source of random
    /// bytes gave, or why there is none.
    pub fn drawn(bytes: Result<[u8; 32], getrandom::Error>) -> (r: Result<SharedKey, CryptoError>)
        ensures
            match bytes {
                Ok(b) => r matches Ok(key) && key@ == b@,
                Err(_) => r matches Err(e) && e is Random,
            },
    {
        match bytes {
            Ok(b) => Ok(SharedKey(b)),
            Err(_) => Err(CryptoError::Random),
        }
    }

    pub fn from_bytes(bytes: [u8; 32]) -> (r: SharedKey)
        ensures
            r@ == bytes@,
    {
        SharedKey(bytes)
    }

    pub fn as_bytes(&self) -> (r: &[u8; 32])
        ensures
            r@ == self@,
    {
        &self.0
    }

    /// Another holder of the same secret.
    pub fn duplicate(&self) -> (r: SharedKey)
        ensures
            r@ == self@,
    {
        SharedKey(self.0)
    }
}

#[derive(Debug, Clone, Copy, PartialEq, Eq)]
pub enum CryptoError {
    /// The frame is too short to hold anything.
    TooShort,
    /// The frame was not made with this key, session, direction and
    /// sequence number.
    Authentication,
    /// What was sealed is no message.
    Codec(CodecError),
    /// The system has no random bytes.
    Random,
}

impl CryptoError {
    /// What went wrong, for a person to read.
    pub fn message(&self) -> (r: String)
        ensures
            self is TooShort ==> r@ == "frame too short"@,
            self is Authentication ==> r@ == "authentication failed"@,
            *self matches CryptoError::Codec(CodecError::Malformed(reason)) ==> r@ == "codec: "@ + ("malformed message: "@
                + reason.spec_text()),
            *self == CryptoError::Codec(CodecError::UnknownNotEncodable) ==> r@ == "codec: "@
                + "a message of unknown type cannot be encoded"@,
            self is Random ==> r@ == "system RNG unavailable"@,
    {
        match self {
            CryptoError::TooShort => "frame too short".to_owned(),
            CryptoError::Authentication => "authentication failed".to_owned(),
            CryptoError::Codec(inner) => {
                let tail: String = inner.message();
                "codec: ".to_owned().concat(tail.as_str())
            },
            CryptoError::Random => "system RNG unavailable".to_owned(),
        }
    }
}

/// A sequence number as it stands in a frame, highest byte first.
pub open spec fn seq_bytes(seq: u64) -> Seq<u8> {
    spec_u64_to_le_bytes(seq).reverse()
}

/// The sequence number that eight bytes of a frame hold.
pub open spec fn seq_of(bytes: Seq<u8>) -> u64 {
    spec_u64_from_le_bytes(bytes.reverse())
}

/// What a frame is bound to besides its number: the session and, once a
/// connection runs, the direction.
pub open spec fn binding(session: Seq<u8>, direction: Option<Direction>) -> Seq<u8> {
    match direction {
        None => session,
        Some(d) => session.push(d.spec_byte()),
    }
}

/// What a frame is authenticated with, besides its content. Of this only
/// the sequence number is sent; both peers know the rest.
pub open spec fn associated_data(session: Seq<u8>, direction: Option<Direction>, seq: u64) -> Seq<u8> {
    binding(session, direction) + seq_bytes(seq)
}

/// The frame that carries `plaintext`: the sequence number, the nonce, and
/// the ciphertext.
pub open spec fn sealed_frame(
    key: Seq<u8>,
    session: Seq<u8>,
    direction: Option<Direction>,
    seq: u64,
    nonce: Seq<u8>,
    plaintext: Seq<u8>,
) -> Seq<u8> {
    seq_bytes(seq) + nonce + xchacha_encrypted(
        key,
        nonce,
        associated_data(session, direction, seq),
        plaintext,
    )
}

/// What opening a frame gives.
pub open spec fn opened(
    key: Seq<u8>,
    session: Seq<u8>,
    direction: Option<Direction>,
    frame: Seq<u8>,
) -> Result<(u64, MessageModel), CryptoError> {
    if frame.len() < MIN_FRAME {
        Err(CryptoError::TooShort)
    } else if frame.len() - SEQ_LEN - NONCE_LEN > MAX_PLAINTEXT + TAG_LEN {
        Err(CryptoError::Authentication)
    } else {
        let seq = seq_of(frame.take(8));
        match xchacha_decrypted(
            key,
            frame.subrange(8, 32),
            associated_data(session, direction, seq),
            frame.skip(32),
        ) {
            None => Err(CryptoError::Authentication),
            Some(plaintext) => match crate::message::decoding(plaintext) {
                None => Err(CryptoError::Codec(CodecError::Malformed(crate::message::refusal(plaintext)))),
                Some(m) => Ok((seq, m)),
            },
        }
    }
}

/// Sequence numbers survive the way through their bytes.
proof fn lemma_seq_bytes(seq: u64)
    ensures
        seq_bytes(seq).len() == 8,
        seq_of(seq_bytes(seq)) == seq,
{
    lemma_auto_spec_u64_to_from_le_bytes();
    assert(seq_bytes(seq).reverse() =~= spec_u64_to_le_bytes(seq));
}

/// Two frames are authenticated with the same data only if their session,
/// their direction and their sequence number are the same. So a frame
/// recorded on one connection is checked against other data on a later
/// one, and so is a frame sent back the way it came.
pub proof fn law_associated_data_tells_frames_apart(
    session1: Seq<u8>,
    direction1: Option<Direction>,
    seq1: u64,
    session2: Seq<u8>,
    direction2: Option<Direction>,
    seq2: u64,
)
    requires
        session1.len() == 32,
        session2.len() == 32,
        associated_data(session1, direction1, seq1) == associated_data(session2, direction2, seq2),
    ensures
        session1 == session2,
        direction1 == direction2,
        seq1 == seq2,
{
    lemma_seq_bytes(seq1);
    lemma_seq_bytes(seq2);
    let b1 = binding(session1, direction1);
    let b2 = binding(session2, direction2);
    let a1 = associated_data(session1, direction1, seq1);
    let a2 = associated_data(session2, direction2, seq2);
    assert(a1.len() == b1.len() + 8);
    assert(a2.len() == b2.len() + 8);
    assert(b1 =~= a1.take(b1.len() as int));
    assert(b2 =~= a2.take(b2.len() as int));
    assert(seq_bytes(seq1) =~= a1.skip(b1.len() as int));
    assert(seq_bytes(seq2) =~= a2.skip(b2.len() as int));
    assert(session1 =~= b1.take(32));
    assert(session2 =~= b2.take(32));
    if b1.len() == 33 {
        assert(b1[32] == b2[32]);
    }
}

/// The bytes of a sequence number.
fn number_bytes(seq: u64) -> (r: Vec<u8>)
    ensures
        r@ == seq_bytes(seq),
        r@.len() == 8,
{
    proof {
        lemma_seq_bytes(seq);
    }
    let le: Vec<u8> = u64_to_le_bytes(seq);
    let r: Vec<u8> = vec![le[7], le[6], le[5], le[4], le[3], le[2], le[1], le[0]];
    assert(r@ =~= le@.reverse());
    r
}

/// The sequence number that the first eight bytes of a frame hold.
fn number_of(frame: &[u8]) -> (r: u64)
    requires
        frame@.len() >= 8,
    ensures
        r == seq_of(frame@.take(8)),
{
    let le: Vec<u8> = vec![frame[7], frame[6], frame[5], frame[4], frame[3], frame[2], frame[1], frame[0]];
    assert(le@ =~= frame@.take(8).reverse());
    u64_from_le_bytes(le.as_slice())
}

/// The nonce that a frame holds.
fn nonce_of(frame: &[u8]) -> (r: [u8; 24])
    requires
        frame@.len() >= 32,
    ensures
        r@ == frame@.subrange(8, 32),
{
    let mut r: [u8; 24] = [0u8; 24];
    let mut i: usize = 0;
    while i < 24
        invariant
            i <= 24,
            frame@.len() >= 32,
            forall|j: int| 0 <= j < i ==> r@[j] == frame@[8 + j],
        decreases 24 - i,
    {
        r[i] = frame[8 + i];
        i = i + 1;
    }
    assert(r@ =~= frame@.subrange(8, 32));
    r
}

/// What a frame is authenticated with.
fn frame_data(session: SessionId, direction: Option<Direction>, number: &Vec<u8>) -> (r: Vec<u8>)
    ensures
        r@ == binding(session@, direction) + number@,
{
    let mut data: Vec<u8> = Vec::new();
    let session_bytes: &[u8] = session.0.as_slice();
    data.extend_from_slice(session_bytes);
    assert(data@ =~= session@);
    if let Some(d) = direction {
        data.push(d.byte());
    }
    assert(data@ == binding(session@, direction));
    data.extend_from_slice(number.as_slice());
    assert(data@ =~= binding(session@, direction) + number@);
    data
}

/// Seals a message with a nonce that is already chosen. What is sealed
/// opens to the same message under the same key, session and direction.
pub fn seal_with_nonce(
    key: &SharedKey,
    session: SessionId,
    direction: Option<Direction>,
    seq: u64,
    nonce: &[u8; 24],
    message: &Message,
) -> (r: Result<Vec<u8>, CryptoError>)
    ensures
        match r {
            Ok(frame) => {
                &&& crate::message::encoding(message@) matches Some(plaintext)
                &&& plaintext.len() <= MAX_PLAINTEXT
                &&& frame@ == sealed_frame(key@, session@, direction, seq, nonce@, plaintext)
                &&& frame@.len() == MIN_FRAME + plaintext.len()
                &&& opened(key@, session@, direction, frame@) == Ok::<(u64, MessageModel), CryptoError>((seq, message@))
            },
            Err(CryptoError::Codec(CodecError::UnknownNotEncodable)) => crate::message::encoding(message@) is None,
            Err(CryptoError::Authentication) => crate::message::encoding(message@) matches Some(plaintext)
                && plaintext.len() > MAX_PLAINTEXT,
            Err(_) => false,
        },
{
    let plaintext: Vec<u8> = match encode(message) {
        Ok(plaintext) => plaintext,
        Err(e) => return Err(CryptoError::Codec(e)),
    };
    if plaintext.len() as u64 > MAX_PLAINTEXT {
        return Err(CryptoError::Authentication);
    }
    let number: Vec<u8> = number_bytes(seq);
    let data: Vec<u8> = frame_data(session, direction, &number);
    match aead_encrypt(key.as_bytes(), nonce, data.as_slice(), plaintext.as_slice()) {
        Ok(ciphertext) => {
            let mut frame: Vec<u8> = number;
            let nonce_slice: &[u8] = nonce.as_slice();
            frame.extend_from_slice(nonce_slice);
            frame.extend_from_slice(ciphertext.as_slice());
            proof {
                lemma_seq_bytes(seq);
                assert(frame@ =~= seq_bytes(seq) + nonce@ + ciphertext@);
                assert(frame@.take(8) =~= seq_bytes(seq));
                assert(frame@.subrange(8, 32) =~= nonce@);
                assert(frame@.skip(32) =~= ciphertext@);
                crate::message::law_decoding_inverts_encoding(message@, Seq::empty());
                assert(plaintext@ + Seq::<u8>::empty() =~= plaintext@);
            }
            Ok(frame)
        },
        Err(_) => Err(CryptoError::Authentication),
    }
}

/// Seals a message with a fresh random nonce, bound to a session and, once
/// a connection runs, to a direction.
fn seal_bound(
    key: &SharedKey,
    session: SessionId,
    direction: Option<Direction>,
    seq: u64,
    message: &Message,
) -> (r: Result<Vec<u8>, CryptoError>)
    ensures
        sealing(key@, session@, direction, seq, message@, r),
{
    if let Err(e) = encode(message) {
        return Err(CryptoError::Codec(e));
    }
    match random_bytes::<24>() {
        Ok(nonce) => {
            let r = seal_with_nonce(key, session, direction, seq, &nonce, message);
            assert(nonce@.len() == 24);
            r
        },
        Err(_) => Err(CryptoError::Random),
    }
}

/// What sealing with a nonce of the system's choosing may give: a frame
/// that opens to the message, made with some nonce; or, only where the
/// message can be encoded, the failure of the source of random bytes; or
/// the reason why there is no such frame.
pub open spec fn sealing(
    key: Seq<u8>,
    session: Seq<u8>,
    direction: Option<Direction>,
    seq: u64,
    message: MessageModel,
    r: Result<Vec<u8>, CryptoError>,
) -> bool {
    match r {
        Ok(frame) => {
            &&& crate::message::encoding(message) matches Some(plaintext)
            &&& plaintext.len() <= MAX_PLAINTEXT
            &&& exists|nonce: Seq<u8>|
                nonce.len() == NONCE_LEN && frame@ == #[trigger] sealed_frame(
                    key,
                    session,
                    direction,
                    seq,
                    nonce,
                    plaintext,
                )
            &&& frame@.len() == MIN_FRAME + plaintext.len()
            &&& opened(key, session, direction, frame@) == Ok::<(u64, MessageModel), CryptoError>((seq, message))
        },
        Err(CryptoError::Codec(CodecError::UnknownNotEncodable)) => crate::message::encoding(message) is None,
        Err(CryptoError::Authentication) => crate::message::encoding(message) matches Some(plaintext)
            && plaintext.len() > MAX_PLAINTEXT,
        Err(CryptoError::Random) => crate::message::encoding(message) is Some,
        Err(_) => false,
    }
}

/// Seals a message under a session.
pub fn seal(key: &SharedKey, session: SessionId, seq: u64, message: &Message) -> (r: Result<Vec<u8>, CryptoError>)
    ensures
        sealing(key@, session@, None, seq, message@, r),
{
    seal_bound(key, session, None, seq, message)
}

/// Seals a message under a session, for one way only.
pub fn seal_directed(
    key: &SharedKey,
    session: SessionId,
    direction: Direction,
    seq: u64,
    message: &Message,
) -> (r: Result<Vec<u8>, CryptoError>)
    ensures
        sealing(key@, session@, Some(direction), seq, message@, r),
{
    seal_bound(key, session, Some(direction), seq, message)
}

/// Opens a frame that is bound to a session and perhaps a direction.
fn open_bound(
    key: &SharedKey,
    session: SessionId,
    direction: Option<Direction>,
    frame: &[u8],
) -> (r: Result<(u64, Message), CryptoError>)
    ensures
        opening(key@, session@, direction, frame@, r),
{
    if frame.len() < MIN_FRAME {
        return Err(CryptoError::TooShort);
    }
    if (frame.len() - SEQ_LEN - NONCE_LEN) as u64 > MAX_PLAINTEXT + 16 {
        return Err(CryptoError::Authentication);
    }
    let seq: u64 = number_of(frame);
    let nonce: [u8; 24] = nonce_of(frame);
    let number: Vec<u8> = number_bytes(seq);
    let data: Vec<u8> = frame_data(session, direction, &number);
    let (head, ciphertext) = frame.split_at(32);
    assert(ciphertext@ =~= frame@.skip(32));
    match aead_decrypt(key.as_bytes(), &nonce, data.as_slice(), ciphertext) {
        Ok(plaintext) => {
            proof {
                lemma_auto_spec_u64_to_from_le_bytes();
                assert(seq_bytes(seq) =~= frame@.take(8)) by {
                    assert(frame@.take(8).reverse().reverse() =~= frame@.take(8));
                }
                assert(frame@ =~= seq_bytes(seq) + nonce@ + ciphertext@);
            }
            match decode(plaintext.as_slice()) {
                Ok(message) => {
                    assert(frame@ == sealed_frame(
                        key@,
                        session@,
                        direction,
                        seq,
                        nonce@,
                        plaintext@,
                    ));
                    assert(made_of(key@, session@, direction, seq, frame@, plaintext@));
                    Ok((seq, message))
                },
                Err(e) => Err(CryptoError::Codec(e)),
            }
        },
        Err(_) => Err(CryptoError::Authentication),
    }
}

/// Whether a frame is what sealing a plaintext makes, with some nonce.
pub open spec fn made_of(
    key: Seq<u8>,
    session: Seq<u8>,
    direction: Option<Direction>,
    seq: u64,
    frame: Seq<u8>,
    plaintext: Seq<u8>,
) -> bool {
    exists|nonce: Seq<u8>|
        nonce.len() == NONCE_LEN && frame == #[trigger] sealed_frame(
            key,
            session,
            direction,
            seq,
            nonce,
            plaintext,
        )
}

/// What opening a frame may give. A message comes out only of a frame that
/// sealing makes with this key, session, direction and sequence number.
pub open spec fn opening(
    key: Seq<u8>,
    session: Seq<u8>,
    direction: Option<Direction>,
    frame: Seq<u8>,
    r: Result<(u64, Message), CryptoError>,
) -> bool {
    match r {
        Ok((seq, message)) => {
            &&& opened(key, session, direction, frame) == Ok::<(u64, MessageModel), CryptoError>((seq, message@))
            &&& exists|plaintext: Seq<u8>|
                crate::message::decoding(plaintext) == Some(message@) && #[trigger] made_of(
                    key,
                    session,
                    direction,
                    seq,
                    frame,
                    plaintext,
                )
        },
        Err(e) => opened(key, session, direction, frame) == Err::<(u64, MessageModel), CryptoError>(e),
    }
}

/// Opens a frame sealed under a session.
pub fn open(key: &SharedKey, session: SessionId, frame: &[u8]) -> (r: Result<(u64, Message), CryptoError>)
    ensures
        opening(key@, session@, None, frame@, r),
{
    open_bound(key, session, None, frame)
}

/// Opens a frame sealed under a session, for one way only.
pub fn open_directed(
    key: &SharedKey,
    session: SessionId,
    direction: Direction,
    frame: &[u8],
) -> (r: Result<(u64, Message), CryptoError>)
    ensures
        opening(key@, session@, Some(direction), frame@, r),
{
    open_bound(key, session, Some(direction), frame)
}

/// A frame that comes back to the peer that sealed it is refused, wherever
/// the cipher refuses its bytes under the data of the other direction, which
/// are never the data it was sealed with.
pub proof fn law_a_reflected_frame_is_refused_with_the_cipher(
    key: Seq<u8>,
    session: Seq<u8>,
    direction: Direction,
    seq: u64,
    nonce: Seq<u8>,
    plaintext: Seq<u8>,
)
    requires
        session.len() == 32,
        nonce.len() == NONCE_LEN,
        sealed_frame(key, session, Some(direction), seq, nonce, plaintext).len() >= MIN_FRAME,
        xchacha_decrypted(
            key,
            nonce,
            associated_data(session, Some(direction.spec_opposite()), seq),
            xchacha_encrypted(key, nonce, associated_data(session, Some(direction), seq), plaintext),
        ) is None,
    ensures
        associated_data(session, Some(direction), seq) != associated_data(
            session,
            Some(direction.spec_opposite()),
            seq,
        ),
        opened(
            key,
            session,
            Some(direction.spec_opposite()),
            sealed_frame(key, session, Some(direction), seq, nonce, plaintext),
        ) == Err::<(u64, MessageModel), CryptoError>(CryptoError::Authentication),
{
    let back = Some(direction.spec_opposite());
    if associated_data(session, Some(direction), seq) == associated_data(session, back, seq) {
        law_associated_data_tells_frames_apart(session, Some(direction), seq, session, back, seq);
    }
    let ciphertext = xchacha_encrypted(key, nonce, associated_data(session, Some(direction), seq), plaintext);
    let frame = sealed_frame(key, session, Some(direction), seq, nonce, plaintext);
    lemma_seq_bytes(seq);
    assert(frame.take(8) =~= seq_bytes(seq));
    assert(frame.subrange(8, 32) =~= nonce);
    assert(frame.skip(32) =~= ciphertext);
}

/// A frame is its number, the highest byte first, then the nonce, then the
/// ciphertext. What is read of it is what was written.
pub proof fn law_a_frame_is_number_nonce_and_ciphertext(
    key: Seq<u8>,
    session: Seq<u8>,
    direction: Option<Direction>,
    seq: u64,
    nonce: Seq<u8>,
    plaintext: Seq<u8>,
)
    requires
        nonce.len() == 24,
    ensures
        ({
            let frame = sealed_frame(key, session, direction, seq, nonce, plaintext);
            &&& forall|i: int| 0 <= i < 8 ==> #[trigger] frame[i] == spec_u64_to_le_bytes(seq)[7 - i]
            &&& seq_of(frame.take(8)) == seq
            &&& frame.subrange(8, 32) == nonce
            &&& frame.skip(32) == xchacha_encrypted(
                key,
                nonce,
                associated_data(session, direction, seq),
                plaintext,
            )
        }),
{
    lemma_auto_spec_u64_to_from_le_bytes();
    lemma_seq_bytes(seq);
    let frame = sealed_frame(key, session, direction, seq, nonce, plaintext);
    assert(frame.take(8) =~= seq_bytes(seq));
    assert(frame.subrange(8, 32) =~= nonce);
    assert(frame.skip(32) =~= xchacha_encrypted(key, nonce, associated_data(session, direction, seq), plaintext));
    assert forall|i: int| 0 <= i < 8 implies #[trigger] frame[i] == spec_u64_to_le_bytes(seq)[7 - i] by {
        assert(frame[i] == seq_bytes(seq)[i]);
    }
}

/// A frame is authenticated with its session, then a byte for its direction
/// where it has one, which is 0 on the way to the server and 1 on the way
/// back, and then its number, the highest byte first.
pub proof fn law_a_frame_is_bound_to_session_direction_and_number(session: Seq<u8>, direction: Option<Direction>, seq: u64)
    requires
        session.len() == 32,
    ensures
        ({
            let data = associated_data(session, direction, seq);
            let n = if direction is Some {
                33int
            } else {
                32
            };
            &&& data.len() == n + 8
            &&& forall|i: int| 0 <= i < 32 ==> #[trigger] data[i] == session[i]
            &&& direction == Some(Direction::ClientToServer) ==> data[32] == 0
            &&& direction == Some(Direction::ServerToClient) ==> data[32] == 1
            &&& forall|i: int| 0 <= i < 8 ==> #[trigger] data[n + i] == spec_u64_to_le_bytes(seq)[7 - i]
        }),
{
    lemma_auto_spec_u64_to_from_le_bytes();
    lemma_seq_bytes(seq);
    let data = associated_data(session, direction, seq);
    let n = if direction is Some {
        33int
    } else {
        32
    };
    assert forall|i: int| 0 <= i < 8 implies #[trigger] data[n + i] == spec_u64_to_le_bytes(seq)[7 - i] by {
        assert(data[n + i] == seq_bytes(seq)[i]);
    }
}

/// A frame that is too short to hold anything is refused as such, and no
/// other frame is. A longer one is refused as not authentic exactly if the
/// cipher refuses it or has no key stream for it.
pub proof fn law_only_a_frame_under_48_bytes_is_too_short(key: Seq<u8>, session: Seq<u8>, direction: Option<Direction>, frame: Seq<u8>)
    ensures
        opened(key, session, direction, frame) == Err::<(u64, MessageModel), CryptoError>(CryptoError::TooShort)
            <==> frame.len() < 48,
        opened(key, session, direction, frame) == Err::<(u64, MessageModel), CryptoError>(CryptoError::Authentication)
            <==> frame.len() >= 48 && (frame.len() > 32 + 0x3F_FFFF_FF80 + 16 || xchacha_decrypted(
            key,
            frame.subrange(8, 32),
            associated_data(session, direction, seq_of(frame.take(8))),
            frame.skip(32),
        ) is None),
        opened(key, session, direction, frame) matches Ok((seq, m)) ==> seq == seq_of(frame.take(8))
            && xchacha_decrypted(
            key,
            frame.subrange(8, 32),
            associated_data(session, direction, seq),
            frame.skip(32),
        ) is Some,
{
}

/// There are two ways for a frame to travel, each back along the other.
pub proof fn law_there_and_back_are_two_ways(direction: Direction)
    ensures
        direction.spec_opposite() != direction,
        direction.spec_opposite().spec_opposite() == direction,
{
}

} // verus!
