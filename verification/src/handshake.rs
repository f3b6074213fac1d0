//! The handshake that opens every connection, and the session it derives.
//!
//! Each connection derives a fresh session from both peers' random nonces,
//! so a recording made under one session cannot be replayed into another.
//! The two handshake messages themselves travel under the placeholder
//! session; their freshness comes from the nonces they carry. Everything
//! after them is bound to the derived session.

use sha2::{Digest, Sha256};
use vstd::prelude::*;

use crate::crypto::{random_bytes, Direction, SessionId, SharedKey};
use crate::message::{Message, MessageModel, PROTOCOL_VERSION};
use crate::text;
use crate::transport;
use crate::transport::{split, TransportError, TransportReader, TransportWriter};

verus! {

/// How long either side waits for the whole exchange before giving up, in
/// seconds. Without it a peer that connects and then sends nothing would
/// park whichever side is waiting forever.
pub const HANDSHAKE_TIMEOUT_SECS: u64 = 5;

/// The SHA-256 digest of some bytes.
pub uninterp spec fn sha256_of(bytes: Seq<u8>) -> Seq<u8>;

/// `Digest::digest` of `Sha256`. Claimed: the result is a function of the
/// bytes.
#[verifier::external_body]
fn sha256(bytes: &[u8]) -> (r: [u8; 32])
    ensures
        r@ == sha256_of(bytes@),
{
    Sha256::digest(bytes).into()
}

/// What a session is derived from: a label, then both nonces, the client's
/// first.
pub open spec fn session_input(client_nonce: Seq<u8>, server_nonce: Seq<u8>) -> Seq<u8> {
    session_label() + client_nonce + server_nonce
}

/// The bytes of "hop session v1".
pub open spec fn session_label() -> Seq<u8> {
    seq![
        0x68u8,
        0x6F,
        0x70,
        0x20,
        0x73,
        0x65,
        0x73,
        0x73,
        0x69,
        0x6F,
        0x6E,
        0x20,
        0x76,
        0x31,
    ]
}

/// The session of two nonces.
pub open spec fn derived_session(client_nonce: Seq<u8>, server_nonce: Seq<u8>) -> Seq<u8> {
    sha256_of(session_input(client_nonce, server_nonce))
}

/// Derive the session identifier both peers will authenticate every frame
/// against.
///
/// Both nonces contribute, so neither peer can choose the session alone.
/// The order is fixed by role rather than sorted, so a reflected handshake
/// produces a different session than the genuine one. This is an
/// identifier, not an encryption key: there is no forward secrecy.
pub fn derive_session(client_nonce: &[u8; 32], server_nonce: &[u8; 32]) -> (r: SessionId)
    ensures
        r@ == derived_session(client_nonce@, server_nonce@),
{
    let mut input: Vec<u8> = vec![
        0x68u8,
        0x6F,
        0x70,
        0x20,
        0x73,
        0x65,
        0x73,
        0x73,
        0x69,
        0x6F,
        0x6E,
        0x20,
        0x76,
        0x31,
    ];
    assert(input@ =~= session_label());
    let client: &[u8] = client_nonce.as_slice();
    input.extend_from_slice(client);
    let server: &[u8] = server_nonce.as_slice();
    input.extend_from_slice(server);
    assert(input@ =~= session_input(client_nonce@, server_nonce@));
    SessionId(sha256(input.as_slice()))
}

/// Two handshakes hash the same bytes only if both nonces are the same, in
/// the same roles.
pub proof fn law_session_input_tells_handshakes_apart(
    client1: Seq<u8>,
    server1: Seq<u8>,
    client2: Seq<u8>,
    server2: Seq<u8>,
)
    requires
        client1.len() == 32,
        server1.len() == 32,
        client2.len() == 32,
        server2.len() == 32,
        session_input(client1, server1) == session_input(client2, server2),
    ensures
        client1 == client2,
        server1 == server2,
{
    let a = session_input(client1, server1);
    let b = session_input(client2, server2);
    assert(client1 =~= a.subrange(14, 46));
    assert(client2 =~= b.subrange(14, 46));
    assert(server1 =~= a.subrange(46, 78));
    assert(server2 =~= b.subrange(46, 78));
}

#[derive(Debug, Clone, PartialEq, Eq)]
pub enum HandshakeError {
    Transport(TransportError),
    /// The peer speaks another version of the protocol.
    VersionMismatch { ours: u16, theirs: u16 },
    /// Something else arrived where a handshake was expected.
    ///
    /// Carries only the message's kind, never the message itself: its
    /// first frame could be a keystroke, and this error goes straight into
    /// a log.
    Unexpected(MessageKind),
    /// The system has no random bytes.
    Random,
    /// The peer connected but never completed the handshake in time.
    Timeout,
}

/// A message's kind, without anything it carries.
#[derive(Debug, Clone, Copy, PartialEq, Eq, Structural)]
pub enum MessageKind {
    Handshake,
    MouseMove,
    MouseButton,
    Scroll,
    Key,
    ReleaseAllKeys,
    Heartbeat,
    Release,
    Enter,
    ClipboardText,
    FileOffer,
    FileChunk,
    FileEnd,
    FileAbort,
    Unknown,
}

impl MessageKind {
    /// The kind's name.
    pub open spec fn spec_name(self) -> Seq<char> {
        match self {
            MessageKind::Handshake => "Handshake"@,
            MessageKind::MouseMove => "MouseMove"@,
            MessageKind::MouseButton => "MouseButton"@,
            MessageKind::Scroll => "Scroll"@,
            MessageKind::Key => "Key"@,
            MessageKind::ReleaseAllKeys => "ReleaseAllKeys"@,
            MessageKind::Heartbeat => "Heartbeat"@,
            MessageKind::Release => "Release"@,
            MessageKind::Enter => "Enter"@,
            MessageKind::ClipboardText => "ClipboardText"@,
            MessageKind::FileOffer => "FileOffer"@,
            MessageKind::FileChunk => "FileChunk"@,
            MessageKind::FileEnd => "FileEnd"@,
            MessageKind::FileAbort => "FileAbort"@,
            MessageKind::Unknown => "Unknown"@,
        }
    }

    /// The kind's name.
    pub fn name(self) -> (r: &'static str)
        ensures
            r@ == self.spec_name(),
    {
        match self {
            MessageKind::Handshake => "Handshake",
            MessageKind::MouseMove => "MouseMove",
            MessageKind::MouseButton => "MouseButton",
            MessageKind::Scroll => "Scroll",
            MessageKind::Key => "Key",
            MessageKind::ReleaseAllKeys => "ReleaseAllKeys",
            MessageKind::Heartbeat => "Heartbeat",
            MessageKind::Release => "Release",
            MessageKind::Enter => "Enter",
            MessageKind::ClipboardText => "ClipboardText",
            MessageKind::FileOffer => "FileOffer",
            MessageKind::FileChunk => "FileChunk",
            MessageKind::FileEnd => "FileEnd",
            MessageKind::FileAbort => "FileAbort",
            MessageKind::Unknown => "Unknown",
        }
    }
}

/// The kind of a message.
pub open spec fn kind_of(m: MessageModel) -> MessageKind {
    match m {
        MessageModel::Handshake { .. } => MessageKind::Handshake,
        MessageModel::MouseMove { .. } => MessageKind::MouseMove,
        MessageModel::MouseButton { .. } => MessageKind::MouseButton,
        MessageModel::Scroll { .. } => MessageKind::Scroll,
        MessageModel::Key { .. } => MessageKind::Key,
        MessageModel::ReleaseAllKeys => MessageKind::ReleaseAllKeys,
        MessageModel::Heartbeat => MessageKind::Heartbeat,
        MessageModel::Release { .. } => MessageKind::Release,
        MessageModel::Enter { .. } => MessageKind::Enter,
        MessageModel::ClipboardText { .. } => MessageKind::ClipboardText,
        MessageModel::FileOffer { .. } => MessageKind::FileOffer,
        MessageModel::FileChunk { .. } => MessageKind::FileChunk,
        MessageModel::FileEnd => MessageKind::FileEnd,
        MessageModel::FileAbort => MessageKind::FileAbort,
        MessageModel::Unknown => MessageKind::Unknown,
    }
}

/// Name a message's kind without exposing anything it carries.
pub fn message_kind(message: &Message) -> (r: MessageKind)
    ensures
        r == kind_of(message@),
{
    match message {
        Message::Handshake { .. } => MessageKind::Handshake,
        Message::MouseMove { .. } => MessageKind::MouseMove,
        Message::MouseButton { .. } => MessageKind::MouseButton,
        Message::Scroll { .. } => MessageKind::Scroll,
        Message::Key { .. } => MessageKind::Key,
        Message::ReleaseAllKeys => MessageKind::ReleaseAllKeys,
        Message::Heartbeat => MessageKind::Heartbeat,
        Message::Release { .. } => MessageKind::Release,
        Message::Enter { .. } => MessageKind::Enter,
        Message::ClipboardText(_) => MessageKind::ClipboardText,
        Message::FileOffer { .. } => MessageKind::FileOffer,
        Message::FileChunk(_) => MessageKind::FileChunk,
        Message::FileEnd => MessageKind::FileEnd,
        Message::FileAbort => MessageKind::FileAbort,
        Message::Unknown => MessageKind::Unknown,
    }
}

impl HandshakeError {
    /// What went wrong, for a person to read.
    pub open spec fn spec_message(self) -> Seq<char> {
        match self {
            HandshakeError::Transport(e) => "transport: "@ + e.spec_message(),
            HandshakeError::VersionMismatch { ours, theirs } => "peer speaks protocol version "@
                + crate::text::decimal(theirs as nat) + ", we speak "@ + crate::text::decimal(
                ours as nat,
            ),
            HandshakeError::Unexpected(kind) => "peer sent "@ + kind.spec_name()
                + " instead of a handshake"@,
            HandshakeError::Random => "system RNG unavailable"@,
            HandshakeError::Timeout => "handshake did not complete within the timeout; the peer connected but never finished it"@,
        }
    }

    /// What went wrong, for a person to read.
    pub fn message(&self) -> (r: String)
        ensures
            r@ == self.spec_message(),
    {
        match self {
            HandshakeError::Transport(e) => {
                let inner: String = e.message();
                "transport: ".to_owned().concat(inner.as_str())
            },
            HandshakeError::VersionMismatch { ours, theirs } => {
                let theirs_text: String = text::decimal_text(*theirs as u64);
                let ours_text: String = text::decimal_text(*ours as u64);
                "peer speaks protocol version ".to_owned().concat(theirs_text.as_str()).concat(
                    ", we speak ",
                ).concat(ours_text.as_str())
            },
            HandshakeError::Unexpected(kind) => "peer sent ".to_owned().concat(kind.name()).concat(
                " instead of a handshake",
            ),
            HandshakeError::Random => "system RNG unavailable".to_owned(),
            HandshakeError::Timeout => "handshake did not complete within the timeout; the peer connected but never finished it".to_owned(),
        }
    }
}

/// What an opening message must be: a handshake of our version. Gives the
/// nonce and the peer's id.
pub open spec fn opening_of(m: MessageModel) -> Result<(Seq<u8>, Seq<char>), HandshakeError> {
    match m {
        MessageModel::Handshake { version, peer_id, nonce, .. } => if version == PROTOCOL_VERSION {
            Ok((nonce, peer_id))
        } else {
            Err(HandshakeError::VersionMismatch { ours: PROTOCOL_VERSION, theirs: version })
        },
        _ => Err(HandshakeError::Unexpected(kind_of(m))),
    }
}

/// Require a message to be a handshake at our protocol version, checked
/// before anything else about the message is trusted.
///
/// Shared by both roles so the version gate is enforced identically on
/// each side.
pub fn recv_handshake(message: Message) -> (r: Result<([u8; 32], String), HandshakeError>)
    ensures
        match r {
            Ok((nonce, peer_id)) => opening_of(message@) == Ok::<(Seq<u8>, Seq<char>), HandshakeError>(
                (nonce@, peer_id@),
            ),
            Err(e) => opening_of(message@) == Err::<(Seq<u8>, Seq<char>), HandshakeError>(e),
        },
{
    match message {
        Message::Handshake { version, capabilities: _, peer_id, nonce } => {
            if version != PROTOCOL_VERSION {
                return Err(
                    HandshakeError::VersionMismatch { ours: PROTOCOL_VERSION, theirs: version },
                );
            }
            Ok((nonce, peer_id))
        },
        other => Err(HandshakeError::Unexpected(message_kind(&other))),
    }
}

/// The opening message of a peer.
pub open spec fn hello(peer_id: Seq<char>, nonce: Seq<u8>) -> MessageModel {
    MessageModel::Handshake { version: PROTOCOL_VERSION, capabilities: 0, peer_id, nonce }
}

/// The client's side of a handshake that is under way.
#[derive(Debug)]
pub struct ClientHandshake {
    nonce: [u8; 32],
}

impl View for ClientHandshake {
    type V = Seq<u8>;

    /// The nonce that was sent.
    closed spec fn view(&self) -> Seq<u8> {
        self.nonce@
    }
}

impl ClientHandshake {
    /// Starts with a nonce that is already chosen: what to send.
    pub fn start_with(peer_id: &str, nonce: [u8; 32]) -> (r: (ClientHandshake, Message))
        ensures
            r.0@ == nonce@,
            r.1@ == hello(peer_id@, nonce@),
    {
        (
            ClientHandshake { nonce },
            Message::Handshake {
                version: PROTOCOL_VERSION,
                capabilities: 0,
                peer_id: peer_id.to_owned(),
                nonce,
            },
        )
    }

    /// Starts with a fresh random nonce: what to send.
    pub fn start(peer_id: &str) -> (r: Result<(ClientHandshake, Message), HandshakeError>)
        ensures
            match r {
                Ok((state, message)) => state@.len() == 32 && message@ == hello(peer_id@, state@),
                Err(e) => e == HandshakeError::Random,
            },
    {
        match random_bytes::<32>() {
            Ok(nonce) => Ok(Self::start_with(peer_id, nonce)),
            Err(_) => Err(HandshakeError::Random),
        }
    }

    /// Takes the server's reply: the session that everything from here on
    /// is bound to.
    pub fn finish(self, reply: Message) -> (r: Result<SessionId, HandshakeError>)
        ensures
            match opening_of(reply@) {
                Ok((server_nonce, _)) => r matches Ok(session) && session@ == derived_session(
                    self@,
                    server_nonce,
                ),
                Err(e) => r == Err::<SessionId, HandshakeError>(e),
            },
    {
        match recv_handshake(reply) {
            Ok((server_nonce, _)) => Ok(derive_session(&self.nonce, &server_nonce)),
            Err(e) => Err(e),
        }
    }

    /// Takes the server's reply: the two halves of the link, keyed to the
    /// session that both peers derived. Nothing is sent or read under the
    /// placeholder from here on.
    pub fn finish_halves(self, key: SharedKey, reply: Message) -> (r: Result<
        (TransportReader, TransportWriter),
        HandshakeError,
    >)
        ensures
            match opening_of(reply@) {
                Ok((server_nonce, _)) => {
                    let session = derived_session(self@, server_nonce);
                    r matches Ok((reader, writer)) && reader@ == transport::reader_half(
                        key@,
                        session,
                        Direction::ClientToServer,
                    ) && writer@ == transport::writer_half(key@, session, Direction::ClientToServer)
                },
                Err(e) => r == Err::<(TransportReader, TransportWriter), HandshakeError>(e),
            },
    {
        match self.finish(reply) {
            Ok(session) => Ok(split(key, session, Direction::ClientToServer)),
            Err(e) => Err(e),
        }
    }
}

/// What the server makes of an opening message, with a nonce that is
/// already chosen: what to reply, the session that everything from here on
/// is bound to, and the client's id.
pub fn server_reply_with(opening: Message, nonce: [u8; 32]) -> (r: Result<(Message, SessionId, String), HandshakeError>)
    ensures
        match opening_of(opening@) {
            Ok((client_nonce, peer_id)) => r matches Ok((reply, session, id)) && reply@ == hello(
                Seq::empty(),
                nonce@,
            ) && session@ == derived_session(client_nonce, nonce@) && id@ == peer_id,
            Err(e) => r == Err::<(Message, SessionId, String), HandshakeError>(e),
        },
{
    match recv_handshake(opening) {
        Err(e) => Err(e),
        Ok((client_nonce, peer_id)) => {
            // The server's own identifier is not part of this exchange: it
            // is sent as empty.
            let reply = Message::Handshake {
                version: PROTOCOL_VERSION,
                capabilities: 0,
                peer_id: String::new(),
                nonce,
            };
            let session: SessionId = derive_session(&client_nonce, &nonce);
            Ok((reply, session, peer_id))
        },
    }
}

/// What the server makes of an opening message, with a fresh random nonce.
pub fn server_reply(opening: Message) -> (r: Result<(Message, SessionId, String), HandshakeError>)
    ensures
        match opening_of(opening@) {
            Ok((client_nonce, peer_id)) => match r {
                Ok((reply, session, id)) => {
                    &&& id@ == peer_id
                    &&& opening_of(reply@) matches Ok((server_nonce, _))
                    &&& server_nonce.len() == 32
                    &&& reply@ == hello(Seq::empty(), server_nonce)
                    &&& session@ == derived_session(client_nonce, server_nonce)
                },
                Err(e) => e == HandshakeError::Random,
            },
            Err(e) => r == Err::<(Message, SessionId, String), HandshakeError>(e),
        },
{
    match random_bytes::<32>() {
        Ok(nonce) => server_reply_with(opening, nonce),
        Err(_) => match recv_handshake(opening) {
            Ok(_) => Err(HandshakeError::Random),
            Err(e) => Err(e),
        },
    }
}

/// The halves of a link while the handshake runs, before there is a session
/// to key them to.
pub fn opening_halves(key: SharedKey, direction: Direction) -> (r: (TransportReader, TransportWriter))
    ensures
        r.0@ == transport::reader_half(key@, Seq::new(32, |i: int| 0u8), direction),
        r.1@ == transport::writer_half(key@, Seq::new(32, |i: int| 0u8), direction),
{
    split(key, SessionId::zero(), direction)
}

/// What the server makes of an opening message, with a nonce that is already
/// chosen: what to reply while the opening halves are still in use, the two
/// halves of the link from then on, keyed to the session that both peers
/// derived, and the client's id.
pub fn server_halves_with(key: SharedKey, opening: Message, nonce: [u8; 32]) -> (r: Result<
    (Message, (TransportReader, TransportWriter), String),
    HandshakeError,
>)
    ensures
        match opening_of(opening@) {
            Ok((client_nonce, peer_id)) => {
                let session = derived_session(client_nonce, nonce@);
                &&& r matches Ok((reply, halves, id))
                &&& reply@ == hello(Seq::empty(), nonce@)
                &&& halves.0@ == transport::reader_half(key@, session, Direction::ServerToClient)
                &&& halves.1@ == transport::writer_half(key@, session, Direction::ServerToClient)
                &&& id@ == peer_id
            },
            Err(e) => r == Err::<(Message, (TransportReader, TransportWriter), String), HandshakeError>(e),
        },
{
    match server_reply_with(opening, nonce) {
        Ok((reply, session, id)) => Ok((reply, split(key, session, Direction::ServerToClient), id)),
        Err(e) => Err(e),
    }
}

/// What the server makes of an opening message, with a fresh random nonce.
pub fn server_halves(key: SharedKey, opening: Message) -> (r: Result<
    (Message, (TransportReader, TransportWriter), String),
    HandshakeError,
>)
    ensures
        match opening_of(opening@) {
            Ok((client_nonce, peer_id)) => match r {
                Ok((reply, halves, id)) => {
                    &&& id@ == peer_id
                    &&& opening_of(reply@) matches Ok((server_nonce, _))
                    &&& server_nonce.len() == 32
                    &&& reply@ == hello(Seq::empty(), server_nonce)
                    &&& halves.0@ == transport::reader_half(
                        key@,
                        derived_session(client_nonce, server_nonce),
                        Direction::ServerToClient,
                    )
                    &&& halves.1@ == transport::writer_half(
                        key@,
                        derived_session(client_nonce, server_nonce),
                        Direction::ServerToClient,
                    )
                },
                Err(e) => e == HandshakeError::Random,
            },
            Err(e) => r == Err::<(Message, (TransportReader, TransportWriter), String), HandshakeError>(e),
        },
{
    match server_reply(opening) {
        Ok((reply, session, id)) => Ok((reply, split(key, session, Direction::ServerToClient), id)),
        Err(e) => Err(e),
    }
}

/// After the handshake each peer reads what the other sends: the halves that
/// the two of them end up with are keyed to one session, and each reader
/// expects the direction that the other peer's writer seals for.
pub proof fn law_the_peers_read_each_other_after_the_handshake(
    key: Seq<u8>,
    peer_id: Seq<char>,
    client_nonce: Seq<u8>,
    server_nonce: Seq<u8>,
)
    ensures
        opening_of(hello(peer_id, client_nonce)) matches Ok((heard_by_server, _)) && opening_of(
            hello(Seq::empty(), server_nonce),
        ) matches Ok((heard_by_client, _)) && {
            let client = derived_session(client_nonce, heard_by_client);
            let server = derived_session(heard_by_server, server_nonce);
            &&& transport::reads_from(
                transport::reader_half(key, server, Direction::ServerToClient),
                transport::writer_half(key, client, Direction::ClientToServer),
            )
            &&& transport::reads_from(
                transport::reader_half(key, client, Direction::ClientToServer),
                transport::writer_half(key, server, Direction::ServerToClient),
            )
        },
{
}

/// Both peers derive the same session from the two messages they exchange,
/// and the server learns the client's id.
pub proof fn law_both_peers_derive_the_same_session(
    peer_id: Seq<char>,
    client_nonce: Seq<u8>,
    server_nonce: Seq<u8>,
)
    ensures
        opening_of(hello(peer_id, client_nonce)) == Ok::<(Seq<u8>, Seq<char>), HandshakeError>(
            (client_nonce, peer_id),
        ),
        opening_of(hello(Seq::empty(), server_nonce)) matches Ok((nonce, _))
            && derived_session(client_nonce, nonce) == derived_session(client_nonce, server_nonce),
{
}

/// A refused opening message is reported by its kind alone: nothing that
/// it carries, such as a keystroke, changes what is reported.
pub proof fn law_a_refusal_reveals_only_the_kind(a: MessageModel, b: MessageModel)
    requires
        kind_of(a) == kind_of(b),
        kind_of(a) != MessageKind::Handshake,
    ensures
        opening_of(a) == opening_of(b),
        opening_of(a) is Err,
{
}

/// A peer opens with a handshake of the second version of the protocol that
/// claims no capabilities; of the handshakes that arrive, those of that
/// version are accepted, with whatever id and nonce, and no others.
pub proof fn law_only_our_version_is_accepted(version: u16, capabilities: u32, peer_id: Seq<char>, nonce: Seq<u8>)
    ensures
        ({
            let m = MessageModel::Handshake { version, capabilities, peer_id, nonce };
            &&& version == 2 ==> opening_of(m) == Ok::<(Seq<u8>, Seq<char>), HandshakeError>((nonce, peer_id))
            &&& version != 2 ==> opening_of(m) == Err::<(Seq<u8>, Seq<char>), HandshakeError>(
                HandshakeError::VersionMismatch { ours: 2, theirs: version },
            )
        }),
        hello(peer_id, nonce) == (MessageModel::Handshake { version: 2, capabilities: 0, peer_id, nonce }),
{
}

/// Anything but a handshake is refused, by the name of what it is.
pub proof fn law_a_refused_opening_is_named_as_it_is(m: MessageModel)
    requires
        m !is Handshake,
    ensures
        opening_of(m) matches Err(HandshakeError::Unexpected(kind)) && kind.spec_name() == match m {
            MessageModel::Handshake { .. } => "Handshake"@,
            MessageModel::MouseMove { .. } => "MouseMove"@,
            MessageModel::MouseButton { .. } => "MouseButton"@,
            MessageModel::Scroll { .. } => "Scroll"@,
            MessageModel::Key { .. } => "Key"@,
            MessageModel::ReleaseAllKeys => "ReleaseAllKeys"@,
            MessageModel::Heartbeat => "Heartbeat"@,
            MessageModel::Release { .. } => "Release"@,
            MessageModel::Enter { .. } => "Enter"@,
            MessageModel::ClipboardText { .. } => "ClipboardText"@,
            MessageModel::FileOffer { .. } => "FileOffer"@,
            MessageModel::FileChunk { .. } => "FileChunk"@,
            MessageModel::FileEnd => "FileEnd"@,
            MessageModel::FileAbort => "FileAbort"@,
            MessageModel::Unknown => "Unknown"@,
        },
{
}

/// A session is the digest of a label and the two nonces, the client's before
/// the server's.
pub proof fn law_a_session_is_of_label_client_and_server(client_nonce: Seq<u8>, server_nonce: Seq<u8>)
    requires
        client_nonce.len() == 32,
        server_nonce.len() == 32,
    ensures
        ({
            let input = session_input(client_nonce, server_nonce);
            &&& input.len() == 78
            &&& forall|i: int| 0 <= i < 14 ==> #[trigger] input[i] as char == "hop session v1"@[i]
            &&& input.subrange(14, 46) == client_nonce
            &&& input.subrange(46, 78) == server_nonce
            &&& derived_session(client_nonce, server_nonce) == sha256_of(input)
        }),
{
    reveal_strlit("hop session v1");
    let input = session_input(client_nonce, server_nonce);
    assert("hop session v1"@.len() == 14);
    assert(input.subrange(14, 46) =~= client_nonce);
    assert(input.subrange(46, 78) =~= server_nonce);
}

} // verus!
