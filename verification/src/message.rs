//! The messages the two machines exchange, and their encoding.

use vstd::bytes::*;
use vstd::prelude::*;

use crate::keys::Usage;
use crate::wire;
use crate::wire::{Reason, Shape};

verus! {

/// Bumped only for incompatible wire changes. Peers exchange this in the
/// handshake and refuse to proceed if they disagree.
pub const PROTOCOL_VERSION: u16 = 2;

#[derive(Debug, Clone, Copy, PartialEq, Eq, Structural)]
pub enum Button {
    Left,
    Right,
    Middle,
}

impl Button {
    /// The number that stands for this button on the wire.
    pub open spec fn spec_index(self) -> u32 {
        match self {
            Button::Left => 0,
            Button::Right => 1,
            Button::Middle => 2,
        }
    }

    /// The button that a number on the wire stands for.
    pub open spec fn spec_from_index(index: u32) -> Option<Button> {
        if index == 0 {
            Some(Button::Left)
        } else if index == 1 {
            Some(Button::Right)
        } else if index == 2 {
            Some(Button::Middle)
        } else {
            None
        }
    }

    fn index(self) -> (r: u32)
        ensures
            r == self.spec_index(),
    {
        match self {
            Button::Left => 0,
            Button::Right => 1,
            Button::Middle => 2,
        }
    }

    fn from_index(index: u32) -> (r: Option<Button>)
        ensures
            r == Button::spec_from_index(index),
    {
        if index == 0 {
            Some(Button::Left)
        } else if index == 1 {
            Some(Button::Right)
        } else if index == 2 {
            Some(Button::Middle)
        } else {
            None
        }
    }
}

#[derive(Debug, Clone, PartialEq)]
pub enum Message {
    Handshake { version: u16, capabilities: u32, peer_id: String, nonce: [u8; 32] },
    MouseMove { dx: i32, dy: i32 },
    MouseButton { button: Button, pressed: bool },
    Scroll { dx: i32, dy: i32 },
    Key { usage: Usage, pressed: bool },
    /// Sent on every control transition so the receiver cannot be left
    /// holding a modifier down forever.
    ReleaseAllKeys,
    Heartbeat,
    /// The client is handing control back to the server, leaving at
    /// `along` on its return edge. Same units and meaning as `Enter`.
    Release { along: u32 },
    /// Focus has just crossed onto the peer, entering at `along` on the
    /// entry edge.
    ///
    /// `along` is the bit pattern of a single precision number in the
    /// sender's logical units, measured relative to that machine's anchor:
    /// the point on its edge that is treated as the same physical place as
    /// the peer's anchor. It is free to fall outside the receiver's own
    /// edge, in which case the receiver clamps to the nearest corner.
    Enter { along: u32 },
    /// The sender's clipboard now holds this text.
    ClipboardText(String),
    /// Start of a file the peer has copied. Followed by `FileChunk`s and
    /// then `FileEnd`. `name` is a bare file name, never a path; the
    /// receiver validates this rather than trusting it.
    FileOffer { name: String, size: u64 },
    /// One piece of the file currently being offered.
    FileChunk(Vec<u8>),
    /// The file is complete and can be put on the clipboard.
    FileEnd,
    /// The sender gave up part way through, so the receiver discards what
    /// it has.
    FileAbort,
    /// A variant this build does not understand. Decoding produces this
    /// instead of failing, so a newer peer can add message types without
    /// breaking an older one.
    Unknown,
}

/// What a [`Message`] says, with text and bytes as sequences.
#[verifier::ext_equal]
pub enum MessageModel {
    Handshake { version: u16, capabilities: u32, peer_id: Seq<char>, nonce: Seq<u8> },
    MouseMove { dx: i32, dy: i32 },
    MouseButton { button: Button, pressed: bool },
    Scroll { dx: i32, dy: i32 },
    Key { usage: Usage, pressed: bool },
    ReleaseAllKeys,
    Heartbeat,
    Release { along: u32 },
    Enter { along: u32 },
    ClipboardText { text: Seq<char> },
    FileOffer { name: Seq<char>, size: u64 },
    FileChunk { bytes: Seq<u8> },
    FileEnd,
    FileAbort,
    Unknown,
}

impl View for Message {
    type V = MessageModel;

    open spec fn view(&self) -> MessageModel {
        match *self {
            Message::Handshake { version, capabilities, peer_id, nonce } => MessageModel::Handshake {
                version,
                capabilities,
                peer_id: peer_id@,
                nonce: nonce@,
            },
            Message::MouseMove { dx, dy } => MessageModel::MouseMove { dx, dy },
            Message::MouseButton { button, pressed } => MessageModel::MouseButton { button, pressed },
            Message::Scroll { dx, dy } => MessageModel::Scroll { dx, dy },
            Message::Key { usage, pressed } => MessageModel::Key { usage, pressed },
            Message::ReleaseAllKeys => MessageModel::ReleaseAllKeys,
            Message::Heartbeat => MessageModel::Heartbeat,
            Message::Release { along } => MessageModel::Release { along },
            Message::Enter { along } => MessageModel::Enter { along },
            Message::ClipboardText(text) => MessageModel::ClipboardText { text: text@ },
            Message::FileOffer { name, size } => MessageModel::FileOffer { name: name@, size },
            Message::FileChunk(bytes) => MessageModel::FileChunk { bytes: bytes@ },
            Message::FileEnd => MessageModel::FileEnd,
            Message::FileAbort => MessageModel::FileAbort,
            Message::Unknown => MessageModel::Unknown,
        }
    }
}

// Wire tags. Never renumber an existing one; only append.
pub const TAG_HANDSHAKE: u16 = 1;
pub const TAG_MOUSE_MOVE: u16 = 2;
pub const TAG_MOUSE_BUTTON: u16 = 3;
pub const TAG_SCROLL: u16 = 4;
pub const TAG_KEY: u16 = 5;
pub const TAG_RELEASE_ALL_KEYS: u16 = 6;
pub const TAG_HEARTBEAT: u16 = 7;
pub const TAG_RELEASE: u16 = 8;
pub const TAG_CLIPBOARD_TEXT: u16 = 9;
pub const TAG_FILE_OFFER: u16 = 10;
pub const TAG_FILE_CHUNK: u16 = 11;
pub const TAG_FILE_END: u16 = 12;
pub const TAG_FILE_ABORT: u16 = 13;
pub const TAG_ENTER: u16 = 14;

#[derive(Debug, Clone, Copy, PartialEq, Eq)]
pub enum CodecError {
    /// The bytes are no message, and why.
    Malformed(Reason),
    /// A message of unknown type cannot be encoded.
    UnknownNotEncodable,
}

impl CodecError {
    /// What went wrong, for a person to read.
    pub fn message(&self) -> (r: String)
        ensures
            *self matches CodecError::Malformed(reason) ==> r@ == "malformed message: "@ + reason.spec_text(),
            self is UnknownNotEncodable ==> r@ == "a message of unknown type cannot be encoded"@,
    {
        match self {
            CodecError::Malformed(reason) => "malformed message: ".to_owned().concat(reason.text()),
            CodecError::UnknownNotEncodable => "a message of unknown type cannot be encoded".to_owned(),
        }
    }
}

/// The tag and body of a message; there is none for an unknown one.
pub open spec fn tagged(m: MessageModel) -> Option<(u16, Seq<u8>)> {
    match m {
        MessageModel::Handshake { version, capabilities, peer_id, nonce } => Some(
            (TAG_HANDSHAKE, wire::hello_bytes(version, capabilities, peer_id, nonce)),
        ),
        MessageModel::MouseMove { dx, dy } => Some((TAG_MOUSE_MOVE, wire::pair_bytes(dx, dy))),
        MessageModel::MouseButton { button, pressed } => Some(
            (TAG_MOUSE_BUTTON, wire::choice_bytes(button.spec_index(), pressed)),
        ),
        MessageModel::Scroll { dx, dy } => Some((TAG_SCROLL, wire::pair_bytes(dx, dy))),
        MessageModel::Key { usage, pressed } => Some((TAG_KEY, wire::key_bytes(usage.0, pressed))),
        MessageModel::ReleaseAllKeys => Some((TAG_RELEASE_ALL_KEYS, Seq::empty())),
        MessageModel::Heartbeat => Some((TAG_HEARTBEAT, Seq::empty())),
        MessageModel::Release { along } => Some((TAG_RELEASE, spec_u32_to_le_bytes(along))),
        MessageModel::Enter { along } => Some((TAG_ENTER, spec_u32_to_le_bytes(along))),
        MessageModel::ClipboardText { text } => Some((TAG_CLIPBOARD_TEXT, wire::text(text))),
        MessageModel::FileOffer { name, size } => Some((TAG_FILE_OFFER, wire::offer_bytes(name, size))),
        MessageModel::FileChunk { bytes } => Some((TAG_FILE_CHUNK, wire::counted(bytes))),
        MessageModel::FileEnd => Some((TAG_FILE_END, Seq::empty())),
        MessageModel::FileAbort => Some((TAG_FILE_ABORT, Seq::empty())),
        MessageModel::Unknown => None,
    }
}

/// The bytes of a message: its tag, then its body, counted.
pub open spec fn encoding(m: MessageModel) -> Option<Seq<u8>> {
    match tagged(m) {
        None => None,
        Some((tag, body)) => Some(wire::frame_bytes(tag, body)),
    }
}

/// The message that a tag and a body stand for. A tag that no message has
/// stands for an unknown one, whatever its body.
pub open spec fn untagged(tag: u16, body: Seq<u8>) -> Option<MessageModel> {
    if tag == TAG_HANDSHAKE {
        match wire::read_hello(body) {
            None => None,
            Some((version, capabilities, peer_id, nonce)) => Some(
                MessageModel::Handshake { version, capabilities, peer_id, nonce },
            ),
        }
    } else if tag == TAG_MOUSE_MOVE {
        match wire::read_pair(body) {
            None => None,
            Some((dx, dy)) => Some(MessageModel::MouseMove { dx, dy }),
        }
    } else if tag == TAG_MOUSE_BUTTON {
        match wire::read_choice(body) {
            None => None,
            Some((index, pressed)) => match Button::spec_from_index(index) {
                None => None,
                Some(button) => Some(MessageModel::MouseButton { button, pressed }),
            },
        }
    } else if tag == TAG_SCROLL {
        match wire::read_pair(body) {
            None => None,
            Some((dx, dy)) => Some(MessageModel::Scroll { dx, dy }),
        }
    } else if tag == TAG_KEY {
        match wire::read_key(body) {
            None => None,
            Some((code, pressed)) => Some(MessageModel::Key { usage: Usage(code), pressed }),
        }
    } else if tag == TAG_RELEASE_ALL_KEYS {
        Some(MessageModel::ReleaseAllKeys)
    } else if tag == TAG_HEARTBEAT {
        Some(MessageModel::Heartbeat)
    } else if tag == TAG_RELEASE {
        match wire::read_word(body) {
            None => None,
            Some(word) => Some(MessageModel::Release { along: spec_u32_from_le_bytes(word) }),
        }
    } else if tag == TAG_CLIPBOARD_TEXT {
        match wire::read_text(body) {
            None => None,
            Some(text) => Some(MessageModel::ClipboardText { text }),
        }
    } else if tag == TAG_FILE_OFFER {
        match wire::read_offer(body) {
            None => None,
            Some((name, size)) => Some(MessageModel::FileOffer { name, size }),
        }
    } else if tag == TAG_FILE_CHUNK {
        match wire::read_counted(body) {
            None => None,
            Some(bytes) => Some(MessageModel::FileChunk { bytes }),
        }
    } else if tag == TAG_FILE_END {
        Some(MessageModel::FileEnd)
    } else if tag == TAG_FILE_ABORT {
        Some(MessageModel::FileAbort)
    } else if tag == TAG_ENTER {
        match wire::read_word(body) {
            None => None,
            Some(word) => Some(MessageModel::Enter { along: spec_u32_from_le_bytes(word) }),
        }
    } else {
        Some(MessageModel::Unknown)
    }
}

/// The message that bytes stand for, if they are one.
pub open spec fn decoding(bytes: Seq<u8>) -> Option<MessageModel> {
    match wire::read_frame(bytes) {
        None => None,
        Some((tag, body)) => untagged(tag, body),
    }
}

/// Why the body of a message is refused.
pub open spec fn body_complaint(tag: u16, body: Seq<u8>) -> Reason {
    if tag == TAG_HANDSHAKE {
        wire::complaint(Shape::Hello, body)
    } else if tag == TAG_MOUSE_MOVE || tag == TAG_SCROLL {
        wire::complaint(Shape::Pair, body)
    } else if tag == TAG_MOUSE_BUTTON {
        // A button that there is not is refused before the rest is read.
        match wire::read_index(body) {
            Some(index) => if Button::spec_from_index(index) is None {
                Reason::Reading
            } else {
                wire::complaint(Shape::Choice, body)
            },
            None => wire::complaint(Shape::Index, body),
        }
    } else if tag == TAG_KEY {
        wire::complaint(Shape::Key, body)
    } else if tag == TAG_CLIPBOARD_TEXT {
        wire::complaint(Shape::Text, body)
    } else if tag == TAG_FILE_OFFER {
        wire::complaint(Shape::Offer, body)
    } else if tag == TAG_FILE_CHUNK {
        wire::complaint(Shape::Counted, body)
    } else {
        wire::complaint(Shape::Word, body)
    }
}

/// Why bytes that are no message are refused.
pub open spec fn refusal(bytes: Seq<u8>) -> Reason {
    match wire::read_frame(bytes) {
        None => wire::complaint(Shape::Frame, bytes),
        Some((tag, body)) => body_complaint(tag, body),
    }
}

/// Encodes an arbitrary tag and an already encoded body. With a tag that
/// no message has, this is what a peer speaking a future version of the
/// protocol sends.
pub fn encode_raw(tag: u16, body: &[u8]) -> (r: Result<Vec<u8>, CodecError>)
    ensures
        r is Ok,
        r->Ok_0@ == wire::frame_bytes(tag, body@),
{
    match wire::pack_frame(tag, body) {
        Ok(bytes) => Ok(bytes),
        Err(e) => Err(CodecError::Malformed(wire::reason(e))),
    }
}

/// Wraps a packed body in a frame.
fn encode_packed(tag: u16, body: Result<Vec<u8>, postcard::Error>) -> (r: Result<Vec<u8>, CodecError>)
    requires
        body is Ok,
    ensures
        r is Ok,
        r->Ok_0@ == wire::frame_bytes(tag, body->Ok_0@),
{
    match body {
        Ok(bytes) => encode_raw(tag, bytes.as_slice()),
        Err(e) => Err(CodecError::Malformed(wire::reason(e))),
    }
}

/// The four bytes of a bit pattern, lowest first.
fn word_of(bits: u32) -> (r: [u8; 4])
    ensures
        r@ == spec_u32_to_le_bytes(bits),
{
    let le: Vec<u8> = u32_to_le_bytes(bits);
    let r = [le[0], le[1], le[2], le[3]];
    assert(r@ =~= le@);
    r
}

/// The bit pattern of four bytes, lowest first.
fn bits_of(word: [u8; 4]) -> (r: u32)
    ensures
        r == spec_u32_from_le_bytes(word@),
{
    u32_from_le_bytes(word.as_slice())
}

/// Encodes a message. Every message can be encoded but one of unknown
/// type.
pub fn encode(message: &Message) -> (r: Result<Vec<u8>, CodecError>)
    ensures
        match r {
            Ok(bytes) => encoding(message@) == Some(bytes@),
            Err(CodecError::UnknownNotEncodable) => encoding(message@) is None,
            Err(CodecError::Malformed(_)) => false,
        },
{
    match message {
        Message::Handshake { version, capabilities, peer_id, nonce } => encode_packed(
            TAG_HANDSHAKE,
            wire::pack_hello(*version, *capabilities, peer_id.as_str(), nonce),
        ),
        Message::MouseMove { dx, dy } => encode_packed(TAG_MOUSE_MOVE, wire::pack_pair(*dx, *dy)),
        Message::MouseButton { button, pressed } => encode_packed(
            TAG_MOUSE_BUTTON,
            wire::pack_choice(button.index(), *pressed),
        ),
        Message::Scroll { dx, dy } => encode_packed(TAG_SCROLL, wire::pack_pair(*dx, *dy)),
        Message::Key { usage, pressed } => encode_packed(TAG_KEY, wire::pack_key(usage.0, *pressed)),
        Message::ReleaseAllKeys => encode_packed(TAG_RELEASE_ALL_KEYS, wire::pack_nothing()),
        Message::Heartbeat => encode_packed(TAG_HEARTBEAT, wire::pack_nothing()),
        Message::Release { along } => encode_packed(TAG_RELEASE, wire::pack_word(word_of(*along))),
        Message::ClipboardText(text) => encode_packed(TAG_CLIPBOARD_TEXT, wire::pack_text(text.as_str())),
        Message::FileOffer { name, size } => encode_packed(
            TAG_FILE_OFFER,
            wire::pack_offer(name.as_str(), *size),
        ),
        Message::FileChunk(bytes) => encode_packed(TAG_FILE_CHUNK, wire::pack_counted(bytes.as_slice())),
        Message::FileEnd => encode_packed(TAG_FILE_END, wire::pack_nothing()),
        Message::FileAbort => encode_packed(TAG_FILE_ABORT, wire::pack_nothing()),
        Message::Enter { along } => encode_packed(TAG_ENTER, wire::pack_word(word_of(*along))),
        Message::Unknown => Err(CodecError::UnknownNotEncodable),
    }
}

/// Reads the body of a message whose tag is known.
fn decode_body(tag: u16, body: &[u8]) -> (r: Result<Message, CodecError>)
    ensures
        match r {
            Ok(message) => untagged(tag, body@) == Some(message@),
            Err(CodecError::Malformed(reason)) => untagged(tag, body@) is None && reason == body_complaint(tag, body@),
            Err(CodecError::UnknownNotEncodable) => false,
        },
{
    if tag == TAG_HANDSHAKE {
        match wire::unpack_hello(body) {
            Ok((version, capabilities, peer_id, nonce)) => Ok(
                Message::Handshake { version, capabilities, peer_id, nonce },
            ),
            Err(e) => Err(CodecError::Malformed(wire::reason(e))),
        }
    } else if tag == TAG_MOUSE_MOVE {
        match wire::unpack_pair(body) {
            Ok((dx, dy)) => Ok(Message::MouseMove { dx, dy }),
            Err(e) => Err(CodecError::Malformed(wire::reason(e))),
        }
    } else if tag == TAG_MOUSE_BUTTON {
        match wire::unpack_index(body) {
            Ok(index) => match Button::from_index(index) {
                Some(button) => match wire::unpack_choice(body) {
                    Ok((_, pressed)) => Ok(Message::MouseButton { button, pressed }),
                    Err(e) => Err(CodecError::Malformed(wire::reason(e))),
                },
                None => Err(CodecError::Malformed(Reason::Reading)),
            },
            Err(e) => Err(CodecError::Malformed(wire::reason(e))),
        }
    } else if tag == TAG_SCROLL {
        match wire::unpack_pair(body) {
            Ok((dx, dy)) => Ok(Message::Scroll { dx, dy }),
            Err(e) => Err(CodecError::Malformed(wire::reason(e))),
        }
    } else if tag == TAG_KEY {
        match wire::unpack_key(body) {
            Ok((code, pressed)) => Ok(Message::Key { usage: Usage(code), pressed }),
            Err(e) => Err(CodecError::Malformed(wire::reason(e))),
        }
    } else if tag == TAG_RELEASE_ALL_KEYS {
        Ok(Message::ReleaseAllKeys)
    } else if tag == TAG_HEARTBEAT {
        Ok(Message::Heartbeat)
    } else if tag == TAG_RELEASE {
        match wire::unpack_word(body) {
            Ok(word) => Ok(Message::Release { along: bits_of(word) }),
            Err(e) => Err(CodecError::Malformed(wire::reason(e))),
        }
    } else if tag == TAG_CLIPBOARD_TEXT {
        match wire::unpack_text(body) {
            Ok(text) => Ok(Message::ClipboardText(text)),
            Err(e) => Err(CodecError::Malformed(wire::reason(e))),
        }
    } else if tag == TAG_FILE_OFFER {
        match wire::unpack_offer(body) {
            Ok((name, size)) => Ok(Message::FileOffer { name, size }),
            Err(e) => Err(CodecError::Malformed(wire::reason(e))),
        }
    } else if tag == TAG_FILE_CHUNK {
        match wire::unpack_counted(body) {
            Ok(bytes) => Ok(Message::FileChunk(bytes)),
            Err(e) => Err(CodecError::Malformed(wire::reason(e))),
        }
    } else if tag == TAG_FILE_END {
        Ok(Message::FileEnd)
    } else if tag == TAG_FILE_ABORT {
        Ok(Message::FileAbort)
    } else if tag == TAG_ENTER {
        match wire::unpack_word(body) {
            Ok(word) => Ok(Message::Enter { along: bits_of(word) }),
            Err(e) => Err(CodecError::Malformed(wire::reason(e))),
        }
    } else {
        Ok(Message::Unknown)
    }
}

/// Decodes a message.
pub fn decode(bytes: &[u8]) -> (r: Result<Message, CodecError>)
    ensures
        match r {
            Ok(message) => decoding(bytes@) == Some(message@),
            Err(CodecError::Malformed(reason)) => decoding(bytes@) is None && reason == refusal(bytes@),
            Err(CodecError::UnknownNotEncodable) => false,
        },
{
    match wire::unpack_frame(bytes) {
        Ok((tag, body)) => decode_body(tag, body.as_slice()),
        Err(e) => Err(CodecError::Malformed(wire::reason(e))),
    }
}

/// What is decoded is what was encoded, for every message whose bytes fit
/// in memory, whatever follows them.
pub proof fn law_decoding_inverts_encoding(m: MessageModel, rest: Seq<u8>)
    requires
        encoding(m) is Some,
        encoding(m)->0.len() <= usize::MAX,
        m matches MessageModel::Handshake { nonce, .. } ==> nonce.len() == 32,
    ensures
        decoding(encoding(m)->0 + rest) == Some(m),
{
    let (tag, body) = tagged(m)->0;
    wire::lemma_read_frame(tag, body, rest);
    match m {
        MessageModel::Handshake { version, capabilities, peer_id, nonce } => wire::lemma_read_hello(
            version,
            capabilities,
            peer_id,
            nonce,
        ),
        MessageModel::MouseMove { dx, dy } => wire::lemma_read_pair(dx, dy),
        MessageModel::MouseButton { button, pressed } => wire::lemma_read_choice(
            button.spec_index(),
            pressed,
        ),
        MessageModel::Scroll { dx, dy } => wire::lemma_read_pair(dx, dy),
        MessageModel::Key { usage, pressed } => wire::lemma_read_key(usage.0, pressed),
        MessageModel::Release { along } => wire::lemma_read_word(along),
        MessageModel::Enter { along } => wire::lemma_read_word(along),
        MessageModel::ClipboardText { text } => wire::lemma_read_text(text),
        MessageModel::FileOffer { name, size } => wire::lemma_read_offer(name, size),
        MessageModel::FileChunk { bytes } => wire::lemma_read_counted(bytes),
        _ => {},
    }
}

/// A message that lost bytes at its end is never read as another one.
pub proof fn law_a_cut_message_is_refused(m: MessageModel, k: int)
    requires
        encoding(m) is Some,
        encoding(m)->0.len() <= usize::MAX,
        0 <= k < encoding(m)->0.len(),
    ensures
        decoding(encoding(m)->0.take(k)) is None,
{
    let (tag, body) = tagged(m)->0;
    wire::lemma_read_frame_cut(tag, body, k);
}

/// A frame whose tag no message of this build has is decoded as unknown,
/// whatever its body: a newer peer does not break the connection.
pub proof fn law_an_unknown_tag_decodes_to_unknown(tag: u16, body: Seq<u8>)
    requires
        tag == 0 || tag > TAG_ENTER,
        body.len() <= usize::MAX,
    ensures
        decoding(wire::frame_bytes(tag, body)) == Some(MessageModel::Unknown),
{
    wire::lemma_read_frame(tag, body, Seq::empty());
    assert(wire::frame_bytes(tag, body) + Seq::<u8>::empty() =~= wire::frame_bytes(tag, body));
}

/// The numbers that messages go by on the wire, and the order of what they
/// carry, which stay what they are.
pub proof fn law_messages_keep_their_numbers(m: MessageModel)
    ensures
        ({
            let number: int = match m {
                MessageModel::Handshake { .. } => 1,
                MessageModel::MouseMove { .. } => 2,
                MessageModel::MouseButton { .. } => 3,
                MessageModel::Scroll { .. } => 4,
                MessageModel::Key { .. } => 5,
                MessageModel::ReleaseAllKeys => 6,
                MessageModel::Heartbeat => 7,
                MessageModel::Release { .. } => 8,
                MessageModel::ClipboardText { .. } => 9,
                MessageModel::FileOffer { .. } => 10,
                MessageModel::FileChunk { .. } => 11,
                MessageModel::FileEnd => 12,
                MessageModel::FileAbort => 13,
                MessageModel::Enter { .. } => 14,
                MessageModel::Unknown => 0,
            };
            match tagged(m) {
                Some((tag, body)) => tag == number && encoding(m) == Some(wire::frame_bytes(tag, body)),
                None => m is Unknown && encoding(m) is None,
            }
        }),
        m matches MessageModel::MouseButton { button, pressed } ==> tagged(m) == Some(
            (
                3u16,
                wire::choice_bytes(
                    match button {
                        Button::Left => 0,
                        Button::Right => 1,
                        Button::Middle => 2,
                    },
                    pressed,
                ),
            ),
        ),
        m is ReleaseAllKeys || m is Heartbeat || m is FileEnd || m is FileAbort ==> (tagged(m) matches Some((_, body))
            && body.len() == 0),
        m matches MessageModel::Handshake { version, capabilities, peer_id, nonce } ==> tagged(m) == Some(
            (1u16, wire::hello_bytes(version, capabilities, peer_id, nonce)),
        ),
        m matches MessageModel::MouseMove { dx, dy } ==> tagged(m) == Some((2u16, wire::pair_bytes(dx, dy))),
        m matches MessageModel::Scroll { dx, dy } ==> tagged(m) == Some((4u16, wire::pair_bytes(dx, dy))),
        m matches MessageModel::Key { usage, pressed } ==> tagged(m) == Some(
            (5u16, wire::varint(usage.0 as nat) + seq![if pressed { 1u8 } else { 0u8 }]),
        ),
        m matches MessageModel::Release { along } ==> tagged(m) == Some((8u16, spec_u32_to_le_bytes(along))),
        m matches MessageModel::Enter { along } ==> tagged(m) == Some((14u16, spec_u32_to_le_bytes(along))),
        m matches MessageModel::ClipboardText { text } ==> tagged(m) == Some((9u16, wire::text(text))),
        m matches MessageModel::FileOffer { name, size } ==> tagged(m) == Some((10u16, wire::offer_bytes(name, size))),
        m matches MessageModel::FileChunk { bytes } ==> tagged(m) == Some((11u16, wire::counted(bytes))),
        PROTOCOL_VERSION == 2,
{
}

/// A message without contents is read as one whatever follows its number, and
/// a button that there is not is refused.
pub proof fn law_a_number_stands_for_its_message(body: Seq<u8>, index: u32, pressed: bool)
    ensures
        untagged(6, body) == Some(MessageModel::ReleaseAllKeys),
        untagged(7, body) == Some(MessageModel::Heartbeat),
        untagged(12, body) == Some(MessageModel::FileEnd),
        untagged(13, body) == Some(MessageModel::FileAbort),
        index >= 3 ==> untagged(3, wire::choice_bytes(index, pressed)) is None,
{
    wire::lemma_read_choice(index, pressed);
}

} // verus!
