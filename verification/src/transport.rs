//! Frames on a byte stream: a length, then a sealed message.
//!
//! The reading and the writing of the stream are the caller's. This module
//! says what is written for a message, how much is read, and what comes of
//! it.

use vstd::bytes::*;
use vstd::prelude::*;

use crate::crypto::{open_directed, seal_directed, CryptoError, Direction, SessionId, SharedKey};
use crate::message::{Message, MessageModel};
use crate::replay::{ReplayState, ReplayWindow};

verus! {

/// Refuse absurd frames rather than allocating whatever a peer claims.
pub const MAX_FRAME: usize = 64 * 1024;

#[derive(Debug, Clone, PartialEq, Eq)]
pub enum TransportError {
    /// The stream failed, and how.
    Io(String),
    /// Decryption or authentication failed.
    Crypto,
    /// A frame that was already delivered was refused.
    Replay,
    FrameTooLarge,
    /// The peer closed cleanly, between frames.
    Closed,
    /// The peer vanished part way through a frame. Distinct from `Closed`
    /// because a truncation is a fault worth logging, not a graceful
    /// shutdown.
    Truncated,
}

impl TransportError {
    /// What went wrong, for a person to read.
    pub fn message(&self) -> (r: String)
        ensures
            r@ == self.spec_message(),
    {
        match self {
            TransportError::Io(reason) => "io: ".to_owned().concat(reason.as_str()),
            TransportError::Crypto => "decryption or authentication failed".to_owned(),
            TransportError::Replay => "replayed frame refused".to_owned(),
            TransportError::FrameTooLarge => "frame too large".to_owned(),
            TransportError::Closed => "peer closed the connection".to_owned(),
            TransportError::Truncated => "connection ended mid-frame".to_owned(),
        }
    }

    /// What went wrong, for a person to read.
    pub open spec fn spec_message(self) -> Seq<char> {
        match self {
            TransportError::Io(reason) => "io: "@ + reason@,
            TransportError::Crypto => "decryption or authentication failed"@,
            TransportError::Replay => "replayed frame refused"@,
            TransportError::FrameTooLarge => "frame too large"@,
            TransportError::Closed => "peer closed the connection"@,
            TransportError::Truncated => "connection ended mid-frame"@,
        }
    }
}

/// A frame's length as it is sent, highest byte first.
pub open spec fn length_bytes(len: u32) -> Seq<u8> {
    spec_u32_to_le_bytes(len).reverse()
}

/// The length that a prefix of four bytes announces.
pub open spec fn length_of(prefix: Seq<u8>) -> u32 {
    spec_u32_from_le_bytes(prefix.reverse())
}

/// What is written to the stream for a frame.
pub open spec fn on_the_wire(frame: Seq<u8>) -> Seq<u8> {
    length_bytes(frame.len() as u32) + frame
}

/// Convert a raw length prefix into a length we are willing to allocate.
/// The cap is enforced here, before any buffer is created, so that a peer
/// cannot make us allocate whatever size it claims.
pub fn validated_len(prefix: [u8; 4]) -> (r: Result<usize, TransportError>)
    ensures
        length_of(prefix@) <= MAX_FRAME ==> r == Ok::<usize, TransportError>(
            length_of(prefix@) as usize,
        ),
        length_of(prefix@) > MAX_FRAME ==> (r matches Err(e) && e is FrameTooLarge),
{
    let le: [u8; 4] = [prefix[3], prefix[2], prefix[1], prefix[0]];
    assert(le@ =~= prefix@.reverse());
    let len: u32 = u32_from_le_bytes(le.as_slice());
    if len > MAX_FRAME as u32 {
        return Err(TransportError::FrameTooLarge);
    }
    Ok(len as usize)
}

/// What it means that a read from the stream failed: an end of the stream
/// between frames is a clean close, one inside a frame is not, and
/// anything else is a failure of the stream itself.
pub fn read_failed(inside_frame: bool, at_end: bool, reason: String) -> (r: TransportError)
    ensures
        at_end && !inside_frame ==> r is Closed,
        at_end && inside_frame ==> r is Truncated,
        !at_end ==> (r matches TransportError::Io(why) && why@ == reason@),
{
    if at_end {
        if inside_frame {
            TransportError::Truncated
        } else {
            TransportError::Closed
        }
    } else {
        TransportError::Io(reason)
    }
}

/// Puts the length in front of a sealed frame, unless it is too large to
/// be sent.
pub fn enframe(frame: Vec<u8>) -> (r: Result<Vec<u8>, TransportError>)
    ensures
        frame@.len() <= MAX_FRAME ==> (r matches Ok(bytes) && bytes@ == on_the_wire(frame@)),
        frame@.len() > MAX_FRAME ==> (r matches Err(e) && e is FrameTooLarge),
{
    if frame.len() > MAX_FRAME {
        return Err(TransportError::FrameTooLarge);
    }
    let le: Vec<u8> = u32_to_le_bytes(frame.len() as u32);
    let mut bytes: Vec<u8> = vec![le[3], le[2], le[1], le[0]];
    assert(bytes@ =~= le@.reverse());
    bytes.extend_from_slice(frame.as_slice());
    assert(bytes@ =~= on_the_wire(frame@));
    Ok(bytes)
}

/// The receiving half of a transport. Owns the replay window for its
/// direction.
pub struct TransportReader {
    key: SharedKey,
    session: SessionId,
    direction: Direction,
    replay: ReplayWindow,
}

/// What a [`TransportReader`] goes by.
#[verifier::ext_equal]
pub struct ReaderState {
    pub key: Seq<u8>,
    pub session: Seq<u8>,
    pub direction: Direction,
    pub replay: ReplayState,
}

impl ReaderState {
    /// What opening a frame gives on this side.
    pub open spec fn opened(self, frame: Seq<u8>) -> Result<(u64, MessageModel), CryptoError> {
        crate::crypto::opened(self.key, self.session, Some(self.direction), frame)
    }

    /// What is remembered once a frame arrived. Only an authenticated
    /// frame is ever offered to the replay window.
    pub open spec fn received(self, frame: Seq<u8>) -> ReaderState {
        match self.opened(frame) {
            Err(_) => self,
            Ok((seq, _)) => ReaderState { replay: self.replay.offered(seq), ..self },
        }
    }

    /// What is remembered once several frames arrived, in order.
    pub open spec fn received_all(self, frames: Seq<Seq<u8>>) -> ReaderState
        decreases frames.len(),
    {
        if frames.len() == 0 {
            self
        } else {
            self.received_all(frames.drop_last()).received(frames.last())
        }
    }
}

impl View for TransportReader {
    type V = ReaderState;

    closed spec fn view(&self) -> ReaderState {
        ReaderState {
            key: self.key@,
            session: self.session@,
            direction: self.direction,
            replay: self.replay@,
        }
    }
}

/// The sending half of a transport. Owns the outbound sequence counter for
/// its direction.
pub struct TransportWriter {
    key: SharedKey,
    session: SessionId,
    direction: Direction,
    send_seq: u64,
}

/// What a [`TransportWriter`] goes by.
#[verifier::ext_equal]
pub struct WriterState {
    pub key: Seq<u8>,
    pub session: Seq<u8>,
    pub direction: Direction,
    pub send_seq: u64,
}

impl WriterState {
    /// The number of the next frame.
    pub open spec fn next_seq(self) -> u64 {
        u64::wrapping_add(self.send_seq, 1)
    }
}

impl View for TransportWriter {
    type V = WriterState;

    closed spec fn view(&self) -> WriterState {
        WriterState {
            key: self.key@,
            session: self.session@,
            direction: self.direction,
            send_seq: self.send_seq,
        }
    }
}

/// The reader of a peer that sends one way: it has seen nothing yet, and
/// reads what is sent the other way.
pub open spec fn reader_half(key: Seq<u8>, session: Seq<u8>, direction: Direction) -> ReaderState {
    ReaderState { key, session, direction: direction.spec_opposite(), replay: ReplayState::empty() }
}

/// The writer of a peer that sends one way, with nothing sent yet.
pub open spec fn writer_half(key: Seq<u8>, session: Seq<u8>, direction: Direction) -> WriterState {
    WriterState { key, session, direction, send_seq: 0 }
}

/// The two halves of a transport that sends in `direction`.
///
/// Each direction keeps its own sequence counter and its own replay
/// window, so the two directions cannot be mistaken for replays of each
/// other.
pub fn split(key: SharedKey, session: SessionId, direction: Direction) -> (r: (
    TransportReader,
    TransportWriter,
))
    ensures
        r.0@ == reader_half(key@, session@, direction),
        r.1@ == writer_half(key@, session@, direction),
{
    let reader_key: SharedKey = key.duplicate();
    (
        TransportReader {
            key: reader_key,
            session,
            direction: direction.opposite(),
            replay: ReplayWindow::new(),
        },
        TransportWriter { key, session, direction, send_seq: 0 },
    )
}

/// What sending may give: the bytes of a frame that the peer opens to the
/// message; or the reason why there is none. A frame that fits is refused
/// only if the system has no random bytes.
pub open spec fn sending(state: WriterState, message: MessageModel, r: Result<Vec<u8>, TransportError>) -> bool {
    match r {
        Ok(bytes) => exists|frame: Seq<u8>|
            #![trigger on_the_wire(frame)]
            {
                &&& bytes@ == on_the_wire(frame)
                &&& frame.len() <= MAX_FRAME
                &&& crate::message::encoding(message) matches Some(plaintext)
                &&& crate::crypto::made_of(
                    state.key,
                    state.session,
                    Some(state.direction),
                    state.next_seq(),
                    frame,
                    plaintext,
                )
                &&& crate::crypto::opened(state.key, state.session, Some(state.direction), frame)
                    == Ok::<(u64, MessageModel), CryptoError>((state.next_seq(), message))
            },
        Err(TransportError::FrameTooLarge) => crate::message::encoding(message) matches Some(plaintext)
            && plaintext.len() + crate::crypto::MIN_FRAME > MAX_FRAME,
        Err(TransportError::Crypto) => true,
        Err(_) => false,
    }
}

impl TransportWriter {
    /// The bytes to write to the stream for a message. Every call takes the
    /// next sequence number, whether or not it succeeds.
    ///
    /// Once a write of these bytes has failed, part of a frame may be on
    /// the wire: the connection is then to be re-established, not reused.
    pub fn send(&mut self, message: &Message) -> (r: Result<Vec<u8>, TransportError>)
        ensures
            final(self)@ == (WriterState { send_seq: old(self)@.next_seq(), ..old(self)@ }),
            sending(old(self)@, message@, r),
            crate::message::encoding(message@) is None ==> (r matches Err(e) && e is Crypto),
    {
        self.send_seq = self.send_seq.wrapping_add(1);
        match seal_directed(&self.key, self.session, self.direction, self.send_seq, message) {
            Ok(frame) => {
                let ghost sealed = frame@;
                let ghost plaintext = crate::message::encoding(message@)->0;
                assert(crate::crypto::made_of(
                    self@.key,
                    self@.session,
                    Some(self@.direction),
                    self@.send_seq,
                    sealed,
                    plaintext,
                ));
                let r = enframe(frame);
                assert(r is Ok ==> r->Ok_0@ == on_the_wire(sealed));
                r
            },
            Err(_) => Err(TransportError::Crypto),
        }
    }
}

impl TransportReader {
    /// The message in a frame that was read from the stream.
    pub fn recv(&mut self, frame: &[u8]) -> (r: Result<Message, TransportError>)
        ensures
            final(self)@ == old(self)@.received(frame@),
            match old(self)@.opened(frame@) {
                Err(_) => r matches Err(e) && e is Crypto,
                Ok((seq, m)) => if old(self)@.replay.fresh(seq) {
                    r matches Ok(message) && message@ == m
                } else {
                    r matches Err(e) && e is Replay
                },
            },
    {
        match open_directed(&self.key, self.session, self.direction, frame) {
            Err(_) => Err(TransportError::Crypto),
            Ok((seq, message)) => {
                if self.replay.accept(seq) {
                    Ok(message)
                } else {
                    Err(TransportError::Replay)
                }
            },
        }
    }
}

/// The numbers 1 to `n`, as a writer hands them out.
pub open spec fn first_numbers(n: nat) -> Seq<u64> {
    Seq::new(n, |i: int| (i + 1) as u64)
}

/// Frames that arrive in the order in which they were sent are all
/// accepted: after the first `n` of a connection, the next one is fresh.
pub proof fn law_frames_in_order_are_all_accepted(n: nat)
    requires
        n < u64::MAX,
    ensures
        ReplayState::empty().offered_all(first_numbers(n)).fresh((n + 1) as u64),
        n > 0 ==> ReplayState::empty().offered_all(first_numbers(n)).highest == Some(n as u64),
    decreases n,
{
    if n > 0 {
        law_frames_in_order_are_all_accepted((n - 1) as nat);
        assert(first_numbers(n).drop_last() =~= first_numbers((n - 1) as nat));
    }
}

proof fn lemma_on_the_wire(frame: Seq<u8>)
    requires
        frame.len() <= MAX_FRAME,
    ensures
        on_the_wire(frame).len() == frame.len() + 4,
        length_of(on_the_wire(frame).take(4)) == frame.len(),
        on_the_wire(frame).skip(4) == frame,
{
    lemma_auto_spec_u32_to_from_le_bytes();
    let prefix = length_bytes(frame.len() as u32);
    assert(prefix.reverse() =~= spec_u32_to_le_bytes(frame.len() as u32));
    assert(on_the_wire(frame).take(4) =~= prefix);
    assert(on_the_wire(frame).skip(4) =~= frame);
}

/// The frames in what was written to a stream.
pub open spec fn frames_in(sent: Seq<Vec<u8>>) -> Seq<Seq<u8>> {
    sent.map_values(|bytes: Vec<u8>| bytes@.skip(4))
}

/// Whether a writer that has sent nothing yet sent these messages as these
/// bytes, one after the other.
pub open spec fn all_sent(writer: WriterState, messages: Seq<MessageModel>, sent: Seq<Vec<u8>>) -> bool {
    &&& writer.send_seq == 0
    &&& messages.len() == sent.len()
    &&& sent.len() < u64::MAX
    &&& forall|i: int|
        0 <= i < sent.len() ==> #[trigger] sending(
            (WriterState { send_seq: i as u64, ..writer }),
            messages[i],
            Ok(sent[i]),
        )
}

/// Whether a reader that has received nothing yet reads what a writer
/// writes.
pub open spec fn reads_from(reader: ReaderState, writer: WriterState) -> bool {
    &&& reader.key == writer.key
    &&& reader.session == writer.session
    &&& reader.direction == writer.direction
    &&& reader.replay == ReplayState::empty()
}

proof fn lemma_frame_opens(reader: ReaderState, writer: WriterState, messages: Seq<MessageModel>, sent: Seq<Vec<u8>>, i: int)
    requires
        all_sent(writer, messages, sent),
        reads_from(reader, writer),
        0 <= i < sent.len(),
    ensures
        sent[i]@.len() >= 4,
        length_of(sent[i]@.take(4)) == sent[i]@.len() - 4,
        sent[i]@.len() - 4 <= MAX_FRAME,
        reader.opened(sent[i]@.skip(4)) == Ok::<(u64, MessageModel), CryptoError>(((i + 1) as u64, messages[i])),
{
    let state = WriterState { send_seq: i as u64, ..writer };
    assert(sending(state, messages[i], Ok(sent[i])));
    let frame = choose|frame: Seq<u8>|
        #![trigger on_the_wire(frame)]
        {
            &&& sent[i]@ == on_the_wire(frame)
            &&& frame.len() <= MAX_FRAME
            &&& crate::crypto::opened(state.key, state.session, Some(state.direction), frame)
                == Ok::<(u64, MessageModel), CryptoError>((state.next_seq(), messages[i]))
        };
    lemma_on_the_wire(frame);
    assert(state.next_seq() == i + 1);
}

proof fn lemma_reader_after(reader: ReaderState, writer: WriterState, messages: Seq<MessageModel>, sent: Seq<Vec<u8>>, n: int)
    requires
        all_sent(writer, messages, sent),
        reads_from(reader, writer),
        0 <= n <= sent.len(),
    ensures
        reader.received_all(frames_in(sent).take(n)) == (ReaderState {
            replay: ReplayState::empty().offered_all(first_numbers(n as nat)),
            ..reader
        }),
    decreases n,
{
    let frames = frames_in(sent);
    if n == 0 {
        assert(frames.take(0) =~= Seq::<Seq<u8>>::empty());
        assert(first_numbers(0) =~= Seq::<u64>::empty());
    } else {
        lemma_reader_after(reader, writer, messages, sent, n - 1);
        lemma_frame_opens(reader, writer, messages, sent, n - 1);
        assert(frames.take(n).drop_last() =~= frames.take(n - 1));
        assert(frames.take(n).last() == sent[n - 1]@.skip(4));
        assert(first_numbers(n as nat).drop_last() =~= first_numbers((n - 1) as nat));
        assert(first_numbers(n as nat).last() == n as u64);
    }
}

/// What is sent arrives, whole and in order: each length that is read is
/// that of the frame behind it, and each frame opens to its message and is
/// taken for a new one.
pub proof fn law_what_is_sent_arrives_in_order(
    reader: ReaderState,
    writer: WriterState,
    messages: Seq<MessageModel>,
    sent: Seq<Vec<u8>>,
    i: int,
)
    requires
        all_sent(writer, messages, sent),
        reads_from(reader, writer),
        0 <= i < sent.len(),
    ensures
        sent[i]@.len() >= 4,
        length_of(sent[i]@.take(4)) == sent[i]@.len() - 4,
        sent[i]@.len() - 4 <= MAX_FRAME,
        ({
            let state = reader.received_all(frames_in(sent).take(i));
            &&& state.opened(sent[i]@.skip(4)) matches Ok((seq, m))
            &&& m == messages[i]
            &&& state.replay.fresh(seq)
        }),
{
    lemma_frame_opens(reader, writer, messages, sent, i);
    lemma_reader_after(reader, writer, messages, sent, i);
    law_frames_in_order_are_all_accepted(i as nat);
}

/// A frame that was delivered once is never delivered again, whatever
/// arrives in between.
pub proof fn law_a_replayed_frame_is_refused(reader: ReaderState, frames: Seq<Seq<u8>>, i: int, j: int)
    requires
        0 <= i < j < frames.len(),
        frames[i] == frames[j],
    ensures
        reader.received_all(frames.take(j)).opened(frames[j]) matches Ok((seq, _)) ==> !reader.received_all(
            frames.take(j),
        ).replay.fresh(seq),
{
    lemma_same_keys(reader, frames.take(j));
    if reader.opened(frames[j]) is Ok {
        let seq = reader.opened(frames[j])->Ok_0.0;
        lemma_taken(reader, frames.take(j), i, seq);
    }
}

proof fn lemma_same_keys(reader: ReaderState, frames: Seq<Seq<u8>>)
    ensures
        reader.received_all(frames).key == reader.key,
        reader.received_all(frames).session == reader.session,
        reader.received_all(frames).direction == reader.direction,
    decreases frames.len(),
{
    if frames.len() > 0 {
        lemma_same_keys(reader, frames.drop_last());
    }
}

/// Once a number was offered it stays taken.
proof fn lemma_taken(reader: ReaderState, frames: Seq<Seq<u8>>, i: int, seq: u64)
    requires
        0 <= i < frames.len(),
        reader.opened(frames[i]) is Ok,
        reader.opened(frames[i])->Ok_0.0 == seq,
    ensures
        !reader.received_all(frames).replay.fresh(seq),
    decreases frames.len(),
{
    lemma_same_keys(reader, frames.drop_last());
    if i < frames.len() - 1 {
        assert(frames.drop_last()[i] == frames[i]);
        lemma_taken(reader, frames.drop_last(), i, seq);
    }
}

/// A frame that does not authenticate changes nothing: it cannot use up a
/// number that a real frame will need.
pub proof fn law_a_forged_frame_changes_nothing(reader: ReaderState, frame: Seq<u8>)
    requires
        reader.opened(frame) is Err,
    ensures
        reader.received(frame) == reader,
{
}

/// A frame that comes back to the peer that sent it is checked there against
/// other data than it was sealed with.
pub proof fn law_a_reflected_frame_is_checked_against_other_data(session: Seq<u8>, direction: Direction, seq1: u64, seq2: u64)
    requires
        session.len() == 32,
    ensures
        crate::crypto::associated_data(session, Some(direction), seq1)
            != crate::crypto::associated_data(session, Some(direction.spec_opposite()), seq2),
{
    if crate::crypto::associated_data(session, Some(direction), seq1)
        == crate::crypto::associated_data(session, Some(direction.spec_opposite()), seq2) {
        crate::crypto::law_associated_data_tells_frames_apart(
            session,
            Some(direction),
            seq1,
            session,
            Some(direction.spec_opposite()),
            seq2,
        );
    }
}

proof fn lemma_short_counts(n: nat)
    requires
        n < 0x20_0000,
    ensures
        crate::wire::varint(n).len() <= 3,
{
    reveal_with_fuel(crate::wire::varint, 3);
}

/// A message whose body is short enough for the transport always fits in a
/// frame.
proof fn lemma_fits(tag: u16, body: Seq<u8>)
    requires
        tag < 128,
        body.len() <= 65_000,
    ensures
        crate::wire::frame_bytes(tag, body).len() + crate::crypto::MIN_FRAME <= MAX_FRAME,
{
    lemma_short_counts(body.len());
}

/// Clipboard text that is short enough to be sent fits in a frame.
pub proof fn law_clipboard_text_fits_in_a_frame(text: Seq<char>)
    requires
        vstd::utf8::encode_utf8(text).len() <= crate::clipboard::MAX_CLIPBOARD_BYTES,
    ensures
        crate::message::encoding(MessageModel::ClipboardText { text })->0.len()
            + crate::crypto::MIN_FRAME <= MAX_FRAME,
{
    lemma_short_counts(vstd::utf8::encode_utf8(text).len());
    lemma_fits(crate::message::TAG_CLIPBOARD_TEXT, crate::wire::text(text));
}

/// A chunk of a file fits in a frame.
pub proof fn law_a_file_chunk_fits_in_a_frame(bytes: Seq<u8>)
    requires
        bytes.len() <= crate::filetransfer::CHUNK_BYTES,
    ensures
        crate::message::encoding(MessageModel::FileChunk { bytes })->0.len()
            + crate::crypto::MIN_FRAME <= MAX_FRAME,
{
    lemma_short_counts(bytes.len());
    lemma_fits(crate::message::TAG_FILE_CHUNK, crate::wire::counted(bytes));
}

/// Every message of a fixed shape fits in a frame with plenty of room.
pub proof fn law_input_messages_fit_in_a_frame(m: MessageModel)
    requires
        m is MouseMove || m is MouseButton || m is Scroll || m is Key || m is ReleaseAllKeys
            || m is Heartbeat || m is Release || m is Enter || m is FileEnd || m is FileAbort,
    ensures
        crate::message::encoding(m)->0.len() + crate::crypto::MIN_FRAME <= 100,
{
    reveal_with_fuel(crate::wire::varint, 6);
    lemma_auto_spec_u32_to_from_le_bytes();
}

/// On the stream a frame comes behind its length, in four bytes, the highest
/// first. What is read from the four bytes is what was written.
pub proof fn law_the_length_comes_first_highest_byte_first(frame: Seq<u8>)
    requires
        frame.len() <= 65_536,
    ensures
        on_the_wire(frame).len() == 4 + frame.len(),
        forall|i: int|
            0 <= i < 4 ==> #[trigger] on_the_wire(frame)[i] == spec_u32_to_le_bytes(frame.len() as u32)[3 - i],
        forall|i: int| 0 <= i < frame.len() ==> #[trigger] on_the_wire(frame)[4 + i] == frame[i],
        length_of(on_the_wire(frame).take(4)) == frame.len(),
        MAX_FRAME == 65_536,
{
    lemma_auto_spec_u32_to_from_le_bytes();
    lemma_on_the_wire(frame);
}

/// The four bytes of a length are read the highest first, whatever they are.
pub proof fn law_a_length_is_read_highest_byte_first(a: u8, b: u8, c: u8, d: u8)
    ensures
        length_of(seq![a, b, c, d]) == spec_u32_from_le_bytes(seq![d, c, b, a]),
{
    assert(seq![a, b, c, d].reverse() =~= seq![d, c, b, a]);
}

/// The two peers of a connection read each other and neither reads itself:
/// what goes one way is for the peer at that end, with numbers from one on.
pub proof fn law_each_peer_reads_the_other_and_not_itself(key: Seq<u8>, session: Seq<u8>)
    ensures
        ({
            let client = Direction::ClientToServer;
            let server = Direction::ServerToClient;
            &&& reads_from(reader_half(key, session, server), writer_half(key, session, client))
            &&& reads_from(reader_half(key, session, client), writer_half(key, session, server))
            &&& !reads_from(reader_half(key, session, client), writer_half(key, session, client))
            &&& !reads_from(reader_half(key, session, server), writer_half(key, session, server))
            &&& writer_half(key, session, client).direction == client
            &&& writer_half(key, session, server).direction == server
            &&& writer_half(key, session, client).next_seq() == 1
            &&& writer_half(key, session, server).next_seq() == 1
        }),
{
}

} // verus!
