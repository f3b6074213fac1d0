//! Sending a copied file, and receiving one safely.
//!
//! Everything on the receiving side treats the sender as untrusted. A peer
//! telling us to write a file to disk is the most dangerous thing in this
//! protocol, so the rules are:
//!
//! - The offered name is a bare file name, never a path. A name containing
//!   a separator, a `..` component, a drive prefix or a null character is
//!   rejected outright rather than sanitised.
//! - Nothing is written outside the staging directory the caller chooses.
//! - The offered size is a cap, not a promise. A peer that keeps sending
//!   chunks past it is refused rather than allowed to fill the disk.
//! - A transfer that never completes is never published, so a truncated
//!   file is never presented as a whole one.

use vstd::prelude::*;

use crate::clipboard::LocalChange;
use crate::config::{FilePath, PathModel};
use crate::message::{Message, MessageModel};
use crate::text;

verus! {

/// Largest file hop will accept or send.
pub const MAX_FILE_BYTES: u64 = 100 * 1024 * 1024;

/// How much file content goes in one frame.
///
/// The transport refuses frames above 64 KiB, and a chunk has to fit in one
/// alongside its framing, sequence number, nonce and tag. 48 KiB leaves
/// ample room without wasting round trips.
pub const CHUNK_BYTES: usize = 48 * 1024;

#[derive(Debug, Clone, PartialEq, Eq)]
pub enum FileError {
    /// The peer offered a file name that is not a bare name.
    UnsafeName(String),
    /// The peer offered more than the limit.
    TooLarge { size: u64, max: u64 },
    /// The peer sent more data than it offered.
    Overrun,
    /// A file chunk came without an offer.
    NoOffer,
}

/// The form of text that `format!` gives for `{:?}`.
pub uninterp spec fn debug_text(s: Seq<char>) -> Seq<char>;

/// `format!` of a string with `{:?}`: in quotation marks, with escapes, so
/// that what a peer sent cannot put control characters into a log.
/// Claimed: the same text always has the same form.
#[verifier::external_body]
fn debug_form(s: &str) -> (r: String)
    ensures
        r@ == debug_text(s@),
{
    format!("{:?}", s)
}

impl FileError {
    /// What went wrong, for a person to read.
    pub fn message(&self) -> (r: String)
        ensures
            r@ == match *self {
                FileError::UnsafeName(name) => "the peer offered a file name that is not a bare name: "@
                    + debug_text(name@),
                FileError::TooLarge { size, max } => "the peer offered "@ + crate::text::decimal(
                    size as nat,
                ) + " bytes, over the "@ + crate::text::decimal(max as nat) + " byte limit"@,
                FileError::Overrun => "the peer sent more data than it offered"@,
                FileError::NoOffer => "received a file chunk without an offer"@,
            },
    {
        match self {
            FileError::UnsafeName(name) => "the peer offered a file name that is not a bare name: ".to_owned().concat(
                debug_form(name.as_str()).as_str(),
            ),
            FileError::TooLarge { size, max } => {
                let size_text: String = text::decimal_text(*size);
                let max_text: String = text::decimal_text(*max);
                "the peer offered ".to_owned().concat(size_text.as_str()).concat(
                    " bytes, over the ",
                ).concat(max_text.as_str()).concat(" byte limit")
            },
            FileError::Overrun => "the peer sent more data than it offered".to_owned(),
            FileError::NoOffer => "received a file chunk without an offer".to_owned(),
        }
    }
}

/// Whether text starts like a path on a drive: a letter, then a colon.
pub open spec fn has_drive_prefix(name: Seq<char>) -> bool {
    name.len() >= 2 && name[1] == ':' && (('a' <= name[0] && name[0] <= 'z') || ('A' <= name[0]
        && name[0] <= 'Z'))
}

/// Whether text is a plain file name: one component, and no special
/// directory entry.
pub open spec fn bare_name(name: Seq<char>) -> bool {
    &&& name.len() > 0
    &&& !name.contains('/')
    &&& !name.contains('\\')
    &&& !name.contains('\0')
    &&& name != seq!['.']
    &&& name != seq!['.', '.']
    &&& !has_drive_prefix(name)
}

/// Reject anything that is not a plain file name.
pub fn safe_file_name(name: &str) -> (r: Result<&str, FileError>)
    ensures
        match r {
            Ok(safe) => safe@ == name@ && bare_name(name@),
            Err(FileError::UnsafeName(refused)) => refused@ == name@ && !bare_name(name@),
            Err(_) => false,
        },
{
    let cs: Vec<char> = text::chars(name);
    let dot: bool = cs.len() == 1 && cs[0] == '.';
    let dots: bool = cs.len() == 2 && cs[0] == '.' && cs[1] == '.';
    let drive: bool = cs.len() >= 2 && cs[1] == ':' && (('a' <= cs[0] && cs[0] <= 'z') || ('A'
        <= cs[0] && cs[0] <= 'Z'));
    proof {
        if dot {
            assert(name@ =~= seq!['.']);
        }
        if dots {
            assert(name@ =~= seq!['.', '.']);
        }
    }
    if cs.len() == 0 || text::contains(&cs, '/') || text::contains(&cs, '\\') || text::contains(
        &cs,
        '\0',
    ) || dot || dots || drive {
        return Err(FileError::UnsafeName(name.to_owned()));
    }
    Ok(name)
}

/// A file being received, one chunk at a time.
#[derive(Debug)]
pub struct FileReceive {
    staging: String,
    name: String,
    expected: u64,
    buffer: Vec<u8>,
}

/// What a [`FileReceive`] goes by.
#[verifier::ext_equal]
pub struct ReceiveState {
    pub staging: Seq<char>,
    pub name: Seq<char>,
    pub expected: u64,
    pub data: Seq<u8>,
}

impl ReceiveState {
    /// Whether everything that was offered has arrived.
    pub open spec fn complete(self) -> bool {
        self.data.len() == self.expected
    }

    /// A further chunk arrived; there is no such state if that is more
    /// than was offered.
    pub open spec fn fed(self, chunk: Seq<u8>) -> Option<ReceiveState> {
        if self.data.len() + chunk.len() > self.expected {
            None
        } else {
            Some(ReceiveState { data: self.data + chunk, ..self })
        }
    }

    /// Further chunks arrived in turn.
    pub open spec fn fed_all(self, chunks: Seq<Seq<u8>>) -> Option<ReceiveState>
        decreases chunks.len(),
    {
        if chunks.len() == 0 {
            Some(self)
        } else {
            match self.fed(chunks[0]) {
                None => None,
                Some(next) => next.fed_all(chunks.skip(1)),
            }
        }
    }
}

/// Where a file of a name lies in a directory.
pub open spec fn inside(directory: Seq<char>, name: Seq<char>) -> PathModel {
    PathModel { base: directory, below: Some(name) }
}

impl View for FileReceive {
    type V = ReceiveState;

    closed spec fn view(&self) -> ReceiveState {
        ReceiveState {
            staging: self.staging@,
            name: self.name@,
            expected: self.expected,
            data: self.buffer@,
        }
    }
}

impl FileReceive {
    #[verifier::type_invariant]
    spec fn within_offer(self) -> bool {
        &&& bare_name(self.name@)
        &&& self.buffer@.len() <= self.expected <= MAX_FILE_BYTES
    }

    /// Begin receiving, validating what the peer claims before any of it
    /// is believed.
    pub fn begin(staging: &str, name: &str, size: u64) -> (r: Result<FileReceive, FileError>)
        ensures
            match r {
                Ok(file) => {
                    &&& bare_name(name@)
                    &&& size <= MAX_FILE_BYTES
                    &&& file@ == (ReceiveState {
                        staging: staging@,
                        name: name@,
                        expected: size,
                        data: Seq::empty(),
                    })
                },
                Err(FileError::UnsafeName(refused)) => refused@ == name@ && !bare_name(name@),
                Err(FileError::TooLarge { size: offered, max }) => {
                    &&& bare_name(name@)
                    &&& offered == size
                    &&& max == MAX_FILE_BYTES
                    &&& size > MAX_FILE_BYTES
                },
                Err(_) => false,
            },
    {
        match safe_file_name(name) {
            Err(e) => Err(e),
            Ok(safe) => {
                if size > MAX_FILE_BYTES {
                    return Err(FileError::TooLarge { size, max: MAX_FILE_BYTES });
                }
                Ok(
                    FileReceive {
                        staging: staging.to_owned(),
                        name: safe.to_owned(),
                        expected: size,
                        buffer: Vec::new(),
                    },
                )
            },
        }
    }

    /// Take one chunk. Refuses to accept more than was offered, so a peer
    /// cannot use a small offer to smuggle a large file.
    pub fn chunk(&mut self, bytes: &[u8]) -> (r: Result<(), FileError>)
        ensures
            match old(self)@.fed(bytes@) {
                Some(next) => r is Ok && final(self)@ == next,
                None => r == Err::<(), FileError>(FileError::Overrun) && final(self)@ == old(self)@,
            },
    {
        proof {
            use_type_invariant(&*self);
        }
        if bytes.len() as u64 > self.expected - self.buffer.len() as u64 {
            return Err(FileError::Overrun);
        }
        let mut buffer: Vec<u8> = Vec::new();
        core::mem::swap(&mut buffer, &mut self.buffer);
        buffer.extend_from_slice(bytes);
        assert(buffer@ =~= old(self)@.data + bytes@);
        self.buffer = buffer;
        Ok(())
    }

    /// Where the completed file will be written: directly in the staging
    /// directory.
    pub fn destination(&self) -> (r: FilePath)
        ensures
            r@ == inside(self@.staging, self@.name),
            bare_name(self@.name),
    {
        proof {
            use_type_invariant(self);
        }
        FilePath { base: self.staging.clone(), below: Some(self.name.clone()) }
    }

    pub fn is_complete(&self) -> (r: bool)
        ensures
            r == self@.complete(),
    {
        self.buffer.len() as u64 == self.expected
    }

    /// How many bytes have arrived.
    pub fn received(&self) -> (r: u64)
        ensures
            r == self@.data.len(),
            r <= self@.expected,
    {
        proof {
            use_type_invariant(self);
        }
        self.buffer.len() as u64
    }

    /// How many bytes were offered.
    pub fn expected(&self) -> (r: u64)
        ensures
            r == self@.expected,
            r <= MAX_FILE_BYTES,
    {
        proof {
            use_type_invariant(self);
        }
        self.expected
    }

    /// The bytes, for the caller to write out once complete.
    pub fn into_bytes(self) -> (r: Vec<u8>)
        ensures
            r@ == self@.data,
    {
        self.buffer
    }
}

/// A file cut into pieces that fit in a frame.
pub open spec fn chunked(bytes: Seq<u8>) -> Seq<Seq<u8>>
    decreases bytes.len(),
{
    if bytes.len() == 0 {
        Seq::empty()
    } else if bytes.len() <= CHUNK_BYTES {
        seq![bytes]
    } else {
        seq![bytes.take(CHUNK_BYTES as int)] + chunked(bytes.skip(CHUNK_BYTES as int))
    }
}

/// The messages of some chunks.
pub open spec fn chunk_messages(chunks: Seq<Seq<u8>>) -> Seq<MessageModel> {
    chunks.map_values(|bytes: Seq<u8>| MessageModel::FileChunk { bytes })
}

/// What is sent for a file: an offer, its chunks, and an end marker.
pub open spec fn file_messages(name: Seq<char>, bytes: Seq<u8>) -> Seq<MessageModel> {
    seq![MessageModel::FileOffer { name, size: bytes.len() as u64 }] + chunk_messages(
        chunked(bytes),
    ) + seq![MessageModel::FileEnd]
}

/// What is sent for a local change: text in one message; a file as an
/// offer, a run of chunks and an end marker. A file that cannot be read,
/// is too large or has no name is not sent at all.
pub open spec fn outgoing(change: LocalChange, name: Option<Seq<char>>, bytes: Option<Seq<u8>>) -> Seq<MessageModel> {
    match change {
        LocalChange::Text(text) => seq![MessageModel::ClipboardText { text: text@ }],
        LocalChange::File(_) => match (name, bytes) {
            (Some(n), Some(b)) => if b.len() <= MAX_FILE_BYTES {
                file_messages(n, b)
            } else {
                Seq::empty()
            },
            _ => Seq::empty(),
        },
    }
}

/// What messages say.
pub open spec fn models(messages: Seq<Message>) -> Seq<MessageModel> {
    messages.map_values(|m: Message| m@)
}

/// Appends the chunks of a file to the messages to send.
fn push_chunks(messages: &mut Vec<Message>, bytes: &[u8])
    ensures
        models(final(messages)@) == models(old(messages)@) + chunk_messages(chunked(bytes@)),
{
    let ghost whole = bytes@;
    let ghost before = models(messages@);
    let total: usize = bytes.len();
    let mut at: usize = 0;
    assert(whole.skip(0) =~= whole);
    assert(before =~= models(messages@) + chunk_messages(Seq::<Seq<u8>>::empty()));
    while at < total
        invariant
            at <= total,
            total == bytes@.len(),
            whole == bytes@,
            models(messages@) + chunk_messages(chunked(whole.skip(at as int))) == before
                + chunk_messages(chunked(whole)),
        decreases bytes@.len() - at,
    {
        let left: usize = total - at;
        let n: usize = if left <= CHUNK_BYTES {
            left
        } else {
            CHUNK_BYTES
        };
        let mut piece: Vec<u8> = Vec::new();
        let mut i: usize = 0;
        while i < n
            invariant
                i <= n,
                at + n <= total,
                total == bytes@.len(),
                piece@ == bytes@.subrange(at as int, at + i),
            decreases n - i,
        {
            piece.push(bytes[at + i]);
            i = i + 1;
            assert(piece@ =~= bytes@.subrange(at as int, at + i));
        }
        let ghost rest = whole.skip(at as int);
        let ghost p = piece@;
        let ghost was = models(messages@);
        messages.push(Message::FileChunk(piece));
        proof {
            assert(p =~= rest.take(n as int));
            assert(models(messages@) =~= was.push(MessageModel::FileChunk { bytes: p }));
            assert(rest.skip(n as int) =~= whole.skip(at + n));
            if left <= CHUNK_BYTES {
                assert(p =~= rest);
                assert(chunked(rest) =~= seq![p]);
                assert(chunked(rest.skip(n as int)) =~= Seq::<Seq<u8>>::empty());
            }
            assert(chunked(rest) =~= seq![p] + chunked(whole.skip(at + n)));
            assert(chunk_messages(chunked(rest)) =~= seq![MessageModel::FileChunk { bytes: p }]
                + chunk_messages(chunked(whole.skip(at + n))));
            assert(models(messages@) + chunk_messages(chunked(whole.skip(at + n))) =~= was
                + chunk_messages(chunked(rest)));
        }
        at = at + n;
    }
    assert(whole.skip(at as int) =~= Seq::<u8>::empty());
    assert(models(messages@) =~= models(messages@) + chunk_messages(chunked(Seq::<u8>::empty())));
}

/// The messages to send for a local change. For a file the caller gives
/// the last component of its path, and its contents if they can be read.
pub fn send_local_change(change: LocalChange, name: Option<String>, bytes: Option<Vec<u8>>) -> (r: Vec<Message>)
    ensures
        models(r@) == outgoing(
            change,
            match name {
                None => None,
                Some(n) => Some(n@),
            },
            match bytes {
                None => None,
                Some(b) => Some(b@),
            },
        ),
{
    let mut messages: Vec<Message> = Vec::new();
    match change {
        LocalChange::Text(text) => {
            let ghost chars = text@;
            messages.push(Message::ClipboardText(text));
            assert(models(messages@) =~= seq![MessageModel::ClipboardText { text: chars }]);
        },
        LocalChange::File(_) => match (name, bytes) {
            (Some(n), Some(b)) => {
                if b.len() as u64 <= MAX_FILE_BYTES {
                    let ghost offer = MessageModel::FileOffer { name: n@, size: b@.len() as u64 };
                    messages.push(Message::FileOffer { name: n, size: b.len() as u64 });
                    assert(models(messages@) =~= seq![offer]);
                    push_chunks(&mut messages, b.as_slice());
                    let ghost so_far = models(messages@);
                    messages.push(Message::FileEnd);
                    assert(models(messages@) =~= so_far.push(MessageModel::FileEnd));
                    assert(models(messages@) =~= so_far + seq![MessageModel::FileEnd]);
                } else {
                    assert(models(messages@) =~= Seq::<MessageModel>::empty());
                }
            },
            _ => {
                assert(models(messages@) =~= Seq::<MessageModel>::empty());
            },
        },
    }
    messages
}

/// A file that is sent arrives as it was: feeding its chunks to a receiver
/// that began with its offer completes it, with the same bytes.
pub proof fn law_a_sent_file_arrives_whole(start: ReceiveState, bytes: Seq<u8>)
    requires
        start.data.len() + bytes.len() == start.expected,
    ensures
        start.fed_all(chunked(bytes)) == Some(ReceiveState { data: start.data + bytes, ..start }),
        start.fed_all(chunked(bytes))->0.complete(),
    decreases bytes.len(),
{
    let chunks = chunked(bytes);
    if bytes.len() == 0 {
        assert(start.data + bytes =~= start.data);
    } else if bytes.len() <= CHUNK_BYTES {
        let next = ReceiveState { data: start.data + bytes, ..start };
        assert(chunks.skip(1) =~= Seq::<Seq<u8>>::empty());
        assert(next.fed_all(Seq::<Seq<u8>>::empty()) == Some(next));
    } else {
        let head = bytes.take(CHUNK_BYTES as int);
        let tail = bytes.skip(CHUNK_BYTES as int);
        let next = ReceiveState { data: start.data + head, ..start };
        law_a_sent_file_arrives_whole(next, tail);
        assert(chunks[0] == head);
        assert(chunks.skip(1) =~= chunked(tail));
        assert(start.data + head + tail =~= start.data + bytes);
    }
}

/// Every chunk of a sent file fits in a frame, and none is empty.
pub proof fn law_no_chunk_is_too_large(bytes: Seq<u8>, i: int)
    requires
        0 <= i < chunked(bytes).len(),
    ensures
        0 < chunked(bytes)[i].len() <= CHUNK_BYTES,
    decreases bytes.len(),
{
    if bytes.len() > CHUNK_BYTES && i > 0 {
        law_no_chunk_is_too_large(bytes.skip(CHUNK_BYTES as int), i - 1);
    }
}

/// However a peer cuts what it sends, a receiver never holds more than was
/// offered, and its name and place stay what they were.
pub proof fn law_an_offer_is_a_cap(start: ReceiveState, chunks: Seq<Seq<u8>>)
    requires
        start.data.len() <= start.expected,
        start.fed_all(chunks) is Some,
    ensures
        start.fed_all(chunks)->0.data.len() <= start.expected,
        start.fed_all(chunks)->0.expected == start.expected,
        start.fed_all(chunks)->0.name == start.name,
        start.fed_all(chunks)->0.staging == start.staging,
    decreases chunks.len(),
{
    if chunks.len() > 0 {
        law_an_offer_is_a_cap(start.fed(chunks[0])->0, chunks.skip(1));
    }
}

/// What came of a message about a file.
#[derive(Debug, PartialEq, Eq)]
pub enum FileOutcome {
    /// There is nothing to do yet.
    Nothing,
    /// A whole file arrived: these bytes are to be written there.
    Arrived { destination: FilePath, bytes: Vec<u8> },
    /// What had arrived was thrown away.
    Discarded,
}

/// What came of a message about a file, with text and bytes as sequences.
#[verifier::ext_equal]
pub enum OutcomeModel {
    Nothing,
    Arrived { destination: PathModel, bytes: Seq<u8> },
    Discarded,
    /// The offer was refused for its name.
    UnsafeName { name: Seq<char> },
    /// The offer was refused for its size.
    TooLarge { size: u64 },
    /// There was more data than was offered.
    Overrun,
    /// There was data without an offer.
    NoOffer,
}

/// What a receiver makes of a message: what it holds afterwards, and what
/// comes of it. A refused offer, too much data and an early end all throw
/// away what had arrived.
pub open spec fn inbox_step(
    current: Option<ReceiveState>,
    staging: Seq<char>,
    m: MessageModel,
) -> (Option<ReceiveState>, OutcomeModel) {
    match m {
        MessageModel::FileOffer { name, size } => if !bare_name(name) {
            (None, OutcomeModel::UnsafeName { name })
        } else if size > MAX_FILE_BYTES {
            (None, OutcomeModel::TooLarge { size })
        } else {
            (
                Some(ReceiveState { staging, name, expected: size, data: Seq::empty() }),
                OutcomeModel::Nothing,
            )
        },
        MessageModel::FileChunk { bytes } => match current {
            None => (None, OutcomeModel::NoOffer),
            Some(state) => match state.fed(bytes) {
                None => (None, OutcomeModel::Overrun),
                Some(next) => (Some(next), OutcomeModel::Nothing),
            },
        },
        MessageModel::FileEnd => match current {
            None => (None, OutcomeModel::Nothing),
            Some(state) => if state.complete() {
                (
                    None,
                    OutcomeModel::Arrived {
                        destination: inside(state.staging, state.name),
                        bytes: state.data,
                    },
                )
            } else {
                (None, OutcomeModel::Discarded)
            },
        },
        MessageModel::FileAbort => match current {
            None => (None, OutcomeModel::Nothing),
            Some(_) => (None, OutcomeModel::Discarded),
        },
        _ => (current, OutcomeModel::Nothing),
    }
}

/// Whether a result is what a model says.
pub open spec fn outcome_is(r: Result<FileOutcome, FileError>, model: OutcomeModel) -> bool {
    match model {
        OutcomeModel::Nothing => r matches Ok(FileOutcome::Nothing),
        OutcomeModel::Arrived { destination, bytes } => r matches Ok(
            FileOutcome::Arrived { destination: d, bytes: b },
        ) && d@ == destination && b@ == bytes,
        OutcomeModel::Discarded => r matches Ok(FileOutcome::Discarded),
        OutcomeModel::UnsafeName { name } => r matches Err(FileError::UnsafeName(refused)) && refused@ == name,
        OutcomeModel::TooLarge { size } => r matches Err(FileError::TooLarge { size: offered, max }) && offered
            == size && max == MAX_FILE_BYTES,
        OutcomeModel::Overrun => r matches Err(FileError::Overrun),
        OutcomeModel::NoOffer => r matches Err(FileError::NoOffer),
    }
}

/// The file that is being received, if any.
#[derive(Debug)]
pub struct FileInbox {
    current: Option<FileReceive>,
}

impl View for FileInbox {
    type V = Option<ReceiveState>;

    closed spec fn view(&self) -> Option<ReceiveState> {
        match self.current {
            None => None,
            Some(file) => Some(file@),
        }
    }
}

impl Default for FileInbox {
    fn default() -> (r: FileInbox)
        ensures
            r@ is None,
    {
        FileInbox { current: None }
    }
}

impl FileInbox {
    pub fn new() -> (r: FileInbox)
        ensures
            r@ is None,
    {
        Self::default()
    }

    /// Takes note of a message from the peer.
    pub fn on_message(&mut self, staging: &str, message: Message) -> (r: Result<FileOutcome, FileError>)
        ensures
            final(self)@ == inbox_step(old(self)@, staging@, message@).0,
            outcome_is(r, inbox_step(old(self)@, staging@, message@).1),
    {
        match message {
            Message::FileOffer { name, size } => {
                self.current = None;
                match FileReceive::begin(staging, name.as_str(), size) {
                    Ok(file) => {
                        self.current = Some(file);
                        Ok(FileOutcome::Nothing)
                    },
                    Err(e) => Err(e),
                }
            },
            Message::FileChunk(bytes) => match self.current.take() {
                None => Err(FileError::NoOffer),
                Some(mut file) => match file.chunk(bytes.as_slice()) {
                    Ok(()) => {
                        self.current = Some(file);
                        Ok(FileOutcome::Nothing)
                    },
                    Err(e) => Err(e),
                },
            },
            Message::FileEnd => match self.current.take() {
                None => Ok(FileOutcome::Nothing),
                Some(file) => {
                    if file.is_complete() {
                        let destination: FilePath = file.destination();
                        let bytes: Vec<u8> = file.into_bytes();
                        Ok(FileOutcome::Arrived { destination, bytes })
                    } else {
                        Ok(FileOutcome::Discarded)
                    }
                },
            },
            Message::FileAbort => match self.current.take() {
                None => Ok(FileOutcome::Nothing),
                Some(_) => Ok(FileOutcome::Discarded),
            },
            _ => Ok(FileOutcome::Nothing),
        }
    }
}

/// A transfer that ends early is never published: only an end marker makes
/// a file arrive, and only if every byte that was offered is there.
pub proof fn law_only_a_whole_file_arrives(current: Option<ReceiveState>, staging: Seq<char>, m: MessageModel)
    requires
        inbox_step(current, staging, m).1 is Arrived,
    ensures
        m is FileEnd,
        current is Some,
        current->0.complete(),
        inbox_step(current, staging, m).1->Arrived_bytes.len() == current->0.expected,
        inbox_step(current, staging, m).1->Arrived_destination == inside(current->0.staging, current->0.name),
{
}

/// What an inbox holds once messages were handed to it in turn.
pub open spec fn inbox_after(current: Option<ReceiveState>, staging: Seq<char>, messages: Seq<MessageModel>) -> Option<
    ReceiveState,
>
    decreases messages.len(),
{
    if messages.len() == 0 {
        current
    } else {
        inbox_step(inbox_after(current, staging, messages.drop_last()), staging, messages.last()).0
    }
}

/// What comes of one of several messages that are handed to an inbox in turn.
pub open spec fn comes_of(
    current: Option<ReceiveState>,
    staging: Seq<char>,
    messages: Seq<MessageModel>,
    i: int,
) -> OutcomeModel {
    inbox_step(inbox_after(current, staging, messages.take(i)), staging, messages[i]).1
}

proof fn lemma_inbox_after(current: Option<ReceiveState>, staging: Seq<char>, messages: Seq<MessageModel>, i: int)
    requires
        0 <= i < messages.len(),
    ensures
        inbox_after(current, staging, messages.take(i + 1)) == inbox_step(
            inbox_after(current, staging, messages.take(i)),
            staging,
            messages[i],
        ).0,
{
    assert(messages.take(i + 1).drop_last() =~= messages.take(i));
}

/// Where in a file its pieces end.
proof fn lemma_piece(bytes: Seq<u8>, i: int)
    requires
        0 <= i < chunked(bytes).len(),
    ensures
        ({
            let end = if (i + 1) * CHUNK_BYTES <= bytes.len() {
                (i + 1) * CHUNK_BYTES
            } else {
                bytes.len() as int
            };
            &&& i * CHUNK_BYTES < end <= bytes.len()
            &&& chunked(bytes)[i] == bytes.subrange(i * CHUNK_BYTES, end)
            &&& (i + 1 == chunked(bytes).len() <==> end == bytes.len())
        }),
    decreases bytes.len(),
{
    if bytes.len() <= CHUNK_BYTES {
        assert(bytes.subrange(0, bytes.len() as int) =~= bytes);
    } else {
        let rest = bytes.skip(CHUNK_BYTES as int);
        assert(rest.len() > 0);
        if i == 0 {
            assert(bytes.take(CHUNK_BYTES as int) =~= bytes.subrange(0, CHUNK_BYTES as int));
            assert(chunked(rest).len() > 0);
        } else {
            lemma_piece(rest, i - 1);
            let end = if i * CHUNK_BYTES <= rest.len() {
                i * CHUNK_BYTES
            } else {
                rest.len() as int
            };
            assert(rest.subrange((i - 1) * CHUNK_BYTES, end) =~= bytes.subrange(
                i * CHUNK_BYTES,
                end + CHUNK_BYTES,
            ));
        }
    }
}

/// What an inbox holds after the offer and some of the pieces of a file.
proof fn lemma_so_far(staging: Seq<char>, name: Seq<char>, bytes: Seq<u8>, k: int)
    requires
        bare_name(name),
        bytes.len() <= MAX_FILE_BYTES,
        0 <= k <= chunked(bytes).len(),
    ensures
        ({
            let had = if k * CHUNK_BYTES <= bytes.len() {
                k * CHUNK_BYTES
            } else {
                bytes.len() as int
            };
            inbox_after(None, staging, file_messages(name, bytes).take(k + 1)) == Some(
                ReceiveState { staging, name, expected: bytes.len() as u64, data: bytes.take(had) },
            )
        }),
        k > 0 ==> comes_of(None, staging, file_messages(name, bytes), k) is Nothing,
    decreases k,
{
    let messages = file_messages(name, bytes);
    lemma_inbox_after(None, staging, messages, k);
    if k == 0 {
        assert(messages.take(0) =~= Seq::<MessageModel>::empty());
        assert(messages[0] == MessageModel::FileOffer { name, size: bytes.len() as u64 });
        assert(inbox_after(None, staging, messages.take(0)) is None);
        assert(0 * CHUNK_BYTES == 0);
        assert(bytes.take(0) =~= Seq::<u8>::empty());
    } else {
        lemma_so_far(staging, name, bytes, k - 1);
        lemma_piece(bytes, k - 1);
        assert(messages[k] == chunk_messages(chunked(bytes))[k - 1]);
        assert(messages[k] == MessageModel::FileChunk { bytes: chunked(bytes)[k - 1] });
        let had = (k - 1) * CHUNK_BYTES;
        let end = if k * CHUNK_BYTES <= bytes.len() {
            k * CHUNK_BYTES
        } else {
            bytes.len() as int
        };
        assert(bytes.take(had) + bytes.subrange(had, end) =~= bytes.take(end));
        let held = ReceiveState { staging, name, expected: bytes.len() as u64, data: bytes.take(had) };
        assert(inbox_after(None, staging, messages.take(k)) == Some(held));
        assert(held.fed(bytes.subrange(had, end)) is Some);
    }
}

/// Every file with a plain name that can be read and that a receiver accepts
/// arrives: handed in turn to an inbox that holds nothing, the messages that
/// are sent for it come to nothing up to the last one, and the last one makes
/// the file arrive, under its name in the staging directory and with exactly
/// its bytes. A receiver accepts an offer of up to a hundred mebibytes.
pub proof fn law_a_copied_file_arrives(change: LocalChange, staging: Seq<char>, name: Seq<char>, bytes: Seq<u8>)
    requires
        change is File,
        bare_name(name),
        bytes.len() <= u64::MAX,
        inbox_step(None, staging, MessageModel::FileOffer { name, size: bytes.len() as u64 }).0 is Some
            || bytes.len() <= 104_857_600,
    ensures
        ({
            let sent = outgoing(change, Some(name), Some(bytes));
            &&& sent.len() > 0
            &&& forall|i: int|
                0 <= i < sent.len() - 1 ==> (#[trigger] comes_of(None, staging, sent, i)) is Nothing
            &&& comes_of(None, staging, sent, sent.len() - 1) == OutcomeModel::Arrived {
                destination: PathModel { base: staging, below: Some(name) },
                bytes,
            }
            &&& inbox_after(None, staging, sent) is None
        }),
{
    let sent = outgoing(change, Some(name), Some(bytes));
    let n = chunked(bytes).len() as int;
    assert(sent == file_messages(name, bytes));
    assert(sent.len() == n + 2);
    assert forall|i: int| 0 <= i < sent.len() - 1 implies (#[trigger] comes_of(None, staging, sent, i)) is Nothing by {
        if i == 0 {
            assert(sent[0] == MessageModel::FileOffer { name, size: bytes.len() as u64 });
        } else {
            lemma_so_far(staging, name, bytes, i);
        }
    }
    lemma_so_far(staging, name, bytes, n);
    if n > 0 {
        lemma_piece(bytes, n - 1);
    } else {
        assert(bytes.len() == 0) by {
            if bytes.len() > CHUNK_BYTES {
                assert(chunked(bytes)[0] == bytes.take(CHUNK_BYTES as int));
            }
        }
    }
    assert(bytes.take(bytes.len() as int) =~= bytes);
    assert(sent[n + 1] is FileEnd);
    lemma_inbox_after(None, staging, sent, n + 1);
    assert(sent.take(n + 2) =~= sent);
}

/// Nothing is sent of a file that no receiver accepts for its size, that
/// cannot be read or that has no name. Text is sent as it is, in one message.
pub proof fn law_what_cannot_arrive_is_not_sent(
    change: LocalChange,
    staging: Seq<char>,
    name: Option<Seq<char>>,
    bytes: Option<Seq<u8>>,
)
    ensures
        change is File && (name is None || bytes is None || bytes->0.len() > 104_857_600) ==> outgoing(
            change,
            name,
            bytes,
        ).len() == 0,
        change matches LocalChange::Text(text) ==> outgoing(change, name, bytes) == seq![
            MessageModel::ClipboardText { text: text@ },
        ],
{
}

/// What a receiver does with an offer of any name and size, whatever it held:
/// it starts afresh if it accepts it, and otherwise holds nothing and says
/// why. More than a hundred mebibytes are too many.
pub proof fn law_an_offer_starts_afresh_or_is_refused(
    current: Option<ReceiveState>,
    staging: Seq<char>,
    name: Seq<char>,
    size: u64,
)
    ensures
        ({
            let (after, outcome) = inbox_step(current, staging, MessageModel::FileOffer { name, size });
            &&& !bare_name(name) ==> after is None && outcome == OutcomeModel::UnsafeName { name }
            &&& bare_name(name) && size > 104_857_600 ==> after is None && outcome == OutcomeModel::TooLarge { size }
            &&& bare_name(name) && size <= 104_857_600 ==> outcome is Nothing && (after matches Some(state)
                && state.staging == staging && state.name == name && state.expected == size && state.data.len() == 0)
        }),
{
}

/// What has arrived only ever grows by what a piece holds, in order and up to
/// what was offered. A piece beyond that throws all of it away, and so do an
/// end that comes early and an abort; a piece without an offer is refused.
/// Nothing else that a peer sends touches a transfer.
pub proof fn law_a_transfer_grows_piece_by_piece_or_is_forgotten(
    current: Option<ReceiveState>,
    staging: Seq<char>,
    m: MessageModel,
)
    ensures
        ({
            let (after, outcome) = inbox_step(current, staging, m);
            match m {
                MessageModel::FileOffer { name, size } => true,
                MessageModel::FileChunk { bytes } => match current {
                    None => after is None && outcome is NoOffer,
                    Some(state) => if state.data.len() + bytes.len() <= state.expected {
                        &&& outcome is Nothing
                        &&& after matches Some(next)
                        &&& next.staging == state.staging
                        &&& next.name == state.name
                        &&& next.expected == state.expected
                        &&& next.data.len() == state.data.len() + bytes.len()
                        &&& forall|i: int| 0 <= i < state.data.len() ==> next.data[i] == state.data[i]
                        &&& forall|i: int|
                            0 <= i < bytes.len() ==> #[trigger] next.data[state.data.len() + i] == bytes[i]
                    } else {
                        after is None && outcome is Overrun
                    },
                },
                MessageModel::FileEnd => {
                    &&& after is None
                    &&& match current {
                        None => outcome is Nothing,
                        Some(state) => if state.data.len() == state.expected {
                            outcome matches OutcomeModel::Arrived { destination, bytes } && bytes == state.data
                                && destination.base == state.staging && destination.below == Some(state.name)
                        } else {
                            outcome is Discarded
                        },
                    }
                },
                MessageModel::FileAbort => after is None && if current is Some {
                    outcome is Discarded
                } else {
                    outcome is Nothing
                },
                _ => after == current && outcome is Nothing,
            }
        }),
{
}

/// No name with a separator or a null character anywhere in it is plain, nor
/// one that starts with a drive, nor an empty one, nor one that stands for a
/// directory itself or the one above it.
pub proof fn law_no_path_is_a_plain_name(before: Seq<char>, after: Seq<char>, letter: char)
    ensures
        !bare_name(before + seq!['/'] + after),
        !bare_name(before + seq!['\\'] + after),
        !bare_name(before + seq!['\0'] + after),
        'a' <= letter <= 'z' || 'A' <= letter <= 'Z' ==> !bare_name(seq![letter, ':'] + after),
        !bare_name(seq![]),
        !bare_name(seq!['.']),
        !bare_name(seq!['.', '.']),
{
    assert((before + seq!['/'] + after)[before.len() as int] == '/');
    assert((before + seq!['\\'] + after)[before.len() as int] == '\\');
    assert((before + seq!['\0'] + after)[before.len() as int] == '\0');
    assert((seq![letter, ':'] + after)[0] == letter);
    assert((seq![letter, ':'] + after)[1] == ':');
}

/// Every other name is plain.
pub proof fn law_every_other_name_is_plain(name: Seq<char>)
    requires
        forall|i: int| 0 <= i < name.len() ==> #[trigger] name[i] != '/' && name[i] != '\\' && name[i] != '\0',
        name.len() >= 1,
        name.len() == 1 ==> name[0] != '.',
        name.len() == 2 ==> name[0] != '.' || name[1] != '.',
        name.len() >= 2 ==> name[1] != ':' || !('a' <= name[0] <= 'z' || 'A' <= name[0] <= 'Z'),
    ensures
        bare_name(name),
{
    if name.contains('/') {
        let i = choose|i: int| 0 <= i < name.len() && name[i] == '/';
    }
    if name.contains('\\') {
        let i = choose|i: int| 0 <= i < name.len() && name[i] == '\\';
    }
    if name.contains('\0') {
        let i = choose|i: int| 0 <= i < name.len() && name[i] == '\0';
    }
}

/// A file is cut as large as a frame allows: every piece but the last is of
/// 48 KiB, and the last is no larger. Put together they are the file.
pub proof fn law_a_file_is_cut_into_full_pieces(bytes: Seq<u8>, i: int)
    requires
        0 <= i < chunked(bytes).len(),
    ensures
        i + 1 < chunked(bytes).len() ==> chunked(bytes)[i].len() == 49_152,
        0 < chunked(bytes)[i].len() <= 49_152,
        forall|j: int|
            0 <= j < chunked(bytes)[i].len() ==> #[trigger] chunked(bytes)[i][j] == bytes[i * 49_152 + j],
{
    lemma_piece(bytes, i);
}

} // verus!
