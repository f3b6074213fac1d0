//! Keeping two machines' clipboards in step.
//!
//! Neither macOS nor Windows offers a notification when the clipboard
//! changes; both expose a counter that increments on every write. So the
//! only way to notice a copy is to poll that counter, which is cheap
//! precisely because it does not read the contents.
//!
//! The subtle part is not the polling, it is not echoing. Applying a
//! clipboard received from the peer is itself a local clipboard write, so
//! it bumps our own counter. Left alone, each side would forward the
//! other's clipboard straight back, forever. [`ClipboardSync`] makes that
//! impossible.

use vstd::prelude::*;
use vstd::utf8::*;

verus! {

/// A system clipboard.
pub trait Clipboard {
    /// Every text that was handed over to be written, in order. Every
    /// clipboard stands for such a record, which grows with each text; one
    /// that is not itself verified need not hold it.
    open spec fn handed(&self) -> Seq<Seq<char>> {
        arbitrary()
    }

    /// Whether the text that was handed over last was written. Every
    /// clipboard stands for such a record.
    open spec fn took(&self) -> bool {
        arbitrary()
    }

    /// A counter the system bumps on every clipboard write by anyone.
    fn change_count(&self) -> (r: i64);

    /// Current contents as text, or `None` if the clipboard holds
    /// something else (an image, a file) or is empty.
    fn get_text(&self) -> (r: Option<String>);

    /// Replace the contents. Returns whether it worked; a failure means
    /// one copy does not cross, which is not worth an error.
    fn set_text(&mut self, text: &str) -> (r: bool)
        ensures
            final(self).handed() == old(self).handed().push(text@),
            r == final(self).took(),
    ;
}

/// The largest clipboard text hop will send.
///
/// Clipboard text has to fit inside one frame of the transport. This sits
/// below that limit with room for the frame's own overhead. Copying a
/// larger selection simply does not sync, rather than silently truncating
/// text the user believes crossed intact.
pub const MAX_CLIPBOARD_BYTES: usize = 56 * 1024;

/// Something that was copied on this machine and is to be sent.
#[derive(Debug, Clone, PartialEq, Eq)]
pub enum LocalChange {
    Text(String),
    /// The path of a copied file.
    File(String),
}

/// What a [`ClipboardSync`] goes by.
#[verifier::ext_equal]
pub struct SyncState {
    pub last_seen: i64,
    pub started: bool,
}

impl SyncState {
    pub open spec fn initial() -> SyncState {
        SyncState { last_seen: 0, started: false }
    }

    /// Whether the counter shows a copy that is to be sent. The first look
    /// never does: the clipboard then holds what was copied before hop ran.
    pub open spec fn reports(self, count: i64) -> bool {
        self.started && count != self.last_seen
    }

    /// The counter was looked at.
    pub open spec fn looked(self, count: i64) -> SyncState {
        SyncState { last_seen: count, started: true }
    }
}

/// The text that is sent: all of it, or none if it is too long for a
/// frame.
pub open spec fn admitted(text: Option<Seq<char>>) -> Option<Seq<char>> {
    match text {
        None => None,
        Some(chars) => if encode_utf8(chars).len() <= MAX_CLIPBOARD_BYTES {
            Some(chars)
        } else {
            None
        },
    }
}

/// The characters of an optional string.
pub open spec fn chars_of(text: Option<String>) -> Option<Seq<char>> {
    match text {
        None => None,
        Some(s) => Some(s@),
    }
}

/// Tracks a clipboard well enough to forward local copies without echoing
/// back what the peer sent.
#[derive(Debug)]
pub struct ClipboardSync {
    last_seen: i64,
    started: bool,
}

impl View for ClipboardSync {
    type V = SyncState;

    closed spec fn view(&self) -> SyncState {
        SyncState { last_seen: self.last_seen, started: self.started }
    }
}

impl Default for ClipboardSync {
    fn default() -> (r: ClipboardSync)
        ensures
            r@ == SyncState::initial(),
    {
        Self::new()
    }
}

/// Keeps text that fits in a frame.
pub fn admit_text(text: Option<String>) -> (r: Option<String>)
    ensures
        chars_of(r) == admitted(chars_of(text)),
{
    match text {
        None => None,
        Some(s) => {
            let bytes: &[u8] = s.as_str().as_bytes();
            if bytes.len() > MAX_CLIPBOARD_BYTES {
                None
            } else {
                Some(s)
            }
        },
    }
}

/// What a [`LocalChange`] says.
pub enum ChangeModel {
    Text(Seq<char>),
    File(Seq<char>),
}

/// What an optional change says.
pub open spec fn change_model(change: Option<LocalChange>) -> Option<ChangeModel> {
    match change {
        Some(LocalChange::Text(text)) => Some(ChangeModel::Text(text@)),
        Some(LocalChange::File(path)) => Some(ChangeModel::File(path@)),
        None => None,
    }
}

/// What a copy of some files, or of some text, amounts to.
pub open spec fn change_of(paths: Seq<Seq<char>>, text: Option<Seq<char>>) -> Option<ChangeModel> {
    if paths.len() == 1 {
        Some(ChangeModel::File(paths[0]))
    } else {
        match admitted(text) {
            Some(chars) => Some(ChangeModel::Text(chars)),
            None => None,
        }
    }
}

/// What a copy amounts to: the file, if exactly one was copied, and else the
/// text, if there is any and it fits in a frame. One file goes at a time.
pub fn local_change(paths: &Vec<String>, text: Option<String>) -> (r: Option<LocalChange>)
    ensures
        change_model(r) == change_of(crate::text::views(paths@), chars_of(text)),
{
    if paths.len() == 1 {
        return Some(LocalChange::File(paths[0].clone()));
    }
    match admit_text(text) {
        Some(kept) => Some(LocalChange::Text(kept)),
        None => None,
    }
}

impl ClipboardSync {
    pub fn new() -> (r: ClipboardSync)
        ensures
            r@ == SyncState::initial(),
    {
        ClipboardSync { last_seen: 0, started: false }
    }

    /// Takes note of the counter, and says whether it shows a local copy
    /// whose text is to be read and sent.
    pub fn note_count(&mut self, count: i64) -> (r: bool)
        ensures
            r == old(self)@.reports(count),
            final(self)@ == old(self)@.looked(count),
    {
        let first_look: bool = !self.started;
        self.started = true;
        if count == self.last_seen {
            return false;
        }
        self.last_seen = count;
        !first_look
    }

    /// Text to send to the peer, if the local clipboard has changed since
    /// the last call.
    pub fn poll_local_change<C: Clipboard>(&mut self, clipboard: &C) -> (r: Option<String>)
        ensures
            exists|count: i64|
                #![trigger call_ensures(C::change_count, (clipboard,), count)]
                {
                    &&& call_ensures(C::change_count, (clipboard,), count)
                    &&& final(self)@ == old(self)@.looked(count)
                    &&& !old(self)@.reports(count) ==> r is None
                    &&& old(self)@.reports(count) ==> exists|text: Option<String>|
                        #![trigger call_ensures(C::get_text, (clipboard,), text)]
                        call_ensures(C::get_text, (clipboard,), text) && chars_of(r) == admitted(
                            chars_of(text),
                        )
                },
    {
        let count: i64 = clipboard.change_count();
        if !self.note_count(count) {
            return None;
        }
        let text: Option<String> = clipboard.get_text();
        admit_text(text)
    }

    /// Takes note of where the counter stands once text of the peer has
    /// been written, so that the write is not taken for a local copy.
    pub fn note_write(&mut self, count: i64)
        ensures
            final(self)@ == old(self)@.looked(count),
    {
        self.last_seen = count;
        self.started = true;
    }

    /// Apply text received from the peer, and remember the change it
    /// causes so it is never sent back. A write that the clipboard refuses
    /// changes nothing, so that a local copy not yet seen is still seen.
    pub fn apply_remote<C: Clipboard>(&mut self, clipboard: &mut C, text: &str)
        ensures
            final(clipboard).handed() == old(clipboard).handed().push(text@),
            exists|given: &mut C, answer: bool|
                {
                    &&& #[trigger] call_ensures(C::set_text, (given, text), answer)
                    &&& *given == *old(clipboard)
                    &&& *final(clipboard) == *final(given)
                    &&& answer == final(clipboard).took()
                },
            !final(clipboard).took() ==> final(self)@ == old(self)@,
            final(clipboard).took() ==> exists|count: i64|
                #![trigger call_ensures(C::change_count, (&*final(clipboard),), count)]
                call_ensures(C::change_count, (&*final(clipboard),), count) && final(self)@ == old(
                    self,
                )@.looked(count),
    {
        if !clipboard.set_text(text) {
            return;
        }
        // The counter is read after writing. This is what stops the echo:
        // the next poll sees its own write as already accounted for.
        let count: i64 = clipboard.change_count();
        self.note_write(count);
    }
}

/// Text of the peer that was written into the local clipboard is never
/// sent back: as long as the counter still stands where the write left it,
/// nothing is reported.
pub proof fn law_an_applied_text_is_not_echoed(state: SyncState, count: i64)
    ensures
        !state.looked(count).reports(count),
        state.looked(count).looked(count) == state.looked(count),
{
}

/// Each copy after that is reported, once.
pub proof fn law_a_later_copy_is_reported_once(state: SyncState, count: i64, later: i64)
    requires
        later != count,
    ensures
        state.looked(count).reports(later),
        !state.looked(count).looked(later).reports(later),
{
}

/// In-memory clipboard for tests.
pub struct FakeClipboard {
    pub text: Option<String>,
    pub count: i64,
    /// Every text that was handed over to be written.
    pub written: Ghost<Seq<Seq<char>>>,
}

impl Default for FakeClipboard {
    fn default() -> (r: FakeClipboard)
        ensures
            r.text is None,
            r.count == 0,
            r.handed() == Seq::<Seq<char>>::empty(),
    {
        FakeClipboard { text: None, count: 0, written: Ghost(Seq::empty()) }
    }
}

impl FakeClipboard {
    pub fn new() -> (r: FakeClipboard)
        ensures
            r.text is None,
            r.count == 0,
            r.handed() == Seq::<Seq<char>>::empty(),
    {
        Self::default()
    }

    /// Simulate the user copying something on this machine.
    pub fn user_copies(&mut self, text: &str)
        ensures
            chars_of(final(self).text) == Some(text@),
            final(self).count == i64::wrapping_add(old(self).count, 1),
            final(self).handed() == old(self).handed(),
    {
        self.text = Some(text.to_owned());
        self.count = self.count.wrapping_add(1);
    }
}

impl Clipboard for FakeClipboard {
    open spec fn handed(&self) -> Seq<Seq<char>> {
        self.written@
    }

    open spec fn took(&self) -> bool {
        true
    }

    fn change_count(&self) -> (r: i64)
        ensures
            r == self.count,
    {
        self.count
    }

    fn get_text(&self) -> (r: Option<String>)
        ensures
            chars_of(r) == chars_of(self.text),
    {
        match &self.text {
            None => None,
            Some(s) => Some(s.as_str().to_owned()),
        }
    }

    fn set_text(&mut self, text: &str) -> (r: bool)
        ensures
            r,
            chars_of(final(self).text) == Some(text@),
            final(self).count == i64::wrapping_add(old(self).count, 1),
    {
        self.text = Some(text.to_owned());
        self.count = self.count.wrapping_add(1);
        self.written = Ghost(self.written@.push(text@));
        true
    }
}

/// What was copied before hop ran is not sent, wherever the counter stands.
pub proof fn law_the_first_look_reports_nothing(count: i64, later: i64)
    ensures
        !SyncState::initial().reports(count),
        SyncState::initial().looked(count).reports(later) <==> later != count,
{
}

/// Text crosses whole or not at all: of up to 56 KiB all of it, and of more
/// nothing.
pub proof fn law_text_crosses_whole_or_not_at_all(text: Seq<char>)
    ensures
        encode_utf8(text).len() <= 57_344 ==> admitted(Some(text)) == Some(text),
        encode_utf8(text).len() > 57_344 ==> admitted(Some(text)) is None,
        admitted(None) is None,
{
}

/// A file is sent exactly if it is the only one that was copied, whatever text
/// came with it. Otherwise the text is, if it fits in a frame; several files
/// are never sent.
pub proof fn law_a_single_file_comes_before_its_text(paths: Seq<Seq<char>>, text: Option<Seq<char>>)
    ensures
        paths.len() == 1 ==> change_of(paths, text) == Some(ChangeModel::File(paths[0])),
        paths.len() != 1 ==> !(change_of(paths, text) matches Some(ChangeModel::File(_))),
        paths.len() != 1 ==> (text matches Some(chars) ==> (encode_utf8(chars).len() <= 57_344 ==> change_of(paths, text)
            == Some(ChangeModel::Text(chars)))),
        paths.len() != 1 && (text is None || encode_utf8(text->0).len() > 57_344) ==> change_of(paths, text) is None,
{
}

} // verus!
