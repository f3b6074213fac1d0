//! The byte layout of message bodies, as the `postcard` crate reads and
//! writes it: the layout stated as spec functions, the calls into the
//! crate, and what reading gives back of what was written.

use vstd::bytes::*;
use vstd::prelude::*;
use vstd::utf8::*;

verus! {

/// The error of the `postcard` crate, carried through unread.
#[verifier::external_type_specification]
#[verifier::external_body]
pub struct ExPostcardError(postcard::Error);

/// Why the `postcard` crate refuses bytes: the kinds of its error that
/// reading the bodies of messages can give.
#[derive(Debug, Clone, Copy, PartialEq, Eq, Structural)]
pub enum Reason {
    UnexpectedEnd,
    BadVarint,
    BadBool,
    BadUtf8,
    Reading,
    /// Any other kind.
    Other,
}

impl Reason {
    /// The reason, for a person to read.
    pub open spec fn spec_text(self) -> Seq<char> {
        match self {
            Reason::UnexpectedEnd => "Hit the end of buffer, expected more data"@,
            Reason::BadVarint =>
                "Found a varint that didn't terminate. Is the usize too big for this platform?"@,
            Reason::BadBool => "Found a bool that wasn't 0 or 1"@,
            Reason::BadUtf8 => "Tried to parse invalid utf-8"@,
            Reason::Reading => "Serde Deserialization Error"@,
            Reason::Other => "the bytes could not be read"@,
        }
    }

    /// The reason, for a person to read.
    pub fn text(self) -> (r: &'static str)
        ensures
            r@ == self.spec_text(),
    {
        match self {
            Reason::UnexpectedEnd => "Hit the end of buffer, expected more data",
            Reason::BadVarint =>
                "Found a varint that didn't terminate. Is the usize too big for this platform?",
            Reason::BadBool => "Found a bool that wasn't 0 or 1",
            Reason::BadUtf8 => "Tried to parse invalid utf-8",
            Reason::Reading => "Serde Deserialization Error",
            Reason::Other => "the bytes could not be read",
        }
    }
}

/// The kind of a `postcard` error.
pub uninterp spec fn reason_in(error: postcard::Error) -> Reason;

/// Why `postcard::from_bytes` refuses bytes that are not of a shape, where
/// counts are at most `largest`.
pub uninterp spec fn complaint_of(shape: Shape, bytes: Seq<u8>, largest: nat) -> Reason;

/// Why bytes that are not of a shape are refused on this machine.
pub open spec fn complaint(shape: Shape, bytes: Seq<u8>) -> Reason {
    complaint_of(shape, bytes, usize::MAX as nat)
}

/// What is read from bytes: the values of one kind of body, or a frame.
#[derive(Debug, Clone, Copy, PartialEq, Eq, Structural)]
pub enum Shape {
    Frame,
    Hello,
    Pair,
    Choice,
    Index,
    Key,
    Word,
    Text,
    Offer,
    Counted,
}

// ---------------------------------------------------------------------
// The layout.
/// An unsigned integer: seven bits a byte, lowest first, with the high bit
/// set on every byte but the last.
pub open spec fn varint(n: nat) -> Seq<u8>
    decreases n,
{
    if n < 128 {
        seq![n as u8]
    } else {
        seq![(n % 128 + 128) as u8] + varint(n / 128)
    }
}

/// Signed integers are interleaved: 0, -1, 1, -2, 2 and so on.
pub open spec fn zigzag(v: int) -> nat {
    if v >= 0 {
        (2 * v) as nat
    } else {
        (-2 * v - 1) as nat
    }
}

/// What `zigzag` came from.
pub open spec fn unzigzag(n: nat) -> int {
    if n % 2 == 0 {
        (n / 2) as int
    } else {
        -((n / 2) as int) - 1
    }
}

/// A truth value takes one byte.
pub open spec fn flag(b: bool) -> Seq<u8> {
    if b {
        seq![1u8]
    } else {
        seq![0u8]
    }
}

/// Bytes of any number: their count, then the bytes.
pub open spec fn counted(bytes: Seq<u8>) -> Seq<u8> {
    varint(bytes.len()) + bytes
}

/// Text is its UTF-8 bytes, counted.
pub open spec fn text(chars: Seq<char>) -> Seq<u8> {
    counted(encode_utf8(chars))
}

/// Reads an integer of at most `room` bytes, of which the last may hold no
/// more than `last`. Gives back the value and the bytes behind it.
pub open spec fn take_varint(b: Seq<u8>, room: nat, last: nat) -> Option<(nat, Seq<u8>)>
    decreases room,
{
    if room == 0 || b.len() == 0 {
        None
    } else if b[0] < 128 {
        if room == 1 && b[0] > last {
            None
        } else {
            Some((b[0] as nat, b.skip(1)))
        }
    } else {
        match take_varint(b.skip(1), (room - 1) as nat, last) {
            None => None,
            Some((high, rest)) => Some(((b[0] - 128 + 128 * high) as nat, rest)),
        }
    }
}

/// Reads an integer of 16 bits.
pub open spec fn take_u16(b: Seq<u8>) -> Option<(nat, Seq<u8>)> {
    take_varint(b, 3, 3)
}

/// Reads an integer of 32 bits.
pub open spec fn take_u32(b: Seq<u8>) -> Option<(nat, Seq<u8>)> {
    take_varint(b, 5, 15)
}

/// Reads an integer of 64 bits.
pub open spec fn take_u64(b: Seq<u8>) -> Option<(nat, Seq<u8>)> {
    take_varint(b, 10, 1)
}

/// Reads a count, which has the width of this machine's `usize`.
pub open spec fn take_count(b: Seq<u8>) -> Option<(nat, Seq<u8>)> {
    if usize::BITS == 64 {
        take_u64(b)
    } else {
        take_u32(b)
    }
}

/// Reads a truth value: no byte but 0 and 1 is one.
pub open spec fn take_flag(b: Seq<u8>) -> Option<(bool, Seq<u8>)> {
    if b.len() > 0 && b[0] <= 1 {
        Some((b[0] == 1, b.skip(1)))
    } else {
        None
    }
}

/// Reads `n` bytes as they stand.
pub open spec fn take_exact(b: Seq<u8>, n: nat) -> Option<(Seq<u8>, Seq<u8>)> {
    if n <= b.len() {
        Some((b.take(n as int), b.skip(n as int)))
    } else {
        None
    }
}

/// Reads counted bytes.
pub open spec fn take_counted(b: Seq<u8>) -> Option<(Seq<u8>, Seq<u8>)> {
    match take_count(b) {
        None => None,
        Some((n, rest)) => take_exact(rest, n),
    }
}

/// Reads text: counted bytes that are valid UTF-8.
pub open spec fn take_text(b: Seq<u8>) -> Option<(Seq<char>, Seq<u8>)> {
    match take_counted(b) {
        None => None,
        Some((bytes, rest)) => if valid_utf8(bytes) {
            Some((decode_utf8(bytes), rest))
        } else {
            None
        },
    }
}

// ---------------------------------------------------------------------
// Each shape that is sent: how it is written, and how it is read. Bytes
// behind what a shape needs are passed over.
pub open spec fn frame_bytes(tag: u16, body: Seq<u8>) -> Seq<u8> {
    varint(tag as nat) + counted(body)
}

pub open spec fn read_frame(b: Seq<u8>) -> Option<(u16, Seq<u8>)> {
    match take_u16(b) {
        None => None,
        Some((tag, rest)) => match take_counted(rest) {
            None => None,
            Some((body, _)) => Some((tag as u16, body)),
        },
    }
}

pub open spec fn hello_bytes(version: u16, capabilities: u32, peer_id: Seq<char>, nonce: Seq<u8>) -> Seq<u8> {
    varint(version as nat) + (varint(capabilities as nat) + (text(peer_id) + nonce))
}

pub open spec fn read_hello(b: Seq<u8>) -> Option<(u16, u32, Seq<char>, Seq<u8>)> {
    match take_u16(b) {
        None => None,
        Some((version, b1)) => match take_u32(b1) {
            None => None,
            Some((capabilities, b2)) => match take_text(b2) {
                None => None,
                Some((peer_id, b3)) => match take_exact(b3, 32) {
                    None => None,
                    Some((nonce, _)) => Some((version as u16, capabilities as u32, peer_id, nonce)),
                },
            },
        },
    }
}

pub open spec fn pair_bytes(x: i32, y: i32) -> Seq<u8> {
    varint(zigzag(x as int)) + varint(zigzag(y as int))
}

pub open spec fn read_pair(b: Seq<u8>) -> Option<(i32, i32)> {
    match take_u32(b) {
        None => None,
        Some((x, rest)) => match take_u32(rest) {
            None => None,
            Some((y, _)) => Some((unzigzag(x) as i32, unzigzag(y) as i32)),
        },
    }
}

pub open spec fn choice_bytes(index: u32, pressed: bool) -> Seq<u8> {
    varint(index as nat) + flag(pressed)
}

pub open spec fn read_choice(b: Seq<u8>) -> Option<(u32, bool)> {
    match take_u32(b) {
        None => None,
        Some((index, rest)) => match take_flag(rest) {
            None => None,
            Some((pressed, _)) => Some((index as u32, pressed)),
        },
    }
}

/// Reads the first part of a choice.
pub open spec fn read_index(b: Seq<u8>) -> Option<u32> {
    match take_u32(b) {
        None => None,
        Some((index, _)) => Some(index as u32),
    }
}

pub open spec fn key_bytes(code: u16, pressed: bool) -> Seq<u8> {
    varint(code as nat) + flag(pressed)
}

pub open spec fn read_key(b: Seq<u8>) -> Option<(u16, bool)> {
    match take_u16(b) {
        None => None,
        Some((code, rest)) => match take_flag(rest) {
            None => None,
            Some((pressed, _)) => Some((code as u16, pressed)),
        },
    }
}

pub open spec fn read_word(b: Seq<u8>) -> Option<Seq<u8>> {
    match take_exact(b, 4) {
        None => None,
        Some((word, _)) => Some(word),
    }
}

pub open spec fn read_text(b: Seq<u8>) -> Option<Seq<char>> {
    match take_text(b) {
        None => None,
        Some((chars, _)) => Some(chars),
    }
}

pub open spec fn offer_bytes(name: Seq<char>, size: u64) -> Seq<u8> {
    text(name) + varint(size as nat)
}

pub open spec fn read_offer(b: Seq<u8>) -> Option<(Seq<char>, u64)> {
    match take_text(b) {
        None => None,
        Some((name, rest)) => match take_u64(rest) {
            None => None,
            Some((size, _)) => Some((name, size as u64)),
        },
    }
}

pub open spec fn read_counted(b: Seq<u8>) -> Option<Seq<u8>> {
    match take_counted(b) {
        None => None,
        Some((bytes, _)) => Some(bytes),
    }
}

// ---------------------------------------------------------------------
// The calls.
/// The kind of an error of the `postcard` crate, told apart by `match`.
/// Claimed: the same error is always of the same kind.
#[verifier::external_body]
pub(crate) fn reason(error: postcard::Error) -> (r: Reason)
    ensures
        r == reason_in(error),
{
    match error {
        postcard::Error::DeserializeUnexpectedEnd => Reason::UnexpectedEnd,
        postcard::Error::DeserializeBadVarint => Reason::BadVarint,
        postcard::Error::DeserializeBadBool => Reason::BadBool,
        postcard::Error::DeserializeBadUtf8 => Reason::BadUtf8,
        postcard::Error::SerdeDeCustom => Reason::Reading,
        _ => Reason::Other,
    }
}

// Writing into a growing vector cannot fail, so each `pack_`
// function is claimed to succeed; each `unpack_` function is claimed to
// succeed exactly where the layout can be read.
/// `postcard::to_allocvec` of a 16 bit integer and a byte slice.
/// Claimed: it succeeds, and writes them as [`frame_bytes`].
#[verifier::external_body]
pub(crate) fn pack_frame(tag: u16, body: &[u8]) -> (r: Result<Vec<u8>, postcard::Error>)
    ensures
        r is Ok,
        r->Ok_0@ == frame_bytes(tag, body@),
{
    postcard::to_allocvec(&(tag, body))
}

/// `postcard::from_bytes` of a 16 bit integer and a byte vector.
/// Claimed: it gives what [`read_frame`] reads, and fails where that reads
/// nothing, always for the same reason.
#[verifier::external_body]
pub(crate) fn unpack_frame(bytes: &[u8]) -> (r: Result<(u16, Vec<u8>), postcard::Error>)
    ensures
        r matches Ok((tag, body)) ==> read_frame(bytes@) == Some((tag, body@)),
        r is Err ==> read_frame(bytes@) is None,
        r matches Err(e) ==> reason_in(e) == complaint_of(Shape::Frame, bytes@, usize::MAX as nat),
{
    postcard::from_bytes::<(u16, Vec<u8>)>(bytes)
}

/// `postcard::to_allocvec` of a 16 bit and a 32 bit integer, a string and
/// an array of 32 bytes.
/// Claimed: it succeeds, and writes them as [`hello_bytes`].
#[verifier::external_body]
pub(crate) fn pack_hello(version: u16, capabilities: u32, peer_id: &str, nonce: &[u8; 32]) -> (r: Result<Vec<u8>, postcard::Error>)
    ensures
        r is Ok,
        r->Ok_0@ == hello_bytes(version, capabilities, peer_id@, nonce@),
{
    postcard::to_allocvec(&(version, capabilities, peer_id, nonce))
}

/// `postcard::from_bytes` of a 16 bit and a 32 bit integer, a string and
/// an array of 32 bytes.
/// Claimed: it gives what [`read_hello`] reads, and fails where that reads
/// nothing, always for the same reason.
#[verifier::external_body]
pub(crate) fn unpack_hello(bytes: &[u8]) -> (r: Result<(u16, u32, String, [u8; 32]), postcard::Error>)
    ensures
        r matches Ok((version, capabilities, peer_id, nonce)) ==> read_hello(bytes@) == Some(
            (version, capabilities, peer_id@, nonce@),
        ),
        r is Err ==> read_hello(bytes@) is None,
        r matches Err(e) ==> reason_in(e) == complaint_of(Shape::Hello, bytes@, usize::MAX as nat),
{
    postcard::from_bytes::<(u16, u32, String, [u8; 32])>(bytes)
}

/// `postcard::to_allocvec` of two 32 bit signed integers.
/// Claimed: it succeeds, and writes them as [`pair_bytes`].
#[verifier::external_body]
pub(crate) fn pack_pair(x: i32, y: i32) -> (r: Result<Vec<u8>, postcard::Error>)
    ensures
        r is Ok,
        r->Ok_0@ == pair_bytes(x, y),
{
    postcard::to_allocvec(&(x, y))
}

/// `postcard::from_bytes` of two 32 bit signed integers.
/// Claimed: it gives what [`read_pair`] reads, and fails where that reads
/// nothing, always for the same reason.
#[verifier::external_body]
pub(crate) fn unpack_pair(bytes: &[u8]) -> (r: Result<(i32, i32), postcard::Error>)
    ensures
        r matches Ok(pair) ==> read_pair(bytes@) == Some(pair),
        r is Err ==> read_pair(bytes@) is None,
        r matches Err(e) ==> reason_in(e) == complaint_of(Shape::Pair, bytes@, usize::MAX as nat),
{
    postcard::from_bytes::<(i32, i32)>(bytes)
}

/// `postcard::to_allocvec` of a 32 bit integer, which is how the crate
/// writes the choice of an enum without fields, and a truth value.
/// Claimed: it succeeds, and writes them as [`choice_bytes`].
#[verifier::external_body]
pub(crate) fn pack_choice(index: u32, pressed: bool) -> (r: Result<Vec<u8>, postcard::Error>)
    ensures
        r is Ok,
        r->Ok_0@ == choice_bytes(index, pressed),
{
    postcard::to_allocvec(&(index, pressed))
}

/// `postcard::from_bytes` of a 32 bit integer and a truth value.
/// Claimed: it gives what [`read_choice`] reads, and fails where that reads
/// nothing, always for the same reason.
#[verifier::external_body]
pub(crate) fn unpack_choice(bytes: &[u8]) -> (r: Result<(u32, bool), postcard::Error>)
    ensures
        r matches Ok(choice) ==> read_choice(bytes@) == Some(choice),
        r is Err ==> read_choice(bytes@) is None,
        r matches Err(e) ==> reason_in(e) == complaint_of(Shape::Choice, bytes@, usize::MAX as nat),
{
    postcard::from_bytes::<(u32, bool)>(bytes)
}

/// `postcard::from_bytes` of a 32 bit integer.
/// Claimed: it gives what [`read_index`] reads, and fails where that reads
/// nothing, always for the same reason.
#[verifier::external_body]
pub(crate) fn unpack_index(bytes: &[u8]) -> (r: Result<u32, postcard::Error>)
    ensures
        r matches Ok(index) ==> read_index(bytes@) == Some(index),
        r is Err ==> read_index(bytes@) is None,
        r matches Err(e) ==> reason_in(e) == complaint_of(Shape::Index, bytes@, usize::MAX as nat),
{
    postcard::from_bytes::<u32>(bytes)
}

/// `postcard::to_allocvec` of a 16 bit integer and a truth value.
/// Claimed: it succeeds, and writes them as [`key_bytes`].
#[verifier::external_body]
pub(crate) fn pack_key(code: u16, pressed: bool) -> (r: Result<Vec<u8>, postcard::Error>)
    ensures
        r is Ok,
        r->Ok_0@ == key_bytes(code, pressed),
{
    postcard::to_allocvec(&(code, pressed))
}

/// `postcard::from_bytes` of a 16 bit integer and a truth value.
/// Claimed: it gives what [`read_key`] reads, and fails where that reads
/// nothing, always for the same reason.
#[verifier::external_body]
pub(crate) fn unpack_key(bytes: &[u8]) -> (r: Result<(u16, bool), postcard::Error>)
    ensures
        r matches Ok(key) ==> read_key(bytes@) == Some(key),
        r is Err ==> read_key(bytes@) is None,
        r matches Err(e) ==> reason_in(e) == complaint_of(Shape::Key, bytes@, usize::MAX as nat),
{
    postcard::from_bytes::<(u16, bool)>(bytes)
}

/// `postcard::to_allocvec` of an array of four bytes, which the crate
/// writes as they stand.
/// Claimed: it succeeds, and writes the bytes as they stand.
#[verifier::external_body]
pub(crate) fn pack_word(word: [u8; 4]) -> (r: Result<Vec<u8>, postcard::Error>)
    ensures
        r is Ok,
        r->Ok_0@ == word@,
{
    postcard::to_allocvec(&word)
}

/// `postcard::from_bytes` of an array of four bytes.
/// Claimed: it gives what [`read_word`] reads, and fails where that reads
/// nothing, always for the same reason.
#[verifier::external_body]
pub(crate) fn unpack_word(bytes: &[u8]) -> (r: Result<[u8; 4], postcard::Error>)
    ensures
        r matches Ok(word) ==> read_word(bytes@) == Some(word@),
        r is Err ==> read_word(bytes@) is None,
        r matches Err(e) ==> reason_in(e) == complaint_of(Shape::Word, bytes@, usize::MAX as nat),
{
    postcard::from_bytes::<[u8; 4]>(bytes)
}

/// `postcard::to_allocvec` of a string.
/// Claimed: it succeeds, and writes it as [`text`].
#[verifier::external_body]
pub(crate) fn pack_text(chars: &str) -> (r: Result<Vec<u8>, postcard::Error>)
    ensures
        r is Ok,
        r->Ok_0@ == text(chars@),
{
    postcard::to_allocvec(chars)
}

/// `postcard::from_bytes` of a string.
/// Claimed: it gives what [`read_text`] reads, and fails where that reads
/// nothing, always for the same reason.
#[verifier::external_body]
pub(crate) fn unpack_text(bytes: &[u8]) -> (r: Result<String, postcard::Error>)
    ensures
        r matches Ok(chars) ==> read_text(bytes@) == Some(chars@),
        r is Err ==> read_text(bytes@) is None,
        r matches Err(e) ==> reason_in(e) == complaint_of(Shape::Text, bytes@, usize::MAX as nat),
{
    postcard::from_bytes::<String>(bytes)
}

/// `postcard::to_allocvec` of a string and a 64 bit integer.
/// Claimed: it succeeds, and writes them as [`offer_bytes`].
#[verifier::external_body]
pub(crate) fn pack_offer(name: &str, size: u64) -> (r: Result<Vec<u8>, postcard::Error>)
    ensures
        r is Ok,
        r->Ok_0@ == offer_bytes(name@, size),
{
    postcard::to_allocvec(&(name, size))
}

/// `postcard::from_bytes` of a string and a 64 bit integer.
/// Claimed: it gives what [`read_offer`] reads, and fails where that reads
/// nothing, always for the same reason.
#[verifier::external_body]
pub(crate) fn unpack_offer(bytes: &[u8]) -> (r: Result<(String, u64), postcard::Error>)
    ensures
        r matches Ok((name, size)) ==> read_offer(bytes@) == Some((name@, size)),
        r is Err ==> read_offer(bytes@) is None,
        r matches Err(e) ==> reason_in(e) == complaint_of(Shape::Offer, bytes@, usize::MAX as nat),
{
    postcard::from_bytes::<(String, u64)>(bytes)
}

/// `postcard::to_allocvec` of a byte slice.
/// Claimed: it succeeds, and writes it as [`counted`].
#[verifier::external_body]
pub(crate) fn pack_counted(bytes: &[u8]) -> (r: Result<Vec<u8>, postcard::Error>)
    ensures
        r is Ok,
        r->Ok_0@ == counted(bytes@),
{
    postcard::to_allocvec(bytes)
}

/// `postcard::from_bytes` of a byte vector.
/// Claimed: it gives what [`read_counted`] reads, and fails where that reads
/// nothing, always for the same reason.
#[verifier::external_body]
pub(crate) fn unpack_counted(bytes: &[u8]) -> (r: Result<Vec<u8>, postcard::Error>)
    ensures
        r matches Ok(b) ==> read_counted(bytes@) == Some(b@),
        r is Err ==> read_counted(bytes@) is None,
        r matches Err(e) ==> reason_in(e) == complaint_of(Shape::Counted, bytes@, usize::MAX as nat),
{
    postcard::from_bytes::<Vec<u8>>(bytes)
}

/// `postcard::to_allocvec` of the unit value, which takes no bytes.
/// Claimed: it succeeds, and writes no bytes at all.
#[verifier::external_body]
pub(crate) fn pack_nothing() -> (r: Result<Vec<u8>, postcard::Error>)
    ensures
        r is Ok,
        r->Ok_0@ == Seq::<u8>::empty(),
{
    postcard::to_allocvec(&())
}

// ---------------------------------------------------------------------
// Reading gives back what was written.
/// One more than the largest value that `take_varint` can give.
pub open spec fn varint_cap(room: nat, last: nat) -> nat
    decreases room,
{
    if room <= 1 {
        last + 1
    } else {
        128 * varint_cap((room - 1) as nat, last)
    }
}

pub proof fn lemma_caps()
    ensures
        varint_cap(3, 3) == 0x1_0000,
        varint_cap(5, 15) == 0x1_0000_0000,
        varint_cap(10, 1) == 0x1_0000_0000_0000_0000,
{
    reveal_with_fuel(varint_cap, 10);
}

pub proof fn lemma_take_varint(n: nat, rest: Seq<u8>, room: nat, last: nat)
    requires
        room >= 1,
        last < 128,
        n < varint_cap(room, last),
    ensures
        take_varint(varint(n) + rest, room, last) == Some((n, rest)),
    decreases room,
{
    let b = varint(n) + rest;
    if n < 128 {
        assert(b.skip(1) =~= rest);
    } else {
        let high = n / 128;
        let low: nat = n % 128;
        assert(room > 1);
        lemma_take_varint(high, rest, (room - 1) as nat, last);
        assert(b[0] == (low + 128) as u8);
        assert(b.skip(1) =~= varint(high) + rest);
        assert(n == low + 128 * high);
    }
}

pub proof fn lemma_take_varint_cut(n: nat, k: int, room: nat, last: nat)
    requires
        0 <= k < varint(n).len(),
    ensures
        take_varint(varint(n).take(k), room, last) is None,
    decreases n,
{
    let b = varint(n).take(k);
    if k > 0 && room > 0 {
        assert(n >= 128);
        assert(b[0] == varint(n)[0]);
        assert(b.skip(1) =~= varint(n / 128).take(k - 1));
        lemma_take_varint_cut(n / 128, k - 1, (room - 1) as nat, last);
    }
}

pub proof fn lemma_take_u16(n: u16, rest: Seq<u8>)
    ensures
        take_u16(varint(n as nat) + rest) == Some((n as nat, rest)),
{
    lemma_caps();
    lemma_take_varint(n as nat, rest, 3, 3);
}

pub proof fn lemma_take_u32(n: nat, rest: Seq<u8>)
    requires
        n <= u32::MAX,
    ensures
        take_u32(varint(n) + rest) == Some((n, rest)),
{
    lemma_caps();
    lemma_take_varint(n, rest, 5, 15);
}

pub proof fn lemma_take_u64(n: u64, rest: Seq<u8>)
    ensures
        take_u64(varint(n as nat) + rest) == Some((n as nat, rest)),
{
    lemma_caps();
    lemma_take_varint(n as nat, rest, 10, 1);
}

pub proof fn lemma_take_count(n: nat, rest: Seq<u8>)
    requires
        n <= usize::MAX,
    ensures
        take_count(varint(n) + rest) == Some((n, rest)),
{
    lemma_caps();
    if usize::BITS == 64 {
        lemma_take_varint(n, rest, 10, 1);
    } else {
        lemma_take_varint(n, rest, 5, 15);
    }
}

pub proof fn lemma_take_counted(bytes: Seq<u8>, rest: Seq<u8>)
    requires
        bytes.len() <= usize::MAX,
    ensures
        take_counted(counted(bytes) + rest) == Some((bytes, rest)),
{
    assert(counted(bytes) + rest =~= varint(bytes.len()) + (bytes + rest));
    lemma_take_count(bytes.len(), bytes + rest);
    assert((bytes + rest).take(bytes.len() as int) =~= bytes);
    assert((bytes + rest).skip(bytes.len() as int) =~= rest);
}

pub proof fn lemma_take_text(chars: Seq<char>, rest: Seq<u8>)
    requires
        encode_utf8(chars).len() <= usize::MAX,
    ensures
        take_text(text(chars) + rest) == Some((chars, rest)),
{
    lemma_take_counted(encode_utf8(chars), rest);
    encode_utf8_valid_utf8(chars);
    encode_utf8_decode_utf8(chars);
}

pub proof fn lemma_take_flag(b: bool, rest: Seq<u8>)
    ensures
        take_flag(flag(b) + rest) == Some((b, rest)),
{
    assert((flag(b) + rest).skip(1) =~= rest);
}

pub proof fn lemma_zigzag(v: i32)
    ensures
        unzigzag(zigzag(v as int)) == v,
        zigzag(v as int) <= u32::MAX,
{
}

pub proof fn lemma_read_frame(tag: u16, body: Seq<u8>, rest: Seq<u8>)
    requires
        body.len() <= usize::MAX,
    ensures
        read_frame(frame_bytes(tag, body) + rest) == Some((tag, body)),
{
    assert(frame_bytes(tag, body) + rest =~= varint(tag as nat) + (counted(body) + rest));
    lemma_take_u16(tag, counted(body) + rest);
    lemma_take_counted(body, rest);
}

/// A frame that lost bytes at its end cannot be read.
pub proof fn lemma_read_frame_cut(tag: u16, body: Seq<u8>, k: int)
    requires
        body.len() <= usize::MAX,
        0 <= k < frame_bytes(tag, body).len(),
    ensures
        read_frame(frame_bytes(tag, body).take(k)) is None,
{
    let head = varint(tag as nat);
    let b = frame_bytes(tag, body).take(k);
    if k < head.len() {
        assert(b =~= head.take(k));
        lemma_take_varint_cut(tag as nat, k, 3, 3);
    } else {
        let k1 = k - head.len();
        let b1 = counted(body).take(k1);
        assert(b =~= head + b1);
        lemma_take_u16(tag, b1);
        let count = varint(body.len());
        if k1 < count.len() {
            assert(b1 =~= count.take(k1));
            lemma_take_varint_cut(body.len(), k1, 10, 1);
            lemma_take_varint_cut(body.len(), k1, 5, 15);
        } else {
            let k2 = k1 - count.len();
            assert(b1 =~= count + body.take(k2));
            lemma_take_count(body.len(), body.take(k2));
        }
    }
}

pub proof fn lemma_read_hello(version: u16, capabilities: u32, peer_id: Seq<char>, nonce: Seq<u8>)
    requires
        encode_utf8(peer_id).len() <= usize::MAX,
        nonce.len() == 32,
    ensures
        read_hello(hello_bytes(version, capabilities, peer_id, nonce)) == Some(
            (version, capabilities, peer_id, nonce),
        ),
{
    lemma_take_u16(version, varint(capabilities as nat) + (text(peer_id) + nonce));
    lemma_take_u32(capabilities as nat, text(peer_id) + nonce);
    lemma_take_text(peer_id, nonce);
    assert(nonce.take(32) =~= nonce);
}

pub proof fn lemma_read_pair(x: i32, y: i32)
    ensures
        read_pair(pair_bytes(x, y)) == Some((x, y)),
{
    lemma_zigzag(x);
    lemma_zigzag(y);
    lemma_take_u32(zigzag(x as int), varint(zigzag(y as int)));
    assert(varint(zigzag(y as int)) =~= varint(zigzag(y as int)) + Seq::<u8>::empty());
    lemma_take_u32(zigzag(y as int), Seq::empty());
}

pub proof fn lemma_read_choice(index: u32, pressed: bool)
    ensures
        read_choice(choice_bytes(index, pressed)) == Some((index, pressed)),
{
    lemma_take_u32(index as nat, flag(pressed));
    assert(flag(pressed) =~= flag(pressed) + Seq::<u8>::empty());
    lemma_take_flag(pressed, Seq::empty());
}

pub proof fn lemma_read_key(code: u16, pressed: bool)
    ensures
        read_key(key_bytes(code, pressed)) == Some((code, pressed)),
{
    lemma_take_u16(code, flag(pressed));
    assert(flag(pressed) =~= flag(pressed) + Seq::<u8>::empty());
    lemma_take_flag(pressed, Seq::empty());
}

pub proof fn lemma_read_word(bits: u32)
    ensures
        read_word(spec_u32_to_le_bytes(bits)) == Some(spec_u32_to_le_bytes(bits)),
        spec_u32_from_le_bytes(spec_u32_to_le_bytes(bits)) == bits,
{
    lemma_auto_spec_u32_to_from_le_bytes();
    assert(spec_u32_to_le_bytes(bits).take(4) =~= spec_u32_to_le_bytes(bits));
}

pub proof fn lemma_read_text(chars: Seq<char>)
    requires
        encode_utf8(chars).len() <= usize::MAX,
    ensures
        read_text(text(chars)) == Some(chars),
{
    assert(text(chars) =~= text(chars) + Seq::<u8>::empty());
    lemma_take_text(chars, Seq::empty());
}

pub proof fn lemma_read_offer(name: Seq<char>, size: u64)
    requires
        encode_utf8(name).len() <= usize::MAX,
    ensures
        read_offer(offer_bytes(name, size)) == Some((name, size)),
{
    lemma_take_text(name, varint(size as nat));
    assert(varint(size as nat) =~= varint(size as nat) + Seq::<u8>::empty());
    lemma_take_u64(size, Seq::empty());
}

pub proof fn lemma_read_counted(bytes: Seq<u8>)
    requires
        bytes.len() <= usize::MAX,
    ensures
        read_counted(counted(bytes)) == Some(bytes),
{
    assert(counted(bytes) =~= counted(bytes) + Seq::<u8>::empty());
    lemma_take_counted(bytes, Seq::empty());
}

} // verus!
