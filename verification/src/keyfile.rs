//! The shared key as text: what a key file holds.

use base64::Engine;
use vstd::prelude::*;

use crate::crypto::SharedKey;
use crate::text;
use crate::text::{decimal_text, trim};

verus! {

/// The base64 symbol of a number below 64.
pub open spec fn symbol(n: int) -> char {
    if n < 26 {
        ('A' as int + n) as char
    } else if n < 52 {
        ('a' as int + n - 26) as char
    } else if n < 62 {
        ('0' as int + n - 52) as char
    } else if n == 62 {
        '+'
    } else {
        '/'
    }
}

/// Bytes in base64: every three as four symbols of six bits each, and what
/// is left at the end filled up with "=".
pub open spec fn encoded(bytes: Seq<u8>) -> Seq<char>
    decreases bytes.len(),
{
    if bytes.len() == 0 {
        Seq::empty()
    } else {
        let a = bytes[0] as int;
        if bytes.len() == 1 {
            seq![symbol(a / 4), symbol(a % 4 * 16), '=', '=']
        } else {
            let b = bytes[1] as int;
            if bytes.len() == 2 {
                seq![symbol(a / 4), symbol(a % 4 * 16 + b / 16), symbol(b % 16 * 4), '=']
            } else {
                let c = bytes[2] as int;
                seq![
                    symbol(a / 4),
                    symbol(a % 4 * 16 + b / 16),
                    symbol(b % 16 * 4 + c / 64),
                    symbol(c % 64),
                ] + encoded(bytes.skip(3))
            }
        }
    }
}

/// What `base64` says of text that is no base64: its error, as it displays.
pub uninterp spec fn complaint(text: Seq<char>) -> Seq<char>;

/// `base64`'s `Engine::encode` with the standard alphabet and padding.
#[verifier::external_body]
fn encode(bytes: &[u8; 32]) -> (r: String)
    ensures
        r@ == encoded(bytes@),
{
    base64::engine::general_purpose::STANDARD.encode(bytes)
}

/// `base64`'s `Engine::decode` with the standard alphabet and padding. Only
/// what encoding gives is accepted: padding must be there, and the bits
/// that it leaves unused must be zero. Of text that is refused, the error
/// is a function of that text.
#[verifier::external_body]
fn decode(text: &str) -> (r: Result<Vec<u8>, String>)
    ensures
        r is Ok ==> encoded(r->Ok_0@) == text@,
        r is Err ==> (forall|bytes: Seq<u8>| encoded(bytes) != text@) && r->Err_0@ == complaint(text@),
{
    base64::engine::general_purpose::STANDARD.decode(text).map_err(|e| e.to_string())
}

proof fn lemma_symbol(m: int, n: int)
    requires
        0 <= m < 64,
        0 <= n < 64,
    ensures
        symbol(m) == symbol(n) <==> m == n,
        symbol(m) != '=',
        !text::is_space(symbol(m)),
{
}

/// Two texts are the same only if they stand for the same bytes.
pub proof fn law_no_two_keys_share_a_text(a: Seq<u8>, b: Seq<u8>)
    requires
        encoded(a) == encoded(b),
    ensures
        a == b,
    decreases a.len(),
{
    let s = encoded(a);
    if a.len() == 0 || b.len() == 0 {
        assert(s.len() == 0);
        assert(a =~= b);
    } else {
        let (a0, b0) = (a[0] as int, b[0] as int);
        let a1 = if a.len() > 1 {
            a[1] as int
        } else {
            0
        };
        let b1 = if b.len() > 1 {
            b[1] as int
        } else {
            0
        };
        let a2 = if a.len() > 2 {
            a[2] as int
        } else {
            0
        };
        let b2 = if b.len() > 2 {
            b[2] as int
        } else {
            0
        };
        lemma_symbol(a0 / 4, b0 / 4);
        lemma_symbol(a0 % 4 * 16 + a1 / 16, b0 % 4 * 16 + b1 / 16);
        lemma_symbol(a1 % 16 * 4 + a2 / 64, b1 % 16 * 4 + b2 / 64);
        lemma_symbol(a2 % 64, b2 % 64);
        assert(s[0] == symbol(a0 / 4) && s[0] == symbol(b0 / 4));
        assert(s[1] == symbol(a0 % 4 * 16 + a1 / 16) && s[1] == symbol(b0 % 4 * 16 + b1 / 16));
        assert(a.len() > 1 ==> s[2] == symbol(a1 % 16 * 4 + a2 / 64));
        assert(b.len() > 1 ==> s[2] == symbol(b1 % 16 * 4 + b2 / 64));
        assert(a.len() > 2 ==> s[3] == symbol(a2 % 64));
        assert(b.len() > 2 ==> s[3] == symbol(b2 % 64));
        assert(a0 == b0 && a1 == b1);
        if a.len() > 2 && b.len() > 2 {
            assert(a2 == b2);
            assert(s.skip(4) =~= encoded(a.skip(3)));
            assert(s.skip(4) =~= encoded(b.skip(3)));
            law_no_two_keys_share_a_text(a.skip(3), b.skip(3));
            assert(a =~= seq![a[0], a[1], a[2]] + a.skip(3));
            assert(b =~= seq![b[0], b[1], b[2]] + b.skip(3));
        } else {
            assert(a.len() == b.len());
            assert(a =~= b);
        }
    }
}

proof fn lemma_no_spaces(bytes: Seq<u8>)
    ensures
        forall|i: int| 0 <= i < encoded(bytes).len() ==> !text::is_space(#[trigger] encoded(bytes)[i]),
    decreases bytes.len(),
{
    if bytes.len() > 0 {
        let a = bytes[0] as int;
        let b = if bytes.len() > 1 {
            bytes[1] as int
        } else {
            0
        };
        let c = if bytes.len() > 2 {
            bytes[2] as int
        } else {
            0
        };
        lemma_symbol(a / 4, 0);
        lemma_symbol(a % 4 * 16 + b / 16, 0);
        lemma_symbol(b % 16 * 4 + c / 64, 0);
        lemma_symbol(c % 64, 0);
        if bytes.len() > 2 {
            lemma_no_spaces(bytes.skip(3));
            let rest = encoded(bytes.skip(3));
            assert forall|i: int| 0 <= i < encoded(bytes).len() implies !text::is_space(
                #[trigger] encoded(bytes)[i],
            ) by {
                if i >= 4 {
                    assert(encoded(bytes)[i] == rest[i - 4]);
                }
            }
        }
    }
}

/// Whether a key file's text holds a key; white space around it does not
/// matter.
pub open spec fn holds(text: Seq<char>, key: Seq<u8>) -> bool {
    key.len() == 32 && encoded(key) == text::trimmed(text)
}

/// What is wrong with a key of another length.
pub open spec fn length_reason(n: nat) -> Seq<char> {
    "expected a 32-byte key, got "@ + text::decimal(n) + " bytes"@
}

/// The text that a key file holds for a key.
pub fn key_text(key: &SharedKey) -> (r: String)
    ensures
        r@ == encoded(key@),
{
    encode(key.as_bytes())
}

fn to_array(bytes: &Vec<u8>) -> (r: [u8; 32])
    requires
        bytes@.len() == 32,
    ensures
        r@ == bytes@,
{
    let mut out: [u8; 32] = [0u8; 32];
    let mut i: usize = 0;
    while i < 32
        invariant
            i <= 32,
            bytes@.len() == 32,
            out@.len() == 32,
            forall|j: int| 0 <= j < i ==> out@[j] == bytes@[j],
        decreases 32 - i,
    {
        out[i] = bytes[i];
        i = i + 1;
    }
    assert(out@ =~= bytes@);
    out
}

/// Whether this is the reason why a key file's text holds no key: it is no
/// base64, and then the reason is `base64`'s own, or it stands for another
/// number of bytes.
pub open spec fn refused(text: Seq<char>, reason: Seq<char>) -> bool {
    ||| (forall|bytes: Seq<u8>| encoded(bytes) != text::trimmed(text)) && reason == complaint(
        text::trimmed(text),
    )
    ||| exists|bytes: Seq<u8>|
        #[trigger] encoded(bytes) == text::trimmed(text) && bytes.len() != 32 && reason == length_reason(
            bytes.len(),
        )
}

/// The key that a key file's text holds, or the reason why it holds none.
pub fn key_from_text(text: &str) -> (r: Result<SharedKey, String>)
    ensures
        match r {
            Ok(key) => holds(text@, key@),
            Err(reason) => refused(text@, reason@),
        },
{
    let bare: String = trim(text);
    let bytes: Vec<u8> = match decode(bare.as_str()) {
        Err(reason) => {
            return Err(reason);
        },
        Ok(bytes) => bytes,
    };
    if bytes.len() != 32 {
        let reason: String = "expected a 32-byte key, got ".to_owned().concat(
            decimal_text(bytes.len() as u64).as_str(),
        ).concat(" bytes");
        assert(encoded(bytes@) == text::trimmed(text@));
        return Err(reason);
    }
    Ok(SharedKey::from_bytes(to_array(&bytes)))
}

/// The text written for a key holds that key and no other, so that reading
/// the file gives the key back.
pub proof fn law_a_written_key_reads_back(key: Seq<u8>, other: Seq<u8>)
    requires
        key.len() == 32,
    ensures
        holds(encoded(key), key),
        holds(encoded(key), other) ==> other == key,
{
    lemma_no_spaces(key);
    text::lemma_trimmed_already(encoded(key));
    if holds(encoded(key), other) {
        law_no_two_keys_share_a_text(key, other);
    }
}

/// Text that is refused holds no key.
pub proof fn law_a_refused_text_holds_no_key(text: Seq<char>, reason: Seq<char>, key: Seq<u8>)
    requires
        refused(text, reason),
    ensures
        !holds(text, key),
{
    if holds(text, key) {
        let bytes = choose|bytes: Seq<u8>|
            #[trigger] encoded(bytes) == text::trimmed(text) && bytes.len() != 32;
        law_no_two_keys_share_a_text(key, bytes);
    }
}

} // verus!
