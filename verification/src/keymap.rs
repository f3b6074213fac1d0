//! Key names, as a configuration file spells them.

use vstd::prelude::*;

use crate::keys::Usage;
use crate::text;

verus! {

/// The key of a modifier's name.
pub open spec fn modifier_named(name: Seq<char>) -> Option<Usage> {
    if name == "LeftCtrl"@ {
        Some(Usage(Usage::LEFT_CTRL))
    } else if name == "LeftShift"@ {
        Some(Usage(Usage::LEFT_SHIFT))
    } else if name == "LeftAlt"@ {
        Some(Usage(Usage::LEFT_ALT))
    } else if name == "LeftGui"@ {
        Some(Usage(Usage::LEFT_GUI))
    } else if name == "RightCtrl"@ {
        Some(Usage(Usage::RIGHT_CTRL))
    } else if name == "RightShift"@ {
        Some(Usage(Usage::RIGHT_SHIFT))
    } else if name == "RightAlt"@ {
        Some(Usage(Usage::RIGHT_ALT))
    } else if name == "RightGui"@ {
        Some(Usage(Usage::RIGHT_GUI))
    } else {
        None
    }
}

/// The key of a single upper case ASCII letter.
pub open spec fn letter_named(name: Seq<char>) -> Option<Usage> {
    if name.len() == 1 && 'A' <= name[0] && name[0] <= 'Z' {
        Some(Usage((0x04 + (name[0] as u32 - 'A' as u32)) as u16))
    } else {
        None
    }
}

/// The key of a single digit. The usages go from 1 to 9, and then to 0.
pub open spec fn digit_named(name: Seq<char>) -> Option<Usage> {
    if name.len() == 1 && '1' <= name[0] && name[0] <= '9' {
        Some(Usage((0x1E + (name[0] as u32 - '1' as u32)) as u16))
    } else if name.len() == 1 && name[0] == '0' {
        Some(Usage(0x27))
    } else {
        None
    }
}

/// The key of an arrow's name.
pub open spec fn arrow_named(name: Seq<char>) -> Option<Usage> {
    if name == "Up"@ {
        Some(Usage(0x52))
    } else if name == "Down"@ {
        Some(Usage(0x51))
    } else if name == "Left"@ {
        Some(Usage(0x50))
    } else if name == "Right"@ {
        Some(Usage(0x4F))
    } else {
        None
    }
}

/// The key of "F" and a number from 1 to 12, in plain decimal.
pub open spec fn function_named(name: Seq<char>) -> Option<Usage> {
    if name.len() > 0 && name[0] == 'F' {
        match text::plain_number(name.skip(1), 12) {
            Some(n) => if n >= 1 {
                Some(Usage((0x39 + n) as u16))
            } else {
                None
            },
            None => None,
        }
    } else {
        None
    }
}

/// The function keys are "F1" through "F12", and have no other names.
pub proof fn law_function_keys_have_one_name(name: Seq<char>, key: Usage)
    ensures
        function_named(name) == Some(key) <==> exists|n: nat|
            1 <= n <= 12 && key == Usage((0x39 + n) as u16) && name == seq!['F'] + #[trigger] text::decimal(n),
{
    if function_named(name) == Some(key) {
        let n = text::plain_number(name.skip(1), 12)->0;
        text::law_plain_numbers_have_one_form(name.skip(1), 12, n);
        assert(name =~= seq!['F'] + text::decimal(n));
    }
    if exists|n: nat| 1 <= n <= 12 && key == Usage((0x39 + n) as u16) && name == seq!['F'] + #[trigger] text::decimal(n) {
        let n = choose|n: nat|
            1 <= n <= 12 && key == Usage((0x39 + n) as u16) && name == seq!['F'] + #[trigger] text::decimal(n);
        assert(name.skip(1) =~= text::decimal(n));
        text::law_plain_numbers_have_one_form(name.skip(1), 12, n);
    }
}

/// The key of a name, if it is one.
pub open spec fn key_named(name: Seq<char>) -> Option<Usage> {
    if modifier_named(name) is Some {
        modifier_named(name)
    } else if letter_named(name) is Some {
        letter_named(name)
    } else if digit_named(name) is Some {
        digit_named(name)
    } else if arrow_named(name) is Some {
        arrow_named(name)
    } else if function_named(name) is Some {
        function_named(name)
    } else if name == "Escape"@ {
        Some(Usage(Usage::ESCAPE))
    } else {
        None
    }
}

/// No key has two names.
pub proof fn law_no_two_names_share_a_key(a: Seq<char>, b: Seq<char>)
    requires
        key_named(a) is Some,
        key_named(a) == key_named(b),
    ensures
        a == b,
{
    lemma_function_key_range(a);
    lemma_function_key_range(b);
    if letter_named(a) is Some && letter_named(b) is Some {
        assert(a =~= b);
    }
    if digit_named(a) is Some && digit_named(b) is Some {
        assert(a =~= b);
    }
}

proof fn lemma_function_key_range(name: Seq<char>)
    ensures
        function_named(name) matches Some(key) ==> {
            &&& 0x3A <= key.0 <= 0x45
            &&& name == seq!['F'] + text::decimal((key.0 - 0x39) as nat)
        },
{
    if let Some(key) = function_named(name) {
        law_function_keys_have_one_name(name, key);
    }
}

/// Look up a key name, returning its usage, or `None` if the name is not
/// recognized. Names are case sensitive.
pub fn lookup(name: &str) -> (r: Option<Usage>)
    ensures
        r == key_named(name@),
{
    let found = modifier(name);
    if found.is_some() {
        return found;
    }
    let found = letter(name);
    if found.is_some() {
        return found;
    }
    let found = digit(name);
    if found.is_some() {
        return found;
    }
    let found = arrow(name);
    if found.is_some() {
        return found;
    }
    let found = function_key(name);
    if found.is_some() {
        return found;
    }
    if text::same(name, "Escape") {
        Some(Usage(Usage::ESCAPE))
    } else {
        None
    }
}

fn modifier(name: &str) -> (r: Option<Usage>)
    ensures
        r == modifier_named(name@),
{
    if text::same(name, "LeftCtrl") {
        Some(Usage(Usage::LEFT_CTRL))
    } else if text::same(name, "LeftShift") {
        Some(Usage(Usage::LEFT_SHIFT))
    } else if text::same(name, "LeftAlt") {
        Some(Usage(Usage::LEFT_ALT))
    } else if text::same(name, "LeftGui") {
        Some(Usage(Usage::LEFT_GUI))
    } else if text::same(name, "RightCtrl") {
        Some(Usage(Usage::RIGHT_CTRL))
    } else if text::same(name, "RightShift") {
        Some(Usage(Usage::RIGHT_SHIFT))
    } else if text::same(name, "RightAlt") {
        Some(Usage(Usage::RIGHT_ALT))
    } else if text::same(name, "RightGui") {
        Some(Usage(Usage::RIGHT_GUI))
    } else {
        None
    }
}

fn letter(name: &str) -> (r: Option<Usage>)
    ensures
        r == letter_named(name@),
{
    let cs: Vec<char> = text::chars(name);
    if cs.len() == 1 && 'A' <= cs[0] && cs[0] <= 'Z' {
        Some(Usage((0x04 + (cs[0] as u32 - 'A' as u32)) as u16))
    } else {
        None
    }
}

fn digit(name: &str) -> (r: Option<Usage>)
    ensures
        r == digit_named(name@),
{
    let cs: Vec<char> = text::chars(name);
    if cs.len() != 1 {
        None
    } else if '1' <= cs[0] && cs[0] <= '9' {
        Some(Usage((0x1E + (cs[0] as u32 - '1' as u32)) as u16))
    } else if cs[0] == '0' {
        Some(Usage(0x27))
    } else {
        None
    }
}

fn arrow(name: &str) -> (r: Option<Usage>)
    ensures
        r == arrow_named(name@),
{
    if text::same(name, "Up") {
        Some(Usage(0x52))
    } else if text::same(name, "Down") {
        Some(Usage(0x51))
    } else if text::same(name, "Left") {
        Some(Usage(0x50))
    } else if text::same(name, "Right") {
        Some(Usage(0x4F))
    } else {
        None
    }
}

fn function_key(name: &str) -> (r: Option<Usage>)
    ensures
        r == function_named(name@),
{
    let cs: Vec<char> = text::chars(name);
    if cs.len() == 0 || cs[0] != 'F' {
        return None;
    }
    let number: &str = name.substring_char(1, cs.len());
    assert(number@ =~= name@.skip(1));
    match text::parse_plain(number, 12) {
        Some(n) => if 1 <= n {
            Some(Usage((0x39 + n) as u16))
        } else {
            None
        },
        None => None,
    }
}

/// The keys of a number of names, or the first name that is none.
pub open spec fn keys_named(names: Seq<Seq<char>>) -> Result<Seq<Usage>, Seq<char>>
    decreases names.len(),
{
    if names.len() == 0 {
        Ok(Seq::empty())
    } else {
        match keys_named(names.drop_last()) {
            Err(bad) => Err(bad),
            Ok(keys) => match key_named(names.last()) {
                Some(key) => Ok(keys.push(key)),
                None => Err(names.last()),
            },
        }
    }
}

/// What a first part that has a name that is none says of the whole.
proof fn lemma_first_bad_name(names: Seq<Seq<char>>, i: int)
    requires
        0 <= i <= names.len(),
        keys_named(names.take(i)) is Err,
    ensures
        keys_named(names) == keys_named(names.take(i)),
    decreases names.len(),
{
    if i < names.len() {
        assert(names.drop_last().take(i) =~= names.take(i));
        lemma_first_bad_name(names.drop_last(), i);
    } else {
        assert(names.take(i) =~= names);
    }
}

/// The keys of a combination such as "LeftCtrl+LeftAlt+Escape", in the
/// order in which they are named. The error is the first name that is not
/// recognized.
pub fn parse_combo(raw: &str) -> (r: Result<Vec<Usage>, String>)
    ensures
        match keys_named(text::pieces(raw@, '+')) {
            Ok(keys) => r matches Ok(got) && got@ == keys,
            Err(bad) => r matches Err(got) && got@ == bad,
        },
{
    let names: Vec<String> = text::split(raw, '+');
    let ghost all = text::views(names@);
    let mut keys: Vec<Usage> = Vec::new();
    let mut i: usize = 0;
    assert(all.take(0) =~= Seq::<Seq<char>>::empty());
    while i < names.len()
        invariant
            i <= names@.len(),
            all == text::views(names@),
            all == text::pieces(raw@, '+'),
            keys_named(all.take(i as int)) == Ok::<Seq<Usage>, Seq<char>>(keys@),
        decreases names@.len() - i,
    {
        proof {
            assert(all.take(i + 1).drop_last() =~= all.take(i as int));
            assert(all.take(i + 1).last() == names@[i as int]@);
        }
        match lookup(names[i].as_str()) {
            Some(key) => keys.push(key),
            None => {
                proof {
                    lemma_first_bad_name(all, i + 1);
                }
                return Err(names[i].clone());
            },
        }
        i = i + 1;
    }
    assert(all.take(i as int) =~= all);
    Ok(keys)
}

proof fn lemma_names()
    ensures
        "LeftCtrl"@.len() == 8,
        "LeftShift"@.len() == 9,
        "LeftAlt"@.len() == 7,
        "LeftGui"@.len() == 7,
        "RightCtrl"@.len() == 9,
        "RightShift"@.len() == 10,
        "RightAlt"@.len() == 8,
        "RightGui"@.len() == 8,
        "Up"@.len() == 2,
        "Down"@.len() == 4,
        "Left"@.len() == 4,
        "Right"@.len() == 5,
        "Escape"@.len() == 6,
        "LeftCtrl"@[4] == 'C',
        "RightAlt"@[0] == 'R',
        "RightAlt"@[5] == 'A',
        "RightGui"@[5] == 'G',
        "LeftCtrl"@[0] == 'L',
        "LeftShift"@[0] == 'L',
        "RightCtrl"@[0] == 'R',
        "RightShift"@[0] == 'R',
        "RightGui"@[0] == 'R',
        "LeftAlt"@[4] == 'A',
        "LeftGui"@[4] == 'G',
        "LeftAlt"@[0] == 'L',
        "LeftGui"@[0] == 'L',
        "Up"@[0] == 'U',
        "Down"@[0] == 'D',
        "Left"@[0] == 'L',
        "Right"@[0] == 'R',
        "Escape"@[0] == 'E',
{
    reveal_strlit("LeftCtrl");
    reveal_strlit("LeftShift");
    reveal_strlit("LeftAlt");
    reveal_strlit("LeftGui");
    reveal_strlit("RightCtrl");
    reveal_strlit("RightShift");
    reveal_strlit("RightAlt");
    reveal_strlit("RightGui");
    reveal_strlit("Up");
    reveal_strlit("Down");
    reveal_strlit("Left");
    reveal_strlit("Right");
    reveal_strlit("Escape");
}

/// Every key that has a name goes by it: the modifiers by their side, the
/// letters in upper case, the digits, the function keys, the arrows and the
/// escape key. Nothing else is a name.
pub proof fn law_keys_go_by_their_names(name: Seq<char>)
    ensures
        name == "LeftCtrl"@ ==> key_named(name) == Some(Usage(0xE0)),
        name == "LeftShift"@ ==> key_named(name) == Some(Usage(0xE1)),
        name == "LeftAlt"@ ==> key_named(name) == Some(Usage(0xE2)),
        name == "LeftGui"@ ==> key_named(name) == Some(Usage(0xE3)),
        name == "RightCtrl"@ ==> key_named(name) == Some(Usage(0xE4)),
        name == "RightShift"@ ==> key_named(name) == Some(Usage(0xE5)),
        name == "RightAlt"@ ==> key_named(name) == Some(Usage(0xE6)),
        name == "RightGui"@ ==> key_named(name) == Some(Usage(0xE7)),
        name == "Right"@ ==> key_named(name) == Some(Usage(0x4F)),
        name == "Left"@ ==> key_named(name) == Some(Usage(0x50)),
        name == "Down"@ ==> key_named(name) == Some(Usage(0x51)),
        name == "Up"@ ==> key_named(name) == Some(Usage(0x52)),
        name == "Escape"@ ==> key_named(name) == Some(Usage(0x29)),
        forall|c: char| 'A' <= c && c <= 'Z' && name == seq![c] ==> #[trigger] letter_of(c) == key_named(name),
        forall|c: char| '0' <= c && c <= '9' && name == seq![c] ==> key_named(name) == Some(
            Usage(#[trigger] crate::keys::character_key(c)),
        ),
        forall|n: nat| 1 <= n <= 12 && name == seq!['F'] + #[trigger] text::decimal(n) ==> key_named(name) == Some(
            Usage((0x39 + n) as u16),
        ),
        key_named(name) is Some ==> name == "LeftCtrl"@ || name == "LeftShift"@ || name == "LeftAlt"@ || name
            == "LeftGui"@ || name == "RightCtrl"@ || name == "RightShift"@ || name == "RightAlt"@ || name
            == "RightGui"@ || name == "Right"@ || name == "Left"@ || name == "Down"@ || name == "Up"@ || name
            == "Escape"@ || (name.len() == 1 && ('A' <= name[0] && name[0] <= 'Z' || '0' <= name[0] && name[0] <= '9'))
            || exists|n: nat| 1 <= n <= 12 && name == seq!['F'] + #[trigger] text::decimal(n),
{
    lemma_names();
    lemma_function_key_range(name);
    if name.len() > 0 && name[0] != 'F' {
        assert(function_named(name) is None);
    }
    assert forall|n: nat| 1 <= n <= 12 && name == seq!['F'] + #[trigger] text::decimal(n) implies key_named(name)
        == Some(Usage((0x39 + n) as u16)) by {
        law_function_keys_have_one_name(name, Usage((0x39 + n) as u16));
        text::lemma_decimal_is_digits(n);
        assert(name[0] == 'F');
        assert(name.len() >= 2);
    }
    if name.len() == 1 && name[0] == 'F' {
        assert(letter_named(name) is Some);
    }
}

/// The key of a letter, which is that of its lower case.
pub open spec fn letter_of(c: char) -> Option<Usage> {
    Some(Usage(crate::keys::character_key((c as u32 + 32) as char)))
}

/// The keys of a combination are those of its names, one for one and in
/// order, if all of them are keys' names; if not, the first that is none is
/// named.
pub proof fn law_a_combination_names_its_keys_in_order(names: Seq<Seq<char>>)
    ensures
        match keys_named(names) {
            Ok(keys) => keys.len() == names.len() && forall|i: int|
                0 <= i < names.len() ==> key_named(#[trigger] names[i]) == Some(keys[i]),
            Err(bad) => exists|i: int|
                {
                    &&& 0 <= i < names.len()
                    &&& #[trigger] names[i] == bad
                    &&& key_named(bad) is None
                    &&& forall|j: int| 0 <= j < i ==> key_named(#[trigger] names[j]) is Some
                },
        },
    decreases names.len(),
{
    if names.len() > 0 {
        let start = names.drop_last();
        law_a_combination_names_its_keys_in_order(start);
        match keys_named(start) {
            Ok(keys) => {
                assert forall|i: int| 0 <= i < start.len() implies key_named(#[trigger] names[i]) == Some(keys[i]) by {
                    assert(start[i] == names[i]);
                }
                assert(names[names.len() - 1] == names.last());
            },
            Err(bad) => {
                let i = choose|i: int|
                    {
                        &&& 0 <= i < start.len()
                        &&& #[trigger] start[i] == bad
                        &&& key_named(bad) is None
                        &&& forall|j: int| 0 <= j < i ==> key_named(#[trigger] start[j]) is Some
                    };
                assert(names[i] == bad);
                assert forall|j: int| 0 <= j < i implies key_named(#[trigger] names[j]) is Some by {
                    assert(start[j] == names[j]);
                }
            },
        }
    }
}

} // verus!
