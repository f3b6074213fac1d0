//! Keys, named by their USB HID usage codes.

use vstd::prelude::*;

verus! {

/// A key identified by its USB HID usage code (Keyboard page, 0x07).
///
/// HID codes keep the wire format platform neutral: each platform
/// translates its native codes to and from this type at the edges.
#[derive(Debug, Clone, Copy, PartialEq, Eq, PartialOrd, Ord, Hash, Structural)]
pub struct Usage(pub u16);

/// The codes of the keys that the rules name.
impl Usage {
    pub const A: u16 = 0x04;
    pub const C: u16 = 0x06;
    pub const V: u16 = 0x19;
    pub const ESCAPE: u16 = 0x29;

    pub const LEFT_CTRL: u16 = 0xE0;
    pub const LEFT_SHIFT: u16 = 0xE1;
    pub const LEFT_ALT: u16 = 0xE2;
    pub const LEFT_GUI: u16 = 0xE3;
    pub const RIGHT_CTRL: u16 = 0xE4;
    pub const RIGHT_SHIFT: u16 = 0xE5;
    pub const RIGHT_ALT: u16 = 0xE6;
    pub const RIGHT_GUI: u16 = 0xE7;

    /// True for the eight modifier keys, which occupy 0xE0..=0xE7 in the
    /// HID table.
    pub open spec fn spec_is_modifier(self) -> bool {
        0xE0 <= self.0 <= 0xE7
    }

    /// True for the eight modifier keys. Modifiers matter separately
    /// because one stuck down on the receiving side is the worst failure
    /// this tool has.
    pub fn is_modifier(&self) -> (r: bool)
        ensures
            r == self.spec_is_modifier(),
    {
        0xE0 <= self.0 && self.0 <= 0xE7
    }
}

/// The usage of the key that types a character on an American keyboard: the
/// letters in alphabetical order, the digits from 1 to 9 and then 0, and the
/// signs.
pub open spec fn character_key(c: char) -> u16 {
    if 'a' <= c && c <= 'z' {
        (0x04 + (c as int - 'a' as int)) as u16
    } else if '1' <= c && c <= '9' {
        (0x1E + (c as int - '1' as int)) as u16
    } else if c == '0' {
        0x27
    } else if c == '-' {
        0x2D
    } else if c == '=' {
        0x2E
    } else if c == '[' {
        0x2F
    } else if c == ']' {
        0x30
    } else if c == '\\' {
        0x31
    } else if c == ';' {
        0x33
    } else if c == '\'' {
        0x34
    } else if c == '`' {
        0x35
    } else if c == ',' {
        0x36
    } else if c == '.' {
        0x37
    } else {
        0x38
    }
}

/// The usage of the key that types a character on the numeric keypad.
pub open spec fn keypad_key(c: char) -> u16 {
    if '1' <= c && c <= '9' {
        (0x59 + (c as int - '1' as int)) as u16
    } else if c == '0' {
        0x62
    } else if c == '.' {
        0x63
    } else if c == '/' {
        0x54
    } else if c == '*' {
        0x55
    } else if c == '-' {
        0x56
    } else if c == '+' {
        0x57
    } else {
        0x67
    }
}

/// The usage of a function key.
pub open spec fn function_key(n: int) -> u16 {
    if n <= 12 {
        (0x3A + (n - 1)) as u16
    } else {
        (0x68 + (n - 13)) as u16
    }
}

/// The modifiers lie together, the left ones before the right ones, in the
/// order of control, shift, alt and the command or Windows key. Nothing else
/// is a modifier.
pub proof fn law_the_modifiers_lie_together(usage: Usage)
    ensures
        Usage::LEFT_CTRL == 0xE0,
        Usage::LEFT_SHIFT == Usage::LEFT_CTRL + 1,
        Usage::LEFT_ALT == Usage::LEFT_SHIFT + 1,
        Usage::LEFT_GUI == Usage::LEFT_ALT + 1,
        Usage::RIGHT_CTRL == Usage::LEFT_CTRL + 4,
        Usage::RIGHT_SHIFT == Usage::LEFT_SHIFT + 4,
        Usage::RIGHT_ALT == Usage::LEFT_ALT + 4,
        Usage::RIGHT_GUI == Usage::LEFT_GUI + 4,
        usage.spec_is_modifier() <==> Usage::LEFT_CTRL <= usage.0 <= Usage::LEFT_GUI || Usage::RIGHT_CTRL <= usage.0
            <= Usage::RIGHT_GUI,
        Usage::A == character_key('a'),
        Usage::C == character_key('c'),
        Usage::V == character_key('v'),
{
}

} // verus!
