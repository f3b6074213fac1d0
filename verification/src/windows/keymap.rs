//! The scan codes that Windows takes.

use vstd::prelude::*;

use crate::keys::Usage;

verus! {

/// How many keys the table has.
pub const ROWS: usize = 108;

/// USB HID usages with their PS/2 set 1 scan codes and the extended-key
/// flag, in ascending order of the usages.
///
/// Extended keys share a base scan code with a key that is not extended.
/// Home, End, Page Up, Page Down and forward delete are of this kind: on a
/// real keyboard they share theirs with a key of the numeric keypad. A
/// wrong flag does not drop such a key, it sticks the keypad's key down
/// instead, which is worse.
pub const TABLE: [(u16, u16, bool); 108] = [
    (0x04, 0x1E, false), // a
    (0x05, 0x30, false), // b
    (0x06, 0x2E, false), // c
    (0x07, 0x20, false), // d
    (0x08, 0x12, false), // e
    (0x09, 0x21, false), // f
    (0x0A, 0x22, false), // g
    (0x0B, 0x23, false), // h
    (0x0C, 0x17, false), // i
    (0x0D, 0x24, false), // j
    (0x0E, 0x25, false), // k
    (0x0F, 0x26, false), // l
    (0x10, 0x32, false), // m
    (0x11, 0x31, false), // n
    (0x12, 0x18, false), // o
    (0x13, 0x19, false), // p
    (0x14, 0x10, false), // q
    (0x15, 0x13, false), // r
    (0x16, 0x1F, false), // s
    (0x17, 0x14, false), // t
    (0x18, 0x16, false), // u
    (0x19, 0x2F, false), // v
    (0x1A, 0x11, false), // w
    (0x1B, 0x2D, false), // x
    (0x1C, 0x15, false), // y
    (0x1D, 0x2C, false), // z
    (0x1E, 0x02, false), // 1
    (0x1F, 0x03, false), // 2
    (0x20, 0x04, false), // 3
    (0x21, 0x05, false), // 4
    (0x22, 0x06, false), // 5
    (0x23, 0x07, false), // 6
    (0x24, 0x08, false), // 7
    (0x25, 0x09, false), // 8
    (0x26, 0x0A, false), // 9
    (0x27, 0x0B, false), // 0
    (0x28, 0x1C, false), // return
    (0x29, 0x01, false), // escape
    (0x2A, 0x0E, false), // backspace
    (0x2B, 0x0F, false), // tab
    (0x2C, 0x39, false), // space
    (0x2D, 0x0C, false), // -
    (0x2E, 0x0D, false), // =
    (0x2F, 0x1A, false), // [
    (0x30, 0x1B, false), // ]
    (0x31, 0x2B, false), // backslash
    (0x33, 0x27, false), // ;
    (0x34, 0x28, false), // '
    (0x35, 0x29, false), // `
    (0x36, 0x33, false), // ,
    (0x37, 0x34, false), // .
    (0x38, 0x35, false), // /
    (0x39, 0x3A, false), // caps lock
    (0x3A, 0x3B, false), // f1
    (0x3B, 0x3C, false), // f2
    (0x3C, 0x3D, false), // f3
    (0x3D, 0x3E, false), // f4
    (0x3E, 0x3F, false), // f5
    (0x3F, 0x40, false), // f6
    (0x40, 0x41, false), // f7
    (0x41, 0x42, false), // f8
    (0x42, 0x43, false), // f9
    (0x43, 0x44, false), // f10
    (0x44, 0x57, false), // f11
    (0x45, 0x58, false), // f12
    (0x4A, 0x47, true), // home; shares base scancode with keypad 7
    (0x4B, 0x49, true), // page up; shares base scancode with keypad 9
    (0x4C, 0x53, true), // forward delete; shares base scancode with keypad .
    (0x4D, 0x4F, true), // end; shares base scancode with keypad 1
    (0x4E, 0x51, true), // page down; shares base scancode with keypad 3
    (0x4F, 0x4D, true), // right arrow
    (0x50, 0x4B, true), // left arrow
    (0x51, 0x50, true), // down arrow
    (0x52, 0x48, true), // up arrow
    (0x53, 0x45, false), // keypad num lock / clear
    (0x54, 0x35, true), // keypad /; shares base scancode with "/"
    (0x55, 0x37, false), // keypad *
    (0x56, 0x4A, false), // keypad -
    (0x57, 0x4E, false), // keypad +
    (0x58, 0x1C, true), // keypad enter; shares base scancode with return
    (0x59, 0x4F, false), // keypad 1
    (0x5A, 0x50, false), // keypad 2
    (0x5B, 0x51, false), // keypad 3
    (0x5C, 0x4B, false), // keypad 4
    (0x5D, 0x4C, false), // keypad 5
    (0x5E, 0x4D, false), // keypad 6
    (0x5F, 0x47, false), // keypad 7
    (0x60, 0x48, false), // keypad 8
    (0x61, 0x49, false), // keypad 9
    (0x62, 0x52, false), // keypad 0
    (0x63, 0x53, false), // keypad .
    (0x67, 0x59, false), // keypad =
    (0x68, 0x64, false), // f13
    (0x69, 0x65, false), // f14
    (0x6A, 0x66, false), // f15
    (0x6B, 0x67, false), // f16
    (0x6C, 0x68, false), // f17
    (0x6D, 0x69, false), // f18
    (0x6E, 0x6A, false), // f19
    (0x6F, 0x6B, false), // f20
    (0xE0, 0x1D, false), // left control
    (0xE1, 0x2A, false), // left shift
    (0xE2, 0x38, false), // left alt
    (0xE3, 0x5B, true), // left gui (windows key)
    (0xE4, 0x1D, true), // right control
    (0xE5, 0x36, false), // right shift
    (0xE6, 0x38, true), // right alt
    (0xE7, 0x5C, true), // right gui
];

/// The table's rows.
#[verifier::opaque]
pub open spec fn rows() -> Seq<(u16, u16, bool)> {
    TABLE@
}

/// Whether the table gives a usage this scan code and flag.
pub open spec fn paired(usage: u16, code: u16, extended: bool) -> bool {
    exists|i: int| 0 <= i < ROWS && #[trigger] rows()[i] == (usage, code, extended)
}

/// The scan code of a usage and whether it is an extended one, if the
/// table has that usage.
pub open spec fn scancode_of(usage: Usage) -> Option<(u16, bool)> {
    if exists|key: (u16, bool)| #[trigger] paired(usage.0, key.0, key.1) {
        Some(choose|key: (u16, bool)| #[trigger] paired(usage.0, key.0, key.1))
    } else {
        None
    }
}

/// The usages ascend.
proof fn lemma_usages_ascend()
    ensures
        forall|i: int, j: int| 0 <= i < j < ROWS ==> (#[trigger] rows()[i]).0 < (#[trigger] rows()[j]).0,
{
    reveal(rows);
}

/// No scan code stands in the table twice with the same flag.
proof fn lemma_scancodes_differ()
    ensures
        forall|i: int, j: int|
            0 <= i < j < ROWS ==> ((#[trigger] rows()[i]).1, rows()[i].2) != ((
            #[trigger] rows()[j]).1, rows()[j].2),
{
    reveal(rows);
}

/// Rows with ascending usages and differing keys pair them one to one.
proof fn lemma_rows_differ(
    rows: Seq<(u16, u16, bool)>,
    usage1: u16,
    key1: (u16, bool),
    usage2: u16,
    key2: (u16, bool),
)
    requires
        forall|i: int, j: int| 0 <= i < j < ROWS ==> (#[trigger] rows[i]).0 < (#[trigger] rows[j]).0,
        forall|i: int, j: int|
            0 <= i < j < ROWS ==> ((#[trigger] rows[i]).1, rows[i].2) != ((#[trigger] rows[j]).1, rows[j].2),
        exists|i: int| 0 <= i < ROWS && #[trigger] rows[i] == (usage1, key1.0, key1.1),
        exists|i: int| 0 <= i < ROWS && #[trigger] rows[i] == (usage2, key2.0, key2.1),
    ensures
        usage1 == usage2 <==> key1 == key2,
{
}

/// A usage has one scan code, and no two usages share one with its flag:
/// otherwise one of them would silently type the other's key.
pub proof fn law_every_key_has_its_own_scancode(
    usage1: u16,
    key1: (u16, bool),
    usage2: u16,
    key2: (u16, bool),
)
    requires
        paired(usage1, key1.0, key1.1),
        paired(usage2, key2.0, key2.1),
    ensures
        usage1 == usage2 <==> key1 == key2,
{
    lemma_usages_ascend();
    lemma_scancodes_differ();
    lemma_rows_differ(rows(), usage1, key1, usage2, key2);
}

/// The row in which a usage stands, where it stands in any: the usages
/// come in five runs.
spec fn row_of(usage: u16) -> int {
    if usage <= 0x31 {
        usage - 0x04
    } else if usage <= 0x45 {
        usage - 0x05
    } else if usage <= 0x63 {
        usage - 0x09
    } else if usage <= 0x6F {
        usage - 0x0C
    } else {
        usage - 0x7C
    }
}

/// Every modifier has a scan code.
pub proof fn lemma_modifiers_are_known(usage: Usage)
    requires
        0xE0 <= usage.0 <= 0xE7,
    ensures
        scancode_of(usage) is Some,
{
    let i = row_of(usage.0);
    assert(rows()[i].0 == usage.0) by {
        reveal(rows);
    }
    let key = (rows()[i].1, rows()[i].2);
    assert(rows()[i] == (usage.0, key.0, key.1));
    assert(paired(usage.0, key.0, key.1));
}

/// Every key that the Mac captures can be typed on the PC.
pub proof fn law_every_mac_key_can_be_typed(code: i64)
    requires
        crate::macos::keymap::usage_of(code) is Some,
    ensures
        scancode_of(crate::macos::keymap::usage_of(code)->0) is Some,
{
    let usage = crate::macos::keymap::usage_of(code)->0;
    assert(crate::macos::keymap::paired(code, usage.0));
    let i = choose|i: int|
        0 <= i < crate::macos::keymap::ROWS && #[trigger] crate::macos::keymap::rows()[i] == (
            code,
            usage.0,
        );
    lemma_mac_usages_are_typed(i);
    let row = rows()[row_of(usage.0)];
    let key = (row.1, row.2);
    assert(row == (usage.0, key.0, key.1));
    assert(paired(usage.0, key.0, key.1));
}

/// Every usage of the Mac's table stands in this one.
proof fn lemma_mac_usages_are_typed(i: int)
    requires
        0 <= i < crate::macos::keymap::ROWS,
    ensures
        0 <= row_of(crate::macos::keymap::rows()[i].1) < ROWS,
        rows()[row_of(crate::macos::keymap::rows()[i].1)].0 == crate::macos::keymap::rows()[i].1,
{
    reveal(rows);
    reveal(crate::macos::keymap::rows);
}

/// The scan code of a usage and whether it is an extended one. An unknown
/// usage has none.
pub fn usage_to_scancode(usage: Usage) -> (r: Option<(u16, bool)>)
    ensures
        r == scancode_of(usage),
{
    let table = TABLE;
    assert(table@ == rows()) by {
        reveal(rows);
    }
    let mut i: usize = 0;
    while i < ROWS
        invariant
            i <= ROWS,
            table@ == rows(),
            forall|j: int| 0 <= j < i ==> (#[trigger] rows()[j]).0 != usage.0,
        decreases ROWS - i,
    {
        let (known, code, extended) = table[i];
        if known == usage.0 {
            proof {
                let key = (code, extended);
                assert(rows()[i as int] == (usage.0, code, extended));
                assert(paired(usage.0, key.0, key.1));
                law_every_key_has_its_own_scancode(
                    usage.0,
                    key,
                    usage.0,
                    choose|key: (u16, bool)| #[trigger] paired(usage.0, key.0, key.1),
                );
            }
            return Some((code, extended));
        }
        i = i + 1;
    }
    None
}

proof fn lemma_row(usage: u16, code: u16, extended: bool)
    requires
        0 <= row_of(usage) < ROWS,
        rows()[row_of(usage)] == (usage, code, extended),
    ensures
        scancode_of(Usage(usage)) == Some((code, extended)),
{
    let key = (code, extended);
    let of = Usage(usage);
    assert(paired(of.0, key.0, key.1));
    law_every_key_has_its_own_scancode(of.0, key, of.0, scancode_of(of)->0);
}

/// Whether the scan codes from `first` on are those of the keys that type
/// these characters, none of them extended.
pub open spec fn row_types(first: int, keys: Seq<char>) -> bool {
    forall|i: int|
        0 <= i < keys.len() ==> scancode_of(Usage(crate::keys::character_key(#[trigger] keys[i]))) == Some(
            ((first + i) as u16, false),
        )
}

/// The scan codes run along the rows of a keyboard.
pub proof fn law_scan_codes_run_along_the_rows_of_a_keyboard()
    ensures
        row_types(0x02, "1234567890-="@),
        row_types(0x10, "qwertyuiop[]"@),
        row_types(0x1E, "asdfghjkl;'`"@),
        row_types(0x2B, "\\zxcvbnm,./"@),
{
    reveal_strlit("1234567890-=");
    reveal_strlit("qwertyuiop[]");
    reveal_strlit("asdfghjkl;'`");
    reveal_strlit("\\zxcvbnm,./");
    assert forall|i: int| 0 <= i < 12 implies scancode_of(
        Usage(crate::keys::character_key(#[trigger] "1234567890-="@[i])),
    ) == Some(((0x02 + i) as u16, false)) by {
        let usage = crate::keys::character_key("1234567890-="@[i]);
        assert(0 <= row_of(usage) < ROWS && rows()[row_of(usage)] == (usage, (0x02 + i) as u16, false)) by {
            reveal(rows);
        }
        lemma_row(usage, (0x02 + i) as u16, false);
    }
    assert forall|i: int| 0 <= i < 12 implies scancode_of(
        Usage(crate::keys::character_key(#[trigger] "qwertyuiop[]"@[i])),
    ) == Some(((0x10 + i) as u16, false)) by {
        let usage = crate::keys::character_key("qwertyuiop[]"@[i]);
        assert(0 <= row_of(usage) < ROWS && rows()[row_of(usage)] == (usage, (0x10 + i) as u16, false)) by {
            reveal(rows);
        }
        lemma_row(usage, (0x10 + i) as u16, false);
    }
    assert forall|i: int| 0 <= i < 12 implies scancode_of(
        Usage(crate::keys::character_key(#[trigger] "asdfghjkl;'`"@[i])),
    ) == Some(((0x1E + i) as u16, false)) by {
        let usage = crate::keys::character_key("asdfghjkl;'`"@[i]);
        assert(0 <= row_of(usage) < ROWS && rows()[row_of(usage)] == (usage, (0x1E + i) as u16, false)) by {
            reveal(rows);
        }
        lemma_row(usage, (0x1E + i) as u16, false);
    }
    assert forall|i: int| 0 <= i < 11 implies scancode_of(
        Usage(crate::keys::character_key(#[trigger] "\\zxcvbnm,./"@[i])),
    ) == Some(((0x2B + i) as u16, false)) by {
        let usage = crate::keys::character_key("\\zxcvbnm,./"@[i]);
        assert(0 <= row_of(usage) < ROWS && rows()[row_of(usage)] == (usage, (0x2B + i) as u16, false)) by {
            reveal(rows);
        }
        lemma_row(usage, (0x2B + i) as u16, false);
    }
}

/// The scan codes run along the rows of the numeric keypad, none of them
/// extended.
pub proof fn law_scan_codes_run_along_the_keypad()
    ensures
        forall|i: int|
            0 <= i < 13 ==> scancode_of(
                Usage(crate::keys::keypad_key(#[trigger] "789-456+1230."@[i])),
            ) == Some(((0x47 + i) as u16, false)),
{
    reveal_strlit("789-456+1230.");
    assert forall|i: int| 0 <= i < 13 implies scancode_of(
        Usage(crate::keys::keypad_key(#[trigger] "789-456+1230."@[i])),
    ) == Some(((0x47 + i) as u16, false)) by {
        let usage = crate::keys::keypad_key("789-456+1230."@[i]);
        assert(0 <= row_of(usage) < ROWS && rows()[row_of(usage)] == (usage, (0x47 + i) as u16, false)) by {
            reveal(rows);
        }
        lemma_row(usage, (0x47 + i) as u16, false);
    }
}

/// The function keys have three runs of scan codes.
pub proof fn law_every_function_key_has_its_scan_code(n: int)
    requires
        1 <= n <= 20,
    ensures
        scancode_of(Usage(crate::keys::function_key(n))) == Some(
            (
                (n + if n <= 10 {
                    0x3Aint
                } else if n <= 12 {
                    0x4C
                } else {
                    0x57
                }) as u16,
                false,
            ),
        ),
{
    let usage = crate::keys::function_key(n);
    let code = (n + if n <= 10 {
        0x3Aint
    } else if n <= 12 {
        0x4C
    } else {
        0x57
    }) as u16;
    assert(0 <= row_of(usage) < ROWS && rows()[row_of(usage)] == (usage, code, false)) by {
        reveal(rows);
    }
    lemma_row(usage, code, false);
}

/// Whether a key has the scan code of another one, but is extended where that
/// one is not.
pub open spec fn shadows(usage: u16, other: u16) -> bool {
    &&& scancode_of(Usage(usage)) matches Some((code, extended))
    &&& extended
    &&& scancode_of(Usage(other)) == Some((code, false))
}

/// The keys that move the cursor share their scan codes with the keypad's
/// keys on which they stand there: Home with 7, the left arrow with 4, and so
/// on. The keypad's slash, its Enter, and the right control and alt keys share
/// theirs with the key of the same name. All of these are extended.
pub proof fn law_extended_keys_share_a_scan_code()
    ensures
        shadows(0x4A, crate::keys::keypad_key('7')),
        shadows(0x52, crate::keys::keypad_key('8')),
        shadows(0x4B, crate::keys::keypad_key('9')),
        shadows(0x50, crate::keys::keypad_key('4')),
        shadows(0x4F, crate::keys::keypad_key('6')),
        shadows(0x4D, crate::keys::keypad_key('1')),
        shadows(0x51, crate::keys::keypad_key('2')),
        shadows(0x4E, crate::keys::keypad_key('3')),
        shadows(0x4C, crate::keys::keypad_key('.')),
        shadows(crate::keys::keypad_key('/'), crate::keys::character_key('/')),
        shadows(0x58, 0x28),
        shadows(Usage::RIGHT_CTRL, Usage::LEFT_CTRL),
        shadows(Usage::RIGHT_ALT, Usage::LEFT_ALT),
{
    assert(rows()[row_of(0x4A)] == (0x4Au16, 0x47u16, true)
        && rows()[row_of(0x5F)] == (0x5Fu16, 0x47u16, false)
        && rows()[row_of(0x52)] == (0x52u16, 0x48u16, true)
        && rows()[row_of(0x60)] == (0x60u16, 0x48u16, false)
        && rows()[row_of(0x4B)] == (0x4Bu16, 0x49u16, true)
        && rows()[row_of(0x61)] == (0x61u16, 0x49u16, false)
        && rows()[row_of(0x50)] == (0x50u16, 0x4Bu16, true)
        && rows()[row_of(0x5C)] == (0x5Cu16, 0x4Bu16, false)
        && rows()[row_of(0x4F)] == (0x4Fu16, 0x4Du16, true)
        && rows()[row_of(0x5E)] == (0x5Eu16, 0x4Du16, false)) by {
        reveal(rows);
    }
    lemma_row(0x4A, 0x47, true);
    lemma_row(0x5F, 0x47, false);
    lemma_row(0x52, 0x48, true);
    lemma_row(0x60, 0x48, false);
    lemma_row(0x4B, 0x49, true);
    lemma_row(0x61, 0x49, false);
    lemma_row(0x50, 0x4B, true);
    lemma_row(0x5C, 0x4B, false);
    lemma_row(0x4F, 0x4D, true);
    lemma_row(0x5E, 0x4D, false);
    assert(rows()[row_of(0x4D)] == (0x4Du16, 0x4Fu16, true)
        && rows()[row_of(0x59)] == (0x59u16, 0x4Fu16, false)
        && rows()[row_of(0x51)] == (0x51u16, 0x50u16, true)
        && rows()[row_of(0x5A)] == (0x5Au16, 0x50u16, false)
        && rows()[row_of(0x4E)] == (0x4Eu16, 0x51u16, true)
        && rows()[row_of(0x5B)] == (0x5Bu16, 0x51u16, false)
        && rows()[row_of(0x4C)] == (0x4Cu16, 0x53u16, true)
        && rows()[row_of(0x63)] == (0x63u16, 0x53u16, false)
        && rows()[row_of(0x54)] == (0x54u16, 0x35u16, true)
        && rows()[row_of(0x38)] == (0x38u16, 0x35u16, false)) by {
        reveal(rows);
    }
    lemma_row(0x4D, 0x4F, true);
    lemma_row(0x59, 0x4F, false);
    lemma_row(0x51, 0x50, true);
    lemma_row(0x5A, 0x50, false);
    lemma_row(0x4E, 0x51, true);
    lemma_row(0x5B, 0x51, false);
    lemma_row(0x4C, 0x53, true);
    lemma_row(0x63, 0x53, false);
    lemma_row(0x54, 0x35, true);
    lemma_row(0x38, 0x35, false);
    assert(rows()[row_of(0x58)] == (0x58u16, 0x1Cu16, true)
        && rows()[row_of(0x28)] == (0x28u16, 0x1Cu16, false)
        && rows()[row_of(0xE4)] == (0xE4u16, 0x1Du16, true)
        && rows()[row_of(0xE0)] == (0xE0u16, 0x1Du16, false)
        && rows()[row_of(0xE6)] == (0xE6u16, 0x38u16, true)
        && rows()[row_of(0xE2)] == (0xE2u16, 0x38u16, false)) by {
        reveal(rows);
    }
    lemma_row(0x58, 0x1C, true);
    lemma_row(0x28, 0x1C, false);
    lemma_row(0xE4, 0x1D, true);
    lemma_row(0xE0, 0x1D, false);
    lemma_row(0xE6, 0x38, true);
    lemma_row(0xE2, 0x38, false);
}

/// The other keys have scan codes of their own, of which only those of the
/// two Windows keys are extended.
pub proof fn law_the_other_keys_have_their_scan_codes()
    ensures
        scancode_of(Usage(0x29)) == Some((0x01u16, false)),
        scancode_of(Usage(0x2A)) == Some((0x0Eu16, false)),
        scancode_of(Usage(0x2B)) == Some((0x0Fu16, false)),
        scancode_of(Usage(0x28)) == Some((0x1Cu16, false)),
        scancode_of(Usage(0x2C)) == Some((0x39u16, false)),
        scancode_of(Usage(0x39)) == Some((0x3Au16, false)),
        scancode_of(Usage(0x53)) == Some((0x45u16, false)),
        scancode_of(Usage(0x55)) == Some((0x37u16, false)),
        scancode_of(Usage(0x67)) == Some((0x59u16, false)),
        scancode_of(Usage(0xE0)) == Some((0x1Du16, false)),
        scancode_of(Usage(0xE1)) == Some((0x2Au16, false)),
        scancode_of(Usage(0xE2)) == Some((0x38u16, false)),
        scancode_of(Usage(0xE5)) == Some((0x36u16, false)),
        scancode_of(Usage(0xE3)) == Some((0x5Bu16, true)),
        scancode_of(Usage(0xE7)) == Some((0x5Cu16, true)),
{
    assert(rows()[row_of(0x29)] == (0x29u16, 0x01u16, false)
        && rows()[row_of(0x2A)] == (0x2Au16, 0x0Eu16, false)
        && rows()[row_of(0x2B)] == (0x2Bu16, 0x0Fu16, false)
        && rows()[row_of(0x28)] == (0x28u16, 0x1Cu16, false)
        && rows()[row_of(0x2C)] == (0x2Cu16, 0x39u16, false)
        && rows()[row_of(0x39)] == (0x39u16, 0x3Au16, false)
        && rows()[row_of(0x53)] == (0x53u16, 0x45u16, false)
        && rows()[row_of(0x55)] == (0x55u16, 0x37u16, false)) by {
        reveal(rows);
    }
    lemma_row(0x29, 0x01, false);
    lemma_row(0x2A, 0x0E, false);
    lemma_row(0x2B, 0x0F, false);
    lemma_row(0x28, 0x1C, false);
    lemma_row(0x2C, 0x39, false);
    lemma_row(0x39, 0x3A, false);
    lemma_row(0x53, 0x45, false);
    lemma_row(0x55, 0x37, false);
    assert(rows()[row_of(0x67)] == (0x67u16, 0x59u16, false)
        && rows()[row_of(0xE0)] == (0xE0u16, 0x1Du16, false)
        && rows()[row_of(0xE1)] == (0xE1u16, 0x2Au16, false)
        && rows()[row_of(0xE2)] == (0xE2u16, 0x38u16, false)
        && rows()[row_of(0xE5)] == (0xE5u16, 0x36u16, false)
        && rows()[row_of(0xE3)] == (0xE3u16, 0x5Bu16, true)
        && rows()[row_of(0xE7)] == (0xE7u16, 0x5Cu16, true)) by {
        reveal(rows);
    }
    lemma_row(0x67, 0x59, false);
    lemma_row(0xE0, 0x1D, false);
    lemma_row(0xE1, 0x2A, false);
    lemma_row(0xE2, 0x38, false);
    lemma_row(0xE5, 0x36, false);
    lemma_row(0xE3, 0x5B, true);
    lemma_row(0xE7, 0x5C, true);
}

/// Only keyboard keys have scan codes: what is no key of a keyboard has none.
pub proof fn law_unknown_keys_have_no_scan_code(usage: Usage)
    requires
        usage.0 < 0x04 || 0x45 < usage.0 < 0x4A || 0x63 < usage.0 < 0x67 || 0x6F < usage.0 < 0xE0 || 0xE7 < usage.0
            || usage.0 == 0x32,
    ensures
        scancode_of(usage) is None,
{
    if scancode_of(usage) is Some {
        let key = scancode_of(usage)->0;
        assert(paired(usage.0, key.0, key.1));
        let i = choose|i: int| 0 <= i < ROWS && #[trigger] rows()[i] == (usage.0, key.0, key.1);
        assert(false) by {
            reveal(rows);
        }
    }
}

} // verus!
