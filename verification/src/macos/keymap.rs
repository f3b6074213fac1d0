//! The Mac's own key codes.

use vstd::prelude::*;

use crate::keys::Usage;

verus! {

/// How many keys the table has.
pub const ROWS: usize = 108;

/// macOS virtual key codes (the `kVK_*` constants) with their USB HID
/// usages, in ascending order of the codes. No usage stands in it twice,
/// or the way back would be ambiguous.
pub const TABLE: [(i64, u16); 108] = [
    (0, 0x04), // a
    (1, 0x16), // s
    (2, 0x07), // d
    (3, 0x09), // f
    (4, 0x0B), // h
    (5, 0x0A), // g
    (6, 0x1D), // z
    (7, 0x1B), // x
    (8, 0x06), // c
    (9, 0x19), // v
    (11, 0x05), // b
    (12, 0x14), // q
    (13, 0x1A), // w
    (14, 0x08), // e
    (15, 0x15), // r
    (16, 0x1C), // y
    (17, 0x17), // t
    (18, 0x1E), // 1
    (19, 0x1F), // 2
    (20, 0x20), // 3
    (21, 0x21), // 4
    (22, 0x23), // 6
    (23, 0x22), // 5
    (24, 0x2E), // =
    (25, 0x26), // 9
    (26, 0x24), // 7
    (27, 0x2D), // -
    (28, 0x25), // 8
    (29, 0x27), // 0
    (30, 0x30), // ]
    (31, 0x12), // o
    (32, 0x18), // u
    (33, 0x2F), // [
    (34, 0x0C), // i
    (35, 0x13), // p
    (36, 0x28), // return
    (37, 0x0F), // l
    (38, 0x0D), // j
    (39, 0x34), // '
    (40, 0x0E), // k
    (41, 0x33), // ;
    (42, 0x31), // backslash
    (43, 0x36), // ,
    (44, 0x38), // /
    (45, 0x11), // n
    (46, 0x10), // m
    (47, 0x37), // .
    (48, 0x2B), // tab
    (49, 0x2C), // space
    (50, 0x35), // `
    (51, 0x2A), // delete (backspace)
    (53, 0x29), // escape
    (54, 0xE7), // right command
    (55, 0xE3), // command
    (56, 0xE1), // shift
    (57, 0x39), // caps lock
    (58, 0xE2), // option
    (59, 0xE0), // control
    (60, 0xE5), // right shift
    (61, 0xE6), // right option
    (62, 0xE4), // right control
    (64, 0x6C), // f17
    (65, 0x63), // keypad .
    (67, 0x55), // keypad *
    (69, 0x57), // keypad +
    (71, 0x53), // keypad num lock / clear
    (75, 0x54), // keypad /
    (76, 0x58), // keypad enter
    (78, 0x56), // keypad -
    (79, 0x6D), // f18
    (80, 0x6E), // f19
    (81, 0x67), // keypad =
    (82, 0x62), // keypad 0
    (83, 0x59), // keypad 1
    (84, 0x5A), // keypad 2
    (85, 0x5B), // keypad 3
    (86, 0x5C), // keypad 4
    (87, 0x5D), // keypad 5
    (88, 0x5E), // keypad 6
    (89, 0x5F), // keypad 7
    (90, 0x6F), // f20
    (91, 0x60), // keypad 8
    (92, 0x61), // keypad 9
    (96, 0x3E), // f5
    (97, 0x3F), // f6
    (98, 0x40), // f7
    (99, 0x3C), // f3
    (100, 0x41), // f8
    (101, 0x42), // f9
    (103, 0x44), // f11
    (105, 0x68), // f13
    (106, 0x6B), // f16
    (107, 0x69), // f14
    (109, 0x43), // f10
    (111, 0x45), // f12
    (113, 0x6A), // f15
    (115, 0x4A), // home
    (116, 0x4B), // page up
    (117, 0x4C), // forward delete
    (118, 0x3D), // f4
    (119, 0x4D), // end
    (120, 0x3B), // f2
    (121, 0x4E), // page down
    (122, 0x3A), // f1
    (123, 0x50), // left arrow
    (124, 0x4F), // right arrow
    (125, 0x51), // down arrow
    (126, 0x52), // up arrow
];

/// The table's rows.
#[verifier::opaque]
pub open spec fn rows() -> Seq<(i64, u16)> {
    TABLE@
}

/// Whether the table pairs a key code with a usage.
pub open spec fn paired(code: i64, usage: u16) -> bool {
    exists|i: int| 0 <= i < ROWS && #[trigger] rows()[i] == (code, usage)
}

/// The usage of a key code, if the table has that code.
pub open spec fn usage_of(code: i64) -> Option<Usage> {
    if exists|usage: u16| paired(code, usage) {
        Some(Usage(choose|usage: u16| paired(code, usage)))
    } else {
        None
    }
}

/// The key code of a usage, if the table has that usage.
pub open spec fn code_of(usage: Usage) -> Option<i64> {
    if exists|code: i64| paired(code, usage.0) {
        Some(choose|code: i64| paired(code, usage.0))
    } else {
        None
    }
}

/// The codes ascend.
proof fn lemma_codes_ascend()
    ensures
        forall|i: int, j: int| 0 <= i < j < ROWS ==> (#[trigger] rows()[i]).0 < (#[trigger] rows()[j]).0,
{
    reveal(rows);
}

/// Every usage says in which row it stands.
proof fn lemma_usages_differ()
    ensures
        forall|i: int, j: int| 0 <= i < j < ROWS ==> (#[trigger] rows()[i]).1 != (#[trigger] rows()[j]).1,
{
    reveal(rows);
}

/// Rows with ascending codes and differing usages pair them one to one.
proof fn lemma_rows_differ(rows: Seq<(i64, u16)>, code1: i64, usage1: u16, code2: i64, usage2: u16)
    requires
        forall|i: int, j: int| 0 <= i < j < ROWS ==> (#[trigger] rows[i]).0 < (#[trigger] rows[j]).0,
        forall|i: int, j: int| 0 <= i < j < ROWS ==> (#[trigger] rows[i]).1 != (#[trigger] rows[j]).1,
        exists|i: int| 0 <= i < ROWS && #[trigger] rows[i] == (code1, usage1),
        exists|i: int| 0 <= i < ROWS && #[trigger] rows[i] == (code2, usage2),
    ensures
        code1 == code2 <==> usage1 == usage2,
{
}

/// A key code stands for one key only, and no two codes for the same one.
pub proof fn law_the_pairing_is_one_to_one(code1: i64, usage1: u16, code2: i64, usage2: u16)
    requires
        paired(code1, usage1),
        paired(code2, usage2),
    ensures
        code1 == code2 <==> usage1 == usage2,
{
    lemma_codes_ascend();
    lemma_usages_differ();
    lemma_rows_differ(rows(), code1, usage1, code2, usage2);
}

/// Every key that is known comes back as itself.
pub proof fn law_every_known_key_round_trips(code: i64, usage: Usage)
    ensures
        usage_of(code) == Some(usage) <==> code_of(usage) == Some(code),
{
    if usage_of(code) == Some(usage) {
        let back = choose|back: i64| paired(back, usage.0);
        law_the_pairing_is_one_to_one(code, usage.0, back, usage.0);
    }
    if code_of(usage) == Some(code) {
        let back = choose|back: u16| paired(code, back);
        law_the_pairing_is_one_to_one(code, usage.0, code, back);
    }
}

/// The usage of a macOS virtual key code. An unknown code has none:
/// guessing would type the wrong character on the peer, which is worse
/// than dropping the key.
pub fn virtual_key_to_usage(code: i64) -> (r: Option<Usage>)
    ensures
        r == usage_of(code),
{
    let table = TABLE;
    assert(table@ == rows()) by {
        reveal(rows);
    }
    let mut i: usize = 0;
    while i < ROWS
        invariant
            i <= ROWS,
            table@ == rows(),
            forall|j: int| 0 <= j < i ==> (#[trigger] rows()[j]).0 != code,
        decreases ROWS - i,
    {
        let (vk, usage) = table[i];
        if vk == code {
            proof {
                assert(rows()[i as int] == (code, usage));
                assert(paired(code, usage));
                law_the_pairing_is_one_to_one(
                    code,
                    usage,
                    code,
                    choose|usage: u16| paired(code, usage),
                );
            }
            return Some(Usage(usage));
        }
        i = i + 1;
    }
    None
}

/// The macOS virtual key code of a usage.
pub fn usage_to_virtual_key(usage: Usage) -> (r: Option<i64>)
    ensures
        r == code_of(usage),
{
    let table = TABLE;
    assert(table@ == rows()) by {
        reveal(rows);
    }
    let mut i: usize = 0;
    while i < ROWS
        invariant
            i <= ROWS,
            table@ == rows(),
            forall|j: int| 0 <= j < i ==> (#[trigger] rows()[j]).1 != usage.0,
        decreases ROWS - i,
    {
        let (vk, known) = table[i];
        if known == usage.0 {
            proof {
                assert(rows()[i as int] == (vk, usage.0));
                assert(paired(vk, usage.0));
                law_the_pairing_is_one_to_one(
                    vk,
                    usage.0,
                    choose|code: i64| paired(code, usage.0),
                    usage.0,
                );
            }
            return Some(vk);
        }
        i = i + 1;
    }
    None
}

proof fn lemma_row(i: int, code: i64, usage: u16)
    requires
        0 <= i < ROWS,
        rows()[i] == (code, usage),
    ensures
        usage_of(code) == Some(Usage(usage)),
{
    assert(paired(code, usage));
    law_the_pairing_is_one_to_one(code, usage, code, choose|usage: u16| paired(code, usage));
}

/// Whether the key codes from `first` on are those of the keys that type
/// these characters.
pub open spec fn types(first: int, keys: Seq<char>) -> bool {
    forall|i: int|
        0 <= i < keys.len() ==> usage_of((first + i) as i64) == Some(
            Usage(crate::keys::character_key(#[trigger] keys[i])),
        )
}

/// The keys that type a character are where a Mac's keyboard has them.
pub proof fn law_every_character_has_its_key()
    ensures
        types(0, "asdfhgzxcv"@),
        types(11, "bqweryt123465=97-80]ou[ip"@),
        types(37, "lj'k;\\,/nm."@),
        types(50, "`"@),
{
    reveal_strlit("asdfhgzxcv");
    reveal_strlit("bqweryt123465=97-80]ou[ip");
    reveal_strlit("lj'k;\\,/nm.");
    reveal_strlit("`");
    assert forall|i: int| 0 <= i < 10 implies usage_of((0 + i) as i64) == Some(
        Usage(crate::keys::character_key(#[trigger] "asdfhgzxcv"@[i])),
    ) by {
        let usage = crate::keys::character_key("asdfhgzxcv"@[i]);
        assert(rows()[i] == (i as i64, usage)) by {
            reveal(rows);
        }
        lemma_row(i, i as i64, usage);
    }
    assert forall|i: int| 0 <= i < 25 implies usage_of((11 + i) as i64) == Some(
        Usage(crate::keys::character_key(#[trigger] "bqweryt123465=97-80]ou[ip"@[i])),
    ) by {
        let usage = crate::keys::character_key("bqweryt123465=97-80]ou[ip"@[i]);
        assert(rows()[10 + i] == ((11 + i) as i64, usage)) by {
            reveal(rows);
        }
        lemma_row(10 + i, (11 + i) as i64, usage);
    }
    assert forall|i: int| 0 <= i < 11 implies usage_of((37 + i) as i64) == Some(
        Usage(crate::keys::character_key(#[trigger] "lj'k;\\,/nm."@[i])),
    ) by {
        let usage = crate::keys::character_key("lj'k;\\,/nm."@[i]);
        assert(rows()[36 + i] == ((37 + i) as i64, usage)) by {
            reveal(rows);
        }
        lemma_row(36 + i, (37 + i) as i64, usage);
    }
    assert forall|i: int| 0 <= i < 1 implies usage_of((50 + i) as i64) == Some(
        Usage(crate::keys::character_key(#[trigger] "`"@[i])),
    ) by {
        assert(rows()[49] == (50i64, 0x35u16)) by {
            reveal(rows);
        }
        lemma_row(49, 50, 0x35);
    }
}

/// The code of a function key.
pub open spec fn function_code(n: int) -> i64 {
    seq![
        122i64, 120, 99, 118, 96, 97, 98, 100, 101, 109, 103, 111, 105, 107, 113, 106, 64, 79, 80, 90,
    ][n - 1]
}

/// The function keys, from 1 to 20, are told apart by their codes.
pub proof fn law_every_function_key_is_known(n: int)
    requires
        1 <= n <= 20,
    ensures
        usage_of(function_code(n)) == Some(Usage(crate::keys::function_key(n))),
{
    let row = seq![103int, 101, 86, 99, 83, 84, 85, 87, 88, 93, 89, 94, 90, 92, 95, 91, 61, 69, 70, 80][n - 1];
    assert(rows()[row] == (function_code(n), crate::keys::function_key(n))) by {
        reveal(rows);
    }
    lemma_row(row, function_code(n), crate::keys::function_key(n));
}

/// The keypad's digits are two runs of codes, and its signs have their own.
pub proof fn law_every_keypad_key_is_known()
    ensures
        forall|d: int|
            0 <= d <= 9 ==> usage_of((82 + d + if d >= 8 { 1int } else { 0 }) as i64) == Some(
                Usage(#[trigger] crate::keys::keypad_key((d + '0' as int) as char)),
            ),
        usage_of(65) == Some(Usage(crate::keys::keypad_key('.'))),
        usage_of(67) == Some(Usage(crate::keys::keypad_key('*'))),
        usage_of(69) == Some(Usage(crate::keys::keypad_key('+'))),
        usage_of(75) == Some(Usage(crate::keys::keypad_key('/'))),
        usage_of(78) == Some(Usage(crate::keys::keypad_key('-'))),
        usage_of(81) == Some(Usage(crate::keys::keypad_key('='))),
        usage_of(71) == Some(Usage(0x53)),
        usage_of(76) == Some(Usage(0x58)),
{
    assert forall|d: int| 0 <= d <= 9 implies usage_of((82 + d + if d >= 8 { 1int } else { 0 }) as i64) == Some(
        Usage(#[trigger] crate::keys::keypad_key((d + '0' as int) as char)),
    ) by {
        let code = (82 + d + if d >= 8 { 1int } else { 0 }) as i64;
        let row = 72 + d + if d >= 8 { 1int } else { 0 };
        let usage = crate::keys::keypad_key((d + '0' as int) as char);
        assert(rows()[row] == (code, usage)) by {
            reveal(rows);
        }
        lemma_row(row, code, usage);
    }
    assert(rows()[62] == (65i64, 0x63u16) && rows()[63] == (67i64, 0x55u16) && rows()[64] == (69i64, 0x57u16)
        && rows()[65] == (71i64, 0x53u16) && rows()[66] == (75i64, 0x54u16) && rows()[67] == (76i64, 0x58u16)
        && rows()[68] == (78i64, 0x56u16) && rows()[71] == (81i64, 0x67u16)) by {
        reveal(rows);
    }
    lemma_row(62, 65, 0x63);
    lemma_row(63, 67, 0x55);
    lemma_row(64, 69, 0x57);
    lemma_row(65, 71, 0x53);
    lemma_row(66, 75, 0x54);
    lemma_row(67, 76, 0x58);
    lemma_row(68, 78, 0x56);
    lemma_row(71, 81, 0x67);
}

/// The keys that type nothing are known too: those around the letters, those
/// that move the cursor, and the modifiers of either side.
pub proof fn law_every_other_key_is_known()
    ensures
        usage_of(36) == Some(Usage(0x28)),
        usage_of(48) == Some(Usage(0x2B)),
        usage_of(49) == Some(Usage(0x2C)),
        usage_of(51) == Some(Usage(0x2A)),
        usage_of(53) == Some(Usage(0x29)),
        usage_of(57) == Some(Usage(0x39)),
        usage_of(115) == Some(Usage(0x4A)),
        usage_of(116) == Some(Usage(0x4B)),
        usage_of(117) == Some(Usage(0x4C)),
        usage_of(119) == Some(Usage(0x4D)),
        usage_of(121) == Some(Usage(0x4E)),
        usage_of(123) == Some(Usage(0x50)),
        usage_of(124) == Some(Usage(0x4F)),
        usage_of(125) == Some(Usage(0x51)),
        usage_of(126) == Some(Usage(0x52)),
        usage_of(59) == Some(Usage(0xE0)),
        usage_of(56) == Some(Usage(0xE1)),
        usage_of(58) == Some(Usage(0xE2)),
        usage_of(55) == Some(Usage(0xE3)),
        usage_of(62) == Some(Usage(0xE4)),
        usage_of(60) == Some(Usage(0xE5)),
        usage_of(61) == Some(Usage(0xE6)),
        usage_of(54) == Some(Usage(0xE7)),
{
    assert(rows()[35] == (36i64, 0x28u16) && rows()[47] == (48i64, 0x2Bu16) && rows()[48] == (49i64, 0x2Cu16)
        && rows()[50] == (51i64, 0x2Au16) && rows()[51] == (53i64, 0x29u16) && rows()[55] == (57i64, 0x39u16)) by {
        reveal(rows);
    }
    lemma_row(35, 36, 0x28);
    lemma_row(47, 48, 0x2B);
    lemma_row(48, 49, 0x2C);
    lemma_row(50, 51, 0x2A);
    lemma_row(51, 53, 0x29);
    lemma_row(55, 57, 0x39);
    assert(rows()[96] == (115i64, 0x4Au16) && rows()[97] == (116i64, 0x4Bu16) && rows()[98] == (117i64, 0x4Cu16)
        && rows()[100] == (119i64, 0x4Du16) && rows()[102] == (121i64, 0x4Eu16)) by {
        reveal(rows);
    }
    lemma_row(96, 115, 0x4A);
    lemma_row(97, 116, 0x4B);
    lemma_row(98, 117, 0x4C);
    lemma_row(100, 119, 0x4D);
    lemma_row(102, 121, 0x4E);
    assert(rows()[104] == (123i64, 0x50u16) && rows()[105] == (124i64, 0x4Fu16) && rows()[106] == (125i64, 0x51u16)
        && rows()[107] == (126i64, 0x52u16)) by {
        reveal(rows);
    }
    lemma_row(104, 123, 0x50);
    lemma_row(105, 124, 0x4F);
    lemma_row(106, 125, 0x51);
    lemma_row(107, 126, 0x52);
    assert(rows()[52] == (54i64, 0xE7u16) && rows()[53] == (55i64, 0xE3u16) && rows()[54] == (56i64, 0xE1u16)
        && rows()[56] == (58i64, 0xE2u16) && rows()[57] == (59i64, 0xE0u16) && rows()[58] == (60i64, 0xE5u16)
        && rows()[59] == (61i64, 0xE6u16) && rows()[60] == (62i64, 0xE4u16)) by {
        reveal(rows);
    }
    lemma_row(52, 54, 0xE7);
    lemma_row(53, 55, 0xE3);
    lemma_row(54, 56, 0xE1);
    lemma_row(56, 58, 0xE2);
    lemma_row(57, 59, 0xE0);
    lemma_row(58, 60, 0xE5);
    lemma_row(59, 61, 0xE6);
    lemma_row(60, 62, 0xE4);
}

} // verus!
