//! Working on text by its characters.

use vstd::prelude::*;

verus! {

/// The characters of a string.
pub fn chars(s: &str) -> (r: Vec<char>)
    ensures
        r@ == s@,
{
    let mut r: Vec<char> = Vec::new();
    for c in it: s.chars()
        invariant
            r@ == it.seq().take(it.index() as int),
            it.seq() == s@,
    {
        r.push(c);
        assert(r@ =~= it.seq().take(it.index() as int + 1));
    }
    assert(r@ =~= s@);
    r
}

/// Whether two strings are the same.
pub fn same(a: &str, b: &str) -> (r: bool)
    ensures
        r == (a@ == b@),
{
    let x: &[u8] = a.as_bytes();
    let y: &[u8] = b.as_bytes();
    proof {
        vstd::utf8::encode_utf8_decode_utf8(a@);
        vstd::utf8::encode_utf8_decode_utf8(b@);
    }
    if x.len() != y.len() {
        return false;
    }
    let mut i: usize = 0;
    while i < x.len()
        invariant
            i <= x@.len(),
            x@.len() == y@.len(),
            x@ == vstd::utf8::encode_utf8(a@),
            y@ == vstd::utf8::encode_utf8(b@),
            forall|j: int| 0 <= j < i ==> x@[j] == y@[j],
            vstd::utf8::decode_utf8(x@) == a@,
            vstd::utf8::decode_utf8(y@) == b@,
        decreases x@.len() - i,
    {
        if x[i] != y[i] {
            return false;
        }
        i = i + 1;
    }
    assert(x@ =~= y@);
    true
}

/// Where a character first occurs at or after `from`.
pub open spec fn find_from(s: Seq<char>, c: char, from: int) -> Option<int>
    decreases s.len() - from,
{
    if from < 0 || from >= s.len() {
        None
    } else if s[from] == c {
        Some(from)
    } else {
        find_from(s, c, from + 1)
    }
}

pub proof fn lemma_find_from(s: Seq<char>, c: char, from: int)
    requires
        0 <= from <= s.len(),
    ensures
        match find_from(s, c, from) {
            None => forall|i: int| from <= i < s.len() ==> s[i] != c,
            Some(at) => from <= at < s.len() && s[at] == c && forall|i: int|
                from <= i < at ==> s[i] != c,
        },
    decreases s.len() - from,
{
    if from < s.len() && s[from] != c {
        lemma_find_from(s, c, from + 1);
    }
}

/// Where a character first occurs at or after `from`.
pub fn find(s: &Vec<char>, c: char, from: usize) -> (r: Option<usize>)
    requires
        from <= s@.len(),
    ensures
        match r {
            None => find_from(s@, c, from as int) is None,
            Some(at) => find_from(s@, c, from as int) == Some(at as int) && from <= at < s@.len() && s@[at as int] == c,
        },
{
    let mut i: usize = from;
    while i < s.len()
        invariant
            from <= i <= s@.len(),
            find_from(s@, c, from as int) == find_from(s@, c, i as int),
        decreases s@.len() - i,
    {
        if s[i] == c {
            return Some(i);
        }
        i = i + 1;
    }
    None
}

/// Whether text begins with other text.
pub open spec fn begins_with(s: Seq<char>, start: Seq<char>) -> bool {
    start.len() <= s.len() && s.take(start.len() as int) == start
}

/// Whether text begins with other text.
pub fn starts_with(s: &str, start: &str) -> (r: bool)
    ensures
        r == begins_with(s@, start@),
{
    let n: usize = start.unicode_len();
    if s.unicode_len() < n {
        return false;
    }
    let front: &str = s.substring_char(0, n);
    assert(front@ =~= s@.take(start@.len() as int));
    same(front, start)
}

/// Where other text first occurs at or after `from`.
pub open spec fn text_from(s: Seq<char>, part: Seq<char>, from: int) -> Option<int>
    decreases s.len() - from + 1,
{
    if from < 0 || from > s.len() {
        None
    } else if begins_with(s.skip(from), part) {
        Some(from)
    } else {
        text_from(s, part, from + 1)
    }
}

/// Where other text first occurs.
pub fn find_text(s: &str, part: &str) -> (r: Option<usize>)
    ensures
        match r {
            None => text_from(s@, part@, 0) is None,
            Some(at) => text_from(s@, part@, 0) == Some(at as int) && at + part@.len() <= s@.len(),
        },
{
    let total: usize = s.unicode_len();
    let mut i: usize = 0;
    loop
        invariant
            i <= total,
            total == s@.len(),
            text_from(s@, part@, 0) == text_from(s@, part@, i as int),
        decreases total - i,
    {
        let rest: &str = s.substring_char(i, total);
        assert(rest@ =~= s@.skip(i as int));
        if starts_with(rest, part) {
            return Some(i);
        }
        if i == total {
            assert(text_from(s@, part@, i + 1) is None);
            return None;
        }
        i = i + 1;
    }
}

/// How often a character occurs.
pub open spec fn count_of(s: Seq<char>, c: char) -> nat
    decreases s.len(),
{
    if s.len() == 0 {
        0
    } else {
        count_of(s.drop_last(), c) + if s.last() == c {
            1nat
        } else {
            0
        }
    }
}

/// How often a character occurs.
pub fn count(s: &Vec<char>, c: char) -> (r: usize)
    ensures
        r == count_of(s@, c),
{
    let mut n: usize = 0;
    let mut i: usize = 0;
    while i < s.len()
        invariant
            i <= s@.len(),
            n == count_of(s@.take(i as int), c),
            n <= i,
        decreases s@.len() - i,
    {
        assert(s@.take(i + 1).drop_last() =~= s@.take(i as int));
        if s[i] == c {
            n = n + 1;
        }
        i = i + 1;
    }
    assert(s@.take(i as int) =~= s@);
    n
}

/// Whether a character occurs.
pub fn contains(s: &Vec<char>, c: char) -> (r: bool)
    ensures
        r == s@.contains(c),
{
    proof {
        lemma_find_from(s@, c, 0);
    }
    match find(s, c, 0) {
        None => false,
        Some(at) => {
            assert(s@[at as int] == c);
            true
        },
    }
}

/// The pieces of text between the occurrences of a separator, of which
/// there is always one more than there are separators.
pub open spec fn pieces(s: Seq<char>, separator: char) -> Seq<Seq<char>>
    decreases s.len(),
{
    if s.len() == 0 {
        seq![Seq::empty()]
    } else {
        let before = pieces(s.drop_last(), separator);
        if s.last() == separator {
            before.push(Seq::empty())
        } else {
            before.drop_last().push(before.last().push(s.last()))
        }
    }
}

/// What each of a number of strings says.
pub open spec fn views(all: Seq<String>) -> Seq<Seq<char>> {
    all.map_values(|s: String| s@)
}

/// The pieces of text between the occurrences of a separator.
pub fn split(s: &str, separator: char) -> (r: Vec<String>)
    ensures
        views(r@) == pieces(s@, separator),
{
    let cs: Vec<char> = chars(s);
    let mut r: Vec<String> = Vec::new();
    let mut start: usize = 0;
    let mut i: usize = 0;
    proof {
        assert(s@.take(0) =~= Seq::<char>::empty());
        assert(views(r@).push(s@.subrange(0, 0)) =~= seq![Seq::<char>::empty()]);
    }
    while i < cs.len()
        invariant
            start <= i <= cs@.len(),
            cs@ == s@,
            views(r@).push(s@.subrange(start as int, i as int)) == pieces(
                s@.take(i as int),
                separator,
            ),
        decreases cs@.len() - i,
    {
        let ghost before = pieces(s@.take(i as int), separator);
        let ghost done = views(r@);
        proof {
            assert(s@.take(i + 1).drop_last() =~= s@.take(i as int));
            assert(before.drop_last() =~= done);
            assert(before.last() == s@.subrange(start as int, i as int));
        }
        if cs[i] == separator {
            let piece: String = s.substring_char(start, i).to_owned();
            r.push(piece);
            start = i + 1;
            proof {
                assert(views(r@) =~= done.push(piece@));
                assert(done.push(piece@) =~= before);
                assert(s@.subrange(start as int, i + 1) =~= Seq::<char>::empty());
            }
        } else {
            assert(s@.subrange(start as int, i + 1) =~= s@.subrange(start as int, i as int).push(
                s@[i as int],
            ));
        }
        i = i + 1;
    }
    let piece: String = s.substring_char(start, i).to_owned();
    let ghost done = views(r@);
    r.push(piece);
    proof {
        assert(s@.take(i as int) =~= s@);
        assert(views(r@) =~= done.push(piece@));
    }
    r
}

/// The characters that Unicode counts as white space.
pub open spec fn is_space(c: char) -> bool {
    let n = c as u32;
    ||| 0x09 <= n <= 0x0D
    ||| n == 0x20
    ||| n == 0x85
    ||| n == 0xA0
    ||| n == 0x1680
    ||| 0x2000 <= n <= 0x200A
    ||| n == 0x2028
    ||| n == 0x2029
    ||| n == 0x202F
    ||| n == 0x205F
    ||| n == 0x3000
}

fn space(c: char) -> (r: bool)
    ensures
        r == is_space(c),
{
    let n: u32 = c as u32;
    (0x09 <= n && n <= 0x0D) || n == 0x20 || n == 0x85 || n == 0xA0 || n == 0x1680 || (0x2000 <= n
        && n <= 0x200A) || n == 0x2028 || n == 0x2029 || n == 0x202F || n == 0x205F || n == 0x3000
}

/// Text without the white space in front of it.
pub open spec fn trimmed_start(s: Seq<char>) -> Seq<char>
    decreases s.len(),
{
    if s.len() > 0 && is_space(s[0]) {
        trimmed_start(s.skip(1))
    } else {
        s
    }
}

/// Text without the white space behind it.
pub open spec fn trimmed_end(s: Seq<char>) -> Seq<char>
    decreases s.len(),
{
    if s.len() > 0 && is_space(s.last()) {
        trimmed_end(s.drop_last())
    } else {
        s
    }
}

/// Text without the white space around it.
pub open spec fn trimmed(s: Seq<char>) -> Seq<char> {
    trimmed_end(trimmed_start(s))
}

/// Text without white space at its ends is left as it is.
pub proof fn lemma_trimmed_already(s: Seq<char>)
    requires
        forall|i: int| 0 <= i < s.len() ==> !is_space(#[trigger] s[i]),
    ensures
        trimmed(s) == s,
{
}

/// Text without the white space around it.
pub fn trim(s: &str) -> (r: String)
    ensures
        r@ == trimmed(s@),
{
    let cs: Vec<char> = chars(s);
    let mut from: usize = 0;
    assert(s@.skip(0) =~= s@);
    while from < cs.len() && space(cs[from])
        invariant
            from <= cs@.len(),
            cs@ == s@,
            trimmed_start(s@) == trimmed_start(s@.skip(from as int)),
        decreases cs@.len() - from,
    {
        assert(s@.skip(from as int).skip(1) =~= s@.skip(from + 1));
        from = from + 1;
    }
    let ghost start = s@.skip(from as int);
    assert(trimmed_start(s@) == start);
    let mut to: usize = cs.len();
    assert(s@.subrange(from as int, to as int) =~= start);
    while to > from && space(cs[to - 1])
        invariant
            from <= to <= cs@.len(),
            cs@ == s@,
            trimmed_end(start) == trimmed_end(s@.subrange(from as int, to as int)),
        decreases to,
    {
        assert(s@.subrange(from as int, to as int).drop_last() =~= s@.subrange(from as int, to - 1));
        to = to - 1;
    }
    s.substring_char(from, to).to_owned()
}

/// The value of a digit.
pub open spec fn digit_of(c: char) -> Option<nat> {
    if '0' <= c && c <= '9' {
        Some((c as nat - '0' as nat) as nat)
    } else {
        None
    }
}

/// The number that a run of decimal digits stands for.
pub open spec fn digits_value(s: Seq<char>) -> Option<nat>
    decreases s.len(),
{
    if s.len() == 0 {
        Some(0)
    } else {
        match (digits_value(s.drop_last()), digit_of(s.last())) {
            (Some(high), Some(low)) => Some(high * 10 + low),
            _ => None,
        }
    }
}

/// The number that text stands for: at least one decimal digit, perhaps
/// with a plus sign in front, and no more than `max`.
pub open spec fn number(s: Seq<char>, max: nat) -> Option<nat> {
    let digits = if s.len() > 0 && s[0] == '+' {
        s.skip(1)
    } else {
        s
    };
    if digits.len() == 0 {
        None
    } else {
        match digits_value(digits) {
            None => None,
            Some(n) => if n <= max {
                Some(n)
            } else {
                None
            },
        }
    }
}

/// Digits behind a number can only make it larger.
proof fn lemma_digits_grow(s: Seq<char>, i: int)
    requires
        0 <= i <= s.len(),
        digits_value(s) is Some,
    ensures
        digits_value(s.take(i)) is Some,
        digits_value(s.take(i))->0 <= digits_value(s)->0,
    decreases s.len(),
{
    if i < s.len() {
        lemma_digits_grow(s.drop_last(), i);
        assert(s.drop_last().take(i) =~= s.take(i));
    } else {
        assert(s.take(i) =~= s);
    }
}

/// Reads a number from the characters `from..to`.
pub fn parse_number(s: &Vec<char>, from: usize, to: usize, max: u64) -> (r: Option<u64>)
    requires
        from <= to <= s@.len(),
    ensures
        match r {
            None => number(s@.subrange(from as int, to as int), max as nat) is None,
            Some(n) => number(s@.subrange(from as int, to as int), max as nat) == Some(n as nat),
        },
{
    let ghost whole = s@.subrange(from as int, to as int);
    let mut i: usize = from;
    if i < to && s[i] == '+' {
        i = i + 1;
    }
    let ghost digits = s@.subrange(i as int, to as int);
    assert(digits =~= if whole.len() > 0 && whole[0] == '+' { whole.skip(1) } else { whole });
    if i == to {
        return None;
    }
    let ghost start = i as int;
    let mut n: u64 = 0;
    while i < to
        invariant
            0 <= from <= start <= i <= to <= s@.len(),
            digits == s@.subrange(start, to as int),
            digits_value(digits.take(i - start)) == Some(n as nat),
            digits.len() > 0,
            number(whole, max as nat) == (match digits_value(digits) {
                None => None,
                Some(v) => if v <= max {
                    Some(v)
                } else {
                    None
                },
            }),
            whole == s@.subrange(from as int, to as int),
            n <= max,
        decreases to - i,
    {
        let c: char = s[i];
        assert(digits.take(i - start + 1).drop_last() =~= digits.take(i - start));
        assert(digits.take(i - start + 1).last() == c);
        if c < '0' || c > '9' {
            proof {
                if digits_value(digits) is Some {
                    lemma_digits_grow(digits, i - start + 1);
                }
            }
            return None;
        }
        let d: u64 = (c as u32 - '0' as u32) as u64;
        let wide: u128 = n as u128 * 10 + d as u128;
        if wide > max as u128 {
            proof {
                if digits_value(digits) is Some {
                    lemma_digits_grow(digits, i - start + 1);
                }
            }
            return None;
        }
        n = wide as u64;
        i = i + 1;
    }
    assert(digits.take(i - start) =~= digits);
    Some(n)
}

/// A number in decimal, without leading zeros.
pub open spec fn decimal(n: nat) -> Seq<char>
    decreases n,
{
    if n < 10 {
        seq![digit_char(n)]
    } else {
        decimal(n / 10).push(digit_char(n % 10))
    }
}

/// The character of a digit.
pub open spec fn digit_char(d: nat) -> char {
    (d + '0' as nat) as char
}

/// The text of one digit.
fn digit_text(d: u64) -> (r: String)
    requires
        d < 10,
    ensures
        r@ == seq![digit_char(d as nat)],
{
    let all: &str = "0123456789";
    proof {
        reveal_strlit("0123456789");
    }
    let r: String = all.substring_char(d as usize, d as usize + 1).to_owned();
    proof {
        assert(r@ =~= seq![digit_char(d as nat)]);
    }
    r
}

/// A number in decimal, without leading zeros.
pub fn decimal_text(n: u64) -> (r: String)
    ensures
        r@ == decimal(n as nat),
    decreases n,
{
    if n < 10 {
        digit_text(n)
    } else {
        let tail: String = digit_text(n % 10);
        let r: String = decimal_text(n / 10).concat(tail.as_str());
        assert(r@ =~= decimal(n as nat));
        r
    }
}

/// Reading a number gives back what was written in decimal.
pub proof fn law_numbers_survive_as_text(n: nat, max: nat)
    requires
        n <= max,
    ensures
        number(decimal(n), max) == Some(n),
{
    lemma_decimal(n);
}

/// The number that text is the plain decimal form of, if it is no more than
/// `max`: no sign and no leading zeros.
pub open spec fn plain_number(s: Seq<char>, max: nat) -> Option<nat> {
    match number(s, max) {
        Some(n) => if s == decimal(n) {
            Some(n)
        } else {
            None
        },
        None => None,
    }
}

/// Only the plain decimal form of a number is read as that number.
pub proof fn law_plain_numbers_have_one_form(s: Seq<char>, max: nat, n: nat)
    ensures
        plain_number(s, max) == Some(n) <==> n <= max && s == decimal(n),
{
    if n <= max {
        law_numbers_survive_as_text(n, max);
    }
}

/// Reads a number in its plain decimal form.
pub fn parse_plain(s: &str, max: u64) -> (r: Option<u64>)
    ensures
        match r {
            None => plain_number(s@, max as nat) is None,
            Some(n) => plain_number(s@, max as nat) == Some(n as nat),
        },
{
    let cs: Vec<char> = chars(s);
    assert(cs@.subrange(0, cs@.len() as int) =~= s@);
    match parse_number(&cs, 0, cs.len(), max) {
        Some(n) => if same(s, decimal_text(n).as_str()) {
            Some(n)
        } else {
            None
        },
        None => None,
    }
}

/// A number in decimal is made of digits alone.
pub proof fn lemma_decimal_is_digits(n: nat)
    ensures
        decimal(n).len() > 0,
        forall|i: int| 0 <= i < decimal(n).len() ==> '0' <= #[trigger] decimal(n)[i] && decimal(n)[i] <= '9',
    decreases n,
{
    if n >= 10 {
        lemma_decimal_is_digits(n / 10);
    }
}

/// Behind a separator begins the last piece, where no other follows.
pub proof fn lemma_last_piece(front: Seq<char>, separator: char, back: Seq<char>)
    requires
        !back.contains(separator),
    ensures
        pieces(front + seq![separator] + back, separator) == pieces(front, separator).push(back),
    decreases back.len(),
{
    let whole = front + seq![separator] + back;
    if back.len() == 0 {
        assert(whole.drop_last() =~= front);
        assert(back =~= Seq::<char>::empty());
    } else {
        assert(back[back.len() - 1] != separator);
        assert forall|i: int| 0 <= i < back.len() - 1 implies back.drop_last()[i] != separator by {
            assert(back[i] != separator);
        }
        lemma_last_piece(front, separator, back.drop_last());
        assert(whole.drop_last() =~= front + seq![separator] + back.drop_last());
        assert(back.drop_last().push(back.last()) =~= back);
        assert(pieces(front, separator).push(back.drop_last()).drop_last() =~= pieces(front, separator));
    }
}

/// Text without a separator is all one piece.
pub proof fn lemma_one_piece(s: Seq<char>, separator: char)
    requires
        !s.contains(separator),
    ensures
        pieces(s, separator) == seq![s],
    decreases s.len(),
{
    if s.len() > 0 {
        assert(s[s.len() - 1] != separator);
        assert forall|i: int| 0 <= i < s.len() - 1 implies s.drop_last()[i] != separator by {
            assert(s[i] != separator);
        }
        lemma_one_piece(s.drop_last(), separator);
        assert(s.drop_last().push(s.last()) =~= s);
        assert(seq![s.drop_last()].drop_last().push(s) =~= seq![s]);
    } else {
        assert(s =~= Seq::<char>::empty());
    }
}

proof fn lemma_decimal(n: nat)
    ensures
        digits_value(decimal(n)) == Some(n),
        decimal(n).len() > 0,
        decimal(n)[0] != '+',
    decreases n,
{
    if n < 10 {
        assert(decimal(n).drop_last() =~= Seq::<char>::empty());
        assert(digits_value(Seq::<char>::empty()) == Some(0nat));
        assert(digit_of(digit_char(n)) == Some(n));
    } else {
        lemma_decimal(n / 10);
        assert(digit_of(digit_char(n % 10)) == Some(n % 10));
        assert(decimal(n).drop_last() =~= decimal(n / 10));
    }
}

/// What stands around a trimmed text: the white space in front of it and
/// behind it, and nothing else.
pub proof fn law_trimming_takes_the_white_space_around(s: Seq<char>) -> (around: (Seq<char>, Seq<char>))
    ensures
        s == around.0 + trimmed(s) + around.1,
        forall|i: int| 0 <= i < around.0.len() ==> is_space(#[trigger] around.0[i]),
        forall|i: int| 0 <= i < around.1.len() ==> is_space(#[trigger] around.1[i]),
        trimmed(s).len() > 0 ==> !is_space(trimmed(s)[0]) && !is_space(trimmed(s).last()),
{
    let front = lemma_trimmed_start(s);
    let start = trimmed_start(s);
    let back = lemma_trimmed_end(start);
    assert(s =~= front + trimmed(s) + back);
    if trimmed(s).len() > 0 {
        assert(trimmed(s)[0] == start[0]);
    }
    (front, back)
}

proof fn lemma_trimmed_start(s: Seq<char>) -> (front: Seq<char>)
    ensures
        s == front + trimmed_start(s),
        forall|i: int| 0 <= i < front.len() ==> is_space(#[trigger] front[i]),
        trimmed_start(s).len() > 0 ==> !is_space(trimmed_start(s)[0]),
    decreases s.len(),
{
    if s.len() > 0 && is_space(s[0]) {
        let rest = lemma_trimmed_start(s.skip(1));
        assert(s =~= seq![s[0]] + s.skip(1));
        assert(seq![s[0]] + (rest + trimmed_start(s)) =~= seq![s[0]] + rest + trimmed_start(s));
        seq![s[0]] + rest
    } else {
        assert(s =~= Seq::<char>::empty() + s);
        Seq::empty()
    }
}

proof fn lemma_trimmed_end(s: Seq<char>) -> (back: Seq<char>)
    ensures
        s == trimmed_end(s) + back,
        forall|i: int| 0 <= i < back.len() ==> is_space(#[trigger] back[i]),
        trimmed_end(s).len() > 0 ==> !is_space(trimmed_end(s).last()),
    decreases s.len(),
{
    if s.len() > 0 && is_space(s.last()) {
        let rest = lemma_trimmed_end(s.drop_last());
        assert(s =~= s.drop_last().push(s.last()));
        assert((trimmed_end(s) + rest).push(s.last()) =~= trimmed_end(s) + rest.push(s.last()));
        rest.push(s.last())
    } else {
        assert(s =~= s + Seq::<char>::empty());
        Seq::empty()
    }
}

/// Blanks, tabs and the ends of lines are white space; what is printed is
/// not.
pub proof fn law_white_space_is_not_printed(c: char)
    ensures
        c == ' ' || c == '\t' || c == '\n' || c == '\r' ==> is_space(c),
        '!' <= c && c <= '~' ==> !is_space(c),
{
}

/// Texts with a separator between each two of them.
pub open spec fn joined(parts: Seq<Seq<char>>, separator: char) -> Seq<char>
    decreases parts.len(),
{
    if parts.len() == 0 {
        Seq::empty()
    } else if parts.len() == 1 {
        parts[0]
    } else {
        joined(parts.drop_last(), separator).push(separator) + parts.last()
    }
}

/// The pieces of a text have no separator in them, and with one between each
/// two of them they make up the text. There is one more of them than there
/// are separators.
pub proof fn law_pieces_make_up_the_text(s: Seq<char>, separator: char)
    ensures
        joined(pieces(s, separator), separator) == s,
        pieces(s, separator).len() == count_of(s, separator) + 1,
        forall|i: int| 0 <= i < pieces(s, separator).len() ==> !(#[trigger] pieces(s, separator)[i]).contains(separator),
    decreases s.len(),
{
    let all = pieces(s, separator);
    if s.len() == 0 {
        assert(all[0] =~= s);
    } else {
        let start = s.drop_last();
        let before = pieces(start, separator);
        law_pieces_make_up_the_text(start, separator);
        assert(start.push(s.last()) =~= s);
        if s.last() == separator {
            assert(all.drop_last() =~= before);
            assert(joined(all, separator) =~= s);
        } else {
            assert(all.drop_last() =~= before.drop_last());
            assert(joined(all, separator) =~= joined(before, separator).push(s.last()));
            assert forall|i: int| 0 <= i < all.len() implies !(#[trigger] all[i]).contains(separator) by {
                if i < all.len() - 1 {
                    assert(all[i] == before[i]);
                } else {
                    let last = before[before.len() - 1];
                    assert(!last.contains(separator));
                    assert forall|k: int| 0 <= k < all[i].len() implies all[i][k] != separator by {
                        if k < last.len() {
                            assert(all[i][k] == last[k]);
                        }
                    }
                }
            }
        }
    }
}

/// What is read as a number is made of digits, with perhaps a plus sign in
/// front, and each digit more makes it ten times as much and adds its own
/// value, up to what is allowed.
pub proof fn law_each_digit_counts_ten_times_the_next(s: Seq<char>, c: char, max: nat)
    requires
        s.len() > 0,
    ensures
        number(seq![c], max) is Some ==> '0' <= c && c <= '9' && number(seq![c], max)->0 == c as nat - '0' as nat,
        number(s.push(c), max) matches Some(n) ==> '0' <= c && c <= '9' && n <= max && (s == seq!['+'] || (
        number(s, max) matches Some(m) && n == 10 * m + (c as nat - '0' as nat))),
        number(s, max) matches Some(m) ==> ('0' <= c && c <= '9' && 10 * m + (c as nat - '0' as nat) <= max ==> number(
            s.push(c),
            max,
        ) == Some((10 * m + (c as nat - '0' as nat)) as nat)),
        number(seq!['+'] + s, max) == if s[0] == '+' {
            None
        } else {
            number(s, max)
        },
{
    let t = s.push(c);
    let one = seq![c];
    assert(one.drop_last() =~= Seq::<char>::empty());
    assert(one.skip(1) =~= Seq::<char>::empty());
    assert(digits_value(Seq::<char>::empty()) == Some(0nat));
    assert(t.drop_last() =~= s);
    assert(t.skip(1) =~= s.skip(1).push(c));
    assert(s.skip(1).push(c).drop_last() =~= s.skip(1));
    if s[0] == '+' && s.len() == 1 {
        assert(s =~= seq!['+']);
    }
    let plus = seq!['+'] + s;
    assert(plus.skip(1) =~= s);
    if s[0] == '+' {
        lemma_no_digit_first(s);
    }
}

proof fn lemma_no_digit_first(s: Seq<char>)
    requires
        s.len() > 0,
        digit_of(s[0]) is None,
    ensures
        digits_value(s) is None,
    decreases s.len(),
{
    if s.len() > 1 {
        lemma_no_digit_first(s.drop_last());
    }
}

} // verus!
