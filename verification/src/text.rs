//! Text the requests and error messages are made of: decimal numbers and
//! UTF-16.

use vstd::prelude::*;
use vstd::string::*;

verus! {

/// `String::push` appends one character.
pub assume_specification[ std::string::String::push ](s: &mut String, c: char)
    ensures
        final(s)@ == old(s)@.push(c),
;

/// `char::from_u32` yields the character of a code point, and nothing for a
/// surrogate or a number past the last code point.
pub assume_specification[ std::primitive::char::from_u32 ](code: u32) -> (c: Option<char>)
    ensures
        c == (if code < 0xd800 || 0xe000 <= code <= 0x10ffff {
            Some(code as char)
        } else {
            None
        }),
;

/// How `Debug` writes `c`: quoted, with escapes where std's tables ask for one.
pub uninterp spec fn char_debug(c: char) -> Seq<char>;

/// Formats `c` with std's `Debug` for `char`. Which characters it escapes is
/// left to std.
#[verifier::external_body]
pub(crate) fn debug_char(c: char) -> (text: String)
    ensures
        text@ == char_debug(c),
{
    format!("{c:?}")
}

/// The character of a decimal digit.
pub open spec fn digit(d: int) -> char {
    ('0' as int + d) as char
}

/// Decimal digits of `n`, without leading zeros.
pub open spec fn digits(n: nat) -> Seq<char>
    decreases n,
{
    if n < 10 {
        seq![digit(n as int)]
    } else {
        digits(n / 10).push(digit((n % 10) as int))
    }
}

/// `n` in decimal, with a minus sign where it is negative.
pub open spec fn signed_digits(n: int) -> Seq<char> {
    if n < 0 {
        seq!['-'] + digits((-n) as nat)
    } else {
        digits(n as nat)
    }
}

/// `n` in decimal.
pub fn decimal(n: u64) -> (text: String)
    ensures
        text@ == digits(n as nat),
    decreases n,
{
    let last = (48u8 + (n % 10) as u8) as char;
    let mut text = if n < 10 {
        String::new()
    } else {
        decimal(n / 10)
    };
    text.push(last);
    assert(n < 10 ==> text@ =~= digits(n as nat));
    text
}

/// `n` in decimal, with a minus sign where it is negative.
pub fn signed_decimal(n: i32) -> (text: String)
    ensures
        text@ == signed_digits(n as int),
{
    if n < 0 {
        let mut text = "-".to_owned();
        let magnitude = decimal((-(n as i64)) as u64);
        text.append(magnitude.as_str());
        proof {
            reveal_strlit("-");
            assert("-"@ =~= seq!['-']);
        }
        text
    } else {
        decimal(n as u64)
    }
}

/// The characters of `text`, one by one.
pub fn characters(text: &str) -> (chars: Vec<char>)
    ensures
        chars@ == text@,
{
    let mut chars: Vec<char> = Vec::new();
    for c in iter: text.chars()
        invariant
            chars@ == iter.seq().take(iter.index()),
            iter.seq() == text@,
    {
        assert(iter.seq().take(iter.index() + 1) =~= iter.seq().take(iter.index()).push(c));
        chars.push(c);
    }
    assert(text@.take(text@.len() as int) =~= text@);
    chars
}

/// Whether `c` is a decimal digit.
pub open spec fn is_digit(c: char) -> bool {
    '0' <= c <= '9'
}

/// Number that decimal digits stand for, most significant first.
pub open spec fn number(text: Seq<char>) -> nat
    decreases text.len(),
{
    if text.len() == 0 {
        0
    } else {
        10 * number(text.drop_last()) + (text.last() as nat - '0' as nat) as nat
    }
}

/// Text without a leading plus sign.
pub open spec fn unsigned_part(text: Seq<char>) -> Seq<char> {
    if text.len() > 0 && text[0] == '+' {
        text.skip(1)
    } else {
        text
    }
}

/// The machine word that `text` denotes: decimal digits and nothing else, after
/// at most one plus sign, and not past the largest word.
pub open spec fn word_of(text: Seq<char>) -> Option<usize> {
    let body = unsigned_part(text);
    if body.len() > 0 && (forall|i: int| 0 <= i < body.len() ==> is_digit(#[trigger] body[i]))
        && number(body) <= usize::MAX {
        Some(number(body) as usize)
    } else {
        None
    }
}

proof fn lemma_number_grows(text: Seq<char>, len: int)
    requires
        0 <= len <= text.len(),
    ensures
        number(text.take(len)) <= number(text),
    decreases text.len() - len,
{
    if len < text.len() {
        lemma_number_grows(text, len + 1);
        assert(text.take(len + 1).drop_last() =~= text.take(len));
    } else {
        assert(text.take(len) =~= text);
    }
}

/// The machine word that `text` denotes in decimal.
pub fn parse_word(text: &str) -> (word: Option<usize>)
    ensures
        word == word_of(text@),
{
    let chars = characters(text);
    let start: usize = if chars.len() > 0 && chars[0] == '+' {
        1
    } else {
        0
    };
    let ghost body = unsigned_part(text@);
    assert(body =~= text@.skip(start as int));
    if chars.len() == start {
        return None;
    }
    let mut value: usize = 0;
    let mut at: usize = start;
    while at < chars.len()
        invariant
            start <= at <= chars.len(),
            chars@ == text@,
            body == unsigned_part(text@),
            body == text@.skip(start as int),
            value == number(body.take(at - start)),
            forall|i: int| 0 <= i < at - start ==> is_digit(#[trigger] body[i]),
        decreases chars.len() - at,
    {
        let c = chars[at];
        assert(body[at - start] == c);
        if c < '0' || '9' < c {
            assert(!is_digit(body[at - start]));
            return None;
        }
        let d: usize = (c as u32 - '0' as u32) as usize;
        proof {
            assert(body.take(at - start + 1).drop_last() =~= body.take(at - start));
            lemma_number_grows(body, at - start + 1);
        }
        value = match value.checked_mul(10) {
            Some(scaled) => match scaled.checked_add(d) {
                Some(sum) => sum,
                None => {
                    return None;
                },
            },
            None => {
                return None;
            },
        };
        at = at + 1;
    }
    assert(body.take(body.len() as int) =~= body);
    Some(value)
}

/// UTF-16 code units of a character.
pub open spec fn utf16(c: char) -> Seq<u16> {
    if (c as int) < 0x10000 {
        seq![c as u16]
    } else {
        seq![
            (0xd800 + (c as int - 0x10000) / 0x400) as u16,
            (0xdc00 + (c as int - 0x10000) % 0x400) as u16,
        ]
    }
}

/// UTF-16 code units of a character.
pub fn encode_utf16(c: char) -> (units: Vec<u16>)
    ensures
        units@ == utf16(c),
{
    let code = c as u32;
    let mut units: Vec<u16> = Vec::new();
    if code < 0x10000 {
        units.push(code as u16);
    } else {
        units.push((0xd800 + (code - 0x10000) / 0x400) as u16);
        units.push((0xdc00 + (code - 0x10000) % 0x400) as u16);
    }
    assert(units@ =~= utf16(c));
    units
}

/// What stands for a code unit that belongs to no character.
pub const REPLACEMENT: char = '\u{fffd}';

/// Whether `unit` opens a surrogate pair.
pub open spec fn is_high(unit: u16) -> bool {
    0xd800 <= unit <= 0xdbff
}

/// Whether `unit` closes a surrogate pair.
pub open spec fn is_low(unit: u16) -> bool {
    0xdc00 <= unit <= 0xdfff
}

/// Text of UTF-16 code units, with [`REPLACEMENT`] for each unpaired surrogate.
pub open spec fn decoded(units: Seq<u16>) -> Seq<char>
    decreases units.len(),
{
    if units.len() == 0 {
        seq![]
    } else if !is_high(units[0]) && !is_low(units[0]) {
        seq![units[0] as char] + decoded(units.skip(1))
    } else if is_high(units[0]) && units.len() > 1 && is_low(units[1]) {
        seq![
            (0x10000 + (units[0] - 0xd800) * 0x400 + (units[1] - 0xdc00)) as char,
        ] + decoded(units.skip(2))
    } else {
        seq![REPLACEMENT] + decoded(units.skip(1))
    }
}

/// Text of UTF-16 code units, with [`REPLACEMENT`] for each unpaired surrogate.
pub fn decode_utf16_lossy(units: &[u16]) -> (text: String)
    ensures
        text@ == decoded(units@),
{
    let mut text = String::new();
    let mut at: usize = 0;
    assert(units@.skip(0) =~= units@);
    assert(text@ + decoded(units@) =~= decoded(units@));
    while at < units.len()
        invariant
            at <= units.len(),
            text@ + decoded(units@.skip(at as int)) == decoded(units@),
        decreases units.len() - at,
    {
        let ghost rest = units@.skip(at as int);
        let ghost before = text@;
        let unit = units[at];
        let mut code: u32 = unit as u32;
        let mut used: usize = 1;
        if 0xd800 <= unit && unit <= 0xdfff {
            code = 0xfffd;
            if unit <= 0xdbff && at + 1 < units.len() {
                let low = units[at + 1];
                if 0xdc00 <= low && low <= 0xdfff {
                    code = 0x10000 + (unit as u32 - 0xd800) * 0x400 + (low as u32 - 0xdc00);
                    used = 2;
                }
            }
        }
        let c = match char::from_u32(code) {
            Some(c) => c,
            None => REPLACEMENT,
        };
        text.push(c);
        proof {
            assert(decoded(rest) == seq![c] + decoded(rest.skip(used as int)));
            assert(rest.skip(used as int) =~= units@.skip(at + used));
            assert(before.push(c) + decoded(rest.skip(used as int)) =~= before + (seq![c]
                + decoded(rest.skip(used as int))));
        }
        at = at + used;
    }
    assert(units@.skip(at as int).len() == 0);
    assert(text@ + decoded(units@.skip(at as int)) =~= text@);
    text
}

/// A number reads back from its own digits.
pub proof fn law_digits_read_back(n: nat)
    ensures
        number(digits(n)) == n,
        digits(n).len() > 0,
        forall|i: int| 0 <= i < digits(n).len() ==> is_digit(#[trigger] digits(n)[i]),
    decreases n,
{
    if n >= 10 {
        law_digits_read_back(n / 10);
        assert(digits(n).drop_last() =~= digits(n / 10));
    } else {
        assert(digits(n).drop_last() =~= Seq::empty());
        assert(number(Seq::<char>::empty()) == 0);
    }
}

/// A handle in decimal names the window with that handle.
pub proof fn law_handle_names_its_window(handle: usize)
    ensures
        word_of(digits(handle as nat)) == Some(handle),
{
    law_digits_read_back(handle as nat);
    assert(is_digit(digits(handle as nat)[0]));
}

/// UTF-16 code units of a text.
pub open spec fn encoded(text: Seq<char>) -> Seq<u16>
    decreases text.len(),
{
    if text.len() == 0 {
        seq![]
    } else {
        utf16(text[0]) + encoded(text.skip(1))
    }
}

/// Text survives UTF-16: what was encoded decodes to itself.
pub proof fn law_utf16_reads_back(text: Seq<char>)
    ensures
        decoded(encoded(text)) == text,
    decreases text.len(),
{
    if text.len() == 0 {
        assert(decoded(encoded(text)) =~= text);
    } else {
        law_utf16_reads_back(text.skip(1));
        lemma_first_character(text[0], encoded(text.skip(1)));
        assert(seq![text[0]] + text.skip(1) =~= text);
    }
}

proof fn lemma_first_character(c: char, rest: Seq<u16>)
    ensures
        decoded(utf16(c) + rest) == seq![c] + decoded(rest),
{
    let units = utf16(c) + rest;
    let code = c as int;
    if code < 0x10000 {
        assert(units[0] == c as u16);
        assert(units.skip(1) =~= rest);
    } else {
        let offset = code - 0x10000;
        assert(0 <= offset / 0x400 < 0x400 && 0 <= offset % 0x400 < 0x400);
        assert(units[0] == 0xd800 + offset / 0x400);
        assert(units[1] == 0xdc00 + offset % 0x400);
        assert(is_high(units[0]) && is_low(units[1]));
        assert(units.skip(2) =~= rest);
    }
}

} // verus!
