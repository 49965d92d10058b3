//! Texts: numbers in decimal, decoding, and the small questions asked of paths and addresses.

use vstd::prelude::*;

verus! {

/// The character of a decimal digit.
pub open spec fn digit_char(d: nat) -> char {
    if d == 0 {
        '0'
    } else if d == 1 {
        '1'
    } else if d == 2 {
        '2'
    } else if d == 3 {
        '3'
    } else if d == 4 {
        '4'
    } else if d == 5 {
        '5'
    } else if d == 6 {
        '6'
    } else if d == 7 {
        '7'
    } else if d == 8 {
        '8'
    } else {
        '9'
    }
}

/// A number in decimal, without leading zeros.
pub open spec fn decimal(n: nat) -> Seq<char>
    decreases n,
{
    if n < 10 {
        seq![digit_char(n)]
    } else {
        decimal(n / 10).push(digit_char(n % 10))
    }
}

fn digit_text(d: u64) -> (r: &'static str)
    requires
        d < 10,
    ensures
        r@ == seq![digit_char(d as nat)],
{
    proof {
        reveal_strlit("0");
        reveal_strlit("1");
        reveal_strlit("2");
        reveal_strlit("3");
        reveal_strlit("4");
        reveal_strlit("5");
        reveal_strlit("6");
        reveal_strlit("7");
        reveal_strlit("8");
        reveal_strlit("9");
    }
    let r: &'static str = match d {
        0 => "0",
        1 => "1",
        2 => "2",
        3 => "3",
        4 => "4",
        5 => "5",
        6 => "6",
        7 => "7",
        8 => "8",
        _ => "9",
    };
    assert(r@ =~= seq![digit_char(d as nat)]);
    r
}

/// Adds a number in decimal to the end of a text.
pub fn append_decimal(text: &mut String, n: u64)
    ensures
        final(text)@ == old(text)@ + decimal(n as nat),
    decreases n,
{
    if n >= 10 {
        append_decimal(text, n / 10);
    }
    let ghost before = text@;
    text.append(digit_text(n % 10));
    assert(before + seq![digit_char((n % 10) as nat)] =~= old(text)@ + decimal(n as nat));
}

/// The text of `data`, taken for UTF-8, read with `std::str::from_utf8`.
///
/// Believed of std: there is one exactly where the bytes are valid UTF-8, and it holds the
/// characters that they encode.
#[verifier::external_body]
pub(crate) fn utf8_text(data: &[u8]) -> (r: Option<&str>)
    ensures
        r is Some <==> vstd::utf8::valid_utf8(data@),
        r is Some ==> r->0@ == vstd::utf8::decode_utf8(data@),
{
    std::str::from_utf8(data).ok()
}

/// The text of UTF-16 code units; a surrogate that does not stand in a pair becomes the
/// replacement character.
pub open spec fn utf16_lossy(units: Seq<u16>) -> Seq<char>
    decreases units.len(),
{
    if units.len() == 0 {
        seq![]
    } else if !(0xd800 <= units[0] < 0xe000) {
        seq![units[0] as char] + utf16_lossy(units.skip(1))
    } else if units[0] < 0xdc00 && units.len() > 1 && 0xdc00 <= units[1] < 0xe000 {
        seq![(0x10000 + (units[0] - 0xd800) * 0x400 + (units[1] - 0xdc00)) as char] + utf16_lossy(
            units.skip(2),
        )
    } else {
        seq!['\u{fffd}'] + utf16_lossy(units.skip(1))
    }
}

/// Decodes with `String::from_utf16_lossy`.
///
/// Believed of std: units outside the surrogates stand for themselves, a high surrogate before
/// a low one stands with it for one character, and every other surrogate is replaced by U+FFFD.
#[verifier::external_body]
pub(crate) fn utf16_text(units: &[u16]) -> (r: String)
    ensures
        r@ == utf16_lossy(units@),
{
    String::from_utf16_lossy(units)
}

/// The texts of a sequence, as contracts speak of them.
pub open spec fn texts(strings: Seq<String>) -> Seq<Seq<char>> {
    strings.map_values(|s: String| s@)
}

/// A text without the NUL characters at its front and at its end.
pub open spec fn nul_trimmed(s: Seq<char>) -> Seq<char>
    decreases s.len(),
{
    if s.len() > 0 && s[0] == '\0' {
        nul_trimmed(s.skip(1))
    } else if s.len() > 0 && s.last() == '\0' {
        nul_trimmed(s.drop_last())
    } else {
        s
    }
}

/// A text without the NUL characters at its front and at its end.
pub fn trim_nul(text: &str) -> (r: String)
    ensures
        r@ == nul_trimmed(text@),
{
    let len: usize = text.unicode_len();
    let mut from: usize = 0;
    let mut to: usize = len;
    assert(text@.subrange(0, len as int) =~= text@);
    while from < to && text.get_char(from) == '\0'
        invariant
            from <= to,
            to == len,
            len == text@.len(),
            nul_trimmed(text@.subrange(from as int, to as int)) == nul_trimmed(text@),
        decreases to - from,
    {
        assert(text@.subrange(from as int, to as int).skip(1) =~= text@.subrange(
            from + 1,
            to as int,
        ));
        from = from + 1;
    }
    while from < to && text.get_char(to - 1) == '\0'
        invariant
            from <= to,
            to <= len,
            len == text@.len(),
            from < to ==> text@[from as int] != '\0',
            nul_trimmed(text@.subrange(from as int, to as int)) == nul_trimmed(text@),
        decreases to - from,
    {
        assert(text@.subrange(from as int, to as int).drop_last() =~= text@.subrange(
            from as int,
            to - 1,
        ));
        to = to - 1;
    }
    text.substring_char(from, to).to_owned()
}

} // verus!
