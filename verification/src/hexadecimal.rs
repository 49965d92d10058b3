//! Hexadecimal digits and the bytes they spell.

use vstd::prelude::*;

verus! {

/// Whether a byte is the ASCII code of a hexadecimal digit, in either case.
pub open spec fn is_hex_digit(c: u8) -> bool {
    0x30 <= c <= 0x39 || 0x41 <= c <= 0x46 || 0x61 <= c <= 0x66
}

/// What a hexadecimal digit counts.
pub open spec fn hex_value(c: u8) -> int {
    if c <= 0x39 {
        c - 0x30
    } else if c <= 0x46 {
        c - 0x41 + 10
    } else {
        c - 0x61 + 10
    }
}

/// Whether `s` holds hexadecimal digits alone.
pub open spec fn all_hex(s: Seq<u8>) -> bool {
    forall|i: int| 0 <= i < s.len() ==> is_hex_digit(#[trigger] s[i])
}

/// The bytes that pairs of digits spell, the higher half of a byte first.
pub open spec fn hex_decoded(s: Seq<u8>) -> Seq<u8> {
    Seq::new(s.len() / 2, |i: int| (16 * hex_value(s[2 * i]) + hex_value(s[2 * i + 1])) as u8)
}

/// Why a text does not spell bytes.
#[derive(Debug, Clone, Copy, PartialEq, Eq)]
pub enum HexError {
    /// The number of digits is odd.
    OddLength,
    /// The byte at `index`, taken for the character `c`, is no digit.
    InvalidCharacter { c: char, index: usize },
    /// The digits do not fill the room that was asked for.
    InvalidStringLength,
}

/// The sentence for a byte that is no digit.
pub uninterp spec fn invalid_character_text(c: char, index: usize) -> Seq<char>;

/// What reading `s` as pairs of digits comes to.
pub open spec fn hex_outcome(s: Seq<u8>, r: Result<Vec<u8>, HexError>) -> bool {
    if s.len() % 2 != 0 {
        r == Err::<Vec<u8>, HexError>(HexError::OddLength)
    } else if all_hex(s) {
        r is Ok && r->Ok_0@ == hex_decoded(s)
    } else {
        r matches Err(HexError::InvalidCharacter { c, index }) && index < s.len() && !is_hex_digit(
            s[index as int],
        ) && all_hex(s.take(index as int)) && c == s[index as int] as char
    }
}

/// Reads pairs of digits with `hex::decode`.
///
/// Believed of the crate: an odd number of bytes is refused first; otherwise the first byte
/// that is no digit is reported with its place, and where there is none every pair of digits
/// gives one byte. No other refusal comes from this function.
#[verifier::external_body]
pub(crate) fn hex_decode(digits: &[u8]) -> (r: Result<Vec<u8>, HexError>)
    ensures
        hex_outcome(digits@, r),
{
    hex::decode(digits).map_err(
        |e| match e {
            hex::FromHexError::OddLength => HexError::OddLength,
            hex::FromHexError::InvalidHexCharacter { c, index } => HexError::InvalidCharacter { c, index },
            hex::FromHexError::InvalidStringLength => HexError::InvalidStringLength,
        },
    )
}

/// The sentence for each refusal.
pub open spec fn hex_sentence(error: HexError) -> Seq<char> {
    match error {
        HexError::OddLength => "Odd number of digits"@,
        HexError::InvalidStringLength => "Invalid string length"@,
        HexError::InvalidCharacter { c, index } => invalid_character_text(c, index),
    }
}

/// The sentence that `hex::FromHexError` displays.
///
/// Believed of the crate: the sentences for an odd number of digits and for a wrong length are
/// fixed, and that for a byte that is no digit depends on the character and its place alone.
#[verifier::external_body]
pub(crate) fn hex_error_text(error: &HexError) -> (r: String)
    ensures
        error is InvalidCharacter ==> r@ == invalid_character_text(error->c, error->index),
        !(error is InvalidCharacter) ==> r@ == hex_sentence(*error),
{
    match *error {
        HexError::OddLength => hex::FromHexError::OddLength,
        HexError::InvalidCharacter { c, index } => hex::FromHexError::InvalidHexCharacter { c, index },
        HexError::InvalidStringLength => hex::FromHexError::InvalidStringLength,
    }.to_string()
}

/// Whether a character is a hexadecimal digit.
pub open spec fn is_hex_char(c: char) -> bool {
    ('0' <= c && c <= '9') || ('a' <= c && c <= 'f') || ('A' <= c && c <= 'F')
}

/// The hexadecimal digits of a text, in order, everything else left out.
pub open spec fn hex_digits(s: Seq<char>) -> Seq<u8>
    decreases s.len(),
{
    if s.len() == 0 {
        seq![]
    } else if is_hex_char(s.last()) {
        hex_digits(s.drop_last()).push(s.last() as u8)
    } else {
        hex_digits(s.drop_last())
    }
}

/// Every byte that [`hex_digits`] keeps is a digit.
pub proof fn lemma_hex_digits_are_digits(s: Seq<char>)
    ensures
        all_hex(hex_digits(s)),
    decreases s.len(),
{
    if s.len() > 0 {
        lemma_hex_digits_are_digits(s.drop_last());
    }
}

/// The hexadecimal digits of a text, in order.
pub fn hex_digits_of(text: &str) -> (r: Vec<u8>)
    ensures
        r@ == hex_digits(text@),
        all_hex(r@),
{
    let mut digits: Vec<u8> = Vec::new();
    for c in it: text.chars()
        invariant
            digits@ == hex_digits(text@.take(it.index())),
            it.seq() == text@,
    {
        assert(text@.take(it.index() + 1).drop_last() =~= text@.take(it.index()));
        assert(text@.take(it.index() + 1).last() == c);
        if ('0' <= c && c <= '9') || ('a' <= c && c <= 'f') || ('A' <= c && c <= 'F') {
            digits.push(c as u8);
        }
    }
    assert(text@.take(text@.len() as int) =~= text@);
    proof {
        lemma_hex_digits_are_digits(text@);
    }
    digits
}

} // verus!
