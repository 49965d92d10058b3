//! GUIDs as their 16 bytes, in the order in which they are written.

use vstd::prelude::*;
use crate::hexadecimal;

verus! {

/// The bytes of a GUID with its first three fields turned round: from the written order to the
/// stored one and back.
pub open spec fn guid_flipped(b: Seq<u8>) -> Seq<u8> {
    seq![
        b[3], b[2], b[1], b[0], b[5], b[4], b[7], b[6],
        b[8], b[9], b[10], b[11], b[12], b[13], b[14], b[15],
    ]
}

/// Turning the fields round twice changes nothing.
pub proof fn guid_flipped_twice(b: Seq<u8>)
    requires
        b.len() == 16,
    ensures
        guid_flipped(guid_flipped(b)) == b,
{
    assert(guid_flipped(guid_flipped(b)) =~= b);
}

/// The GUID whose stored form is `bytes`, made by `uuid::Uuid::from_bytes_le`.
///
/// Believed of the crate: the bytes of the first three fields are turned round, the others
/// stay.
#[verifier::external_body]
pub(crate) fn guid_from_stored(bytes: [u8; 16]) -> (r: [u8; 16])
    ensures
        r@ == guid_flipped(bytes@),
{
    uuid::Uuid::from_bytes_le(bytes).into_bytes()
}

/// The stored form of a GUID, made by `uuid::Uuid::to_bytes_le`.
///
/// Believed of the crate: the bytes of the first three fields are turned round, the others
/// stay.
#[verifier::external_body]
pub(crate) fn guid_to_stored(guid: [u8; 16]) -> (r: [u8; 16])
    ensures
        r@ == guid_flipped(guid@),
{
    uuid::Uuid::from_bytes(guid).to_bytes_le()
}

/// Whether a GUID is the one of zeros alone.
pub open spec fn is_nil(guid: Seq<u8>) -> bool {
    forall|i: int| 0 <= i < guid.len() ==> guid[i] == 0
}

/// Asks `uuid::Uuid::is_nil`.
///
/// Believed of the crate: the answer is whether all 16 bytes are zero.
#[verifier::external_body]
pub(crate) fn guid_is_nil(guid: [u8; 16]) -> (r: bool)
    ensures
        r == is_nil(guid@),
{
    uuid::Uuid::from_bytes(guid).is_nil()
}

/// The digits of five groups of 8, 4, 4, 4 and 12 places with hyphens between them.
pub open spec fn hyphenated_digits(s: Seq<u8>) -> Option<Seq<u8>> {
    if s.len() == 36 && s[8] == 0x2d && s[13] == 0x2d && s[18] == 0x2d && s[23] == 0x2d {
        Some(
            s.subrange(0, 8) + s.subrange(9, 13) + s.subrange(14, 18) + s.subrange(19, 23)
                + s.subrange(24, 36),
        )
    } else {
        None
    }
}

/// Whether `s` starts with `urn:uuid:`, in either case.
pub open spec fn has_urn_prefix(s: Seq<u8>) -> bool {
    let lower = s.take(9).map_values(|c: u8| if 0x41 <= c <= 0x5a { (c + 0x20) as u8 } else { c });
    lower == seq![0x75u8, 0x72, 0x6e, 0x3a, 0x75, 0x75, 0x69, 0x64, 0x3a]
}

/// The 32 places in which a written GUID has its digits: plain, hyphenated, in braces, or as a
/// URN.
pub open spec fn guid_digits(s: Seq<u8>) -> Option<Seq<u8>> {
    if s.len() == 32 {
        Some(s)
    } else if s.len() == 36 {
        hyphenated_digits(s)
    } else if s.len() == 38 && s[0] == 0x7b && s[37] == 0x7d {
        hyphenated_digits(s.subrange(1, 37))
    } else if s.len() == 45 && has_urn_prefix(s) {
        hyphenated_digits(s.subrange(9, 45))
    } else {
        None
    }
}

/// The GUID that a text, given by its bytes, writes down.
pub open spec fn guid_read(s: Seq<u8>) -> Option<Seq<u8>> {
    match guid_digits(s) {
        Some(digits) => if hexadecimal::all_hex(digits) {
            Some(hexadecimal::hex_decoded(digits))
        } else {
            None
        },
        None => None,
    }
}

/// The sentence for a text that writes down no GUID.
pub uninterp spec fn invalid_guid_text(s: Seq<char>) -> Seq<char>;

/// Reads a GUID with `uuid::Uuid::parse_str`; a refusal comes as the sentence that its error
/// displays.
///
/// Believed of the crate: it reads 32 digits that stand alone, or hyphenated, or hyphenated
/// within braces or behind `urn:uuid:`, and nothing else; the sentence of a refusal depends on
/// the text alone.
#[verifier::external_body]
pub(crate) fn parse_guid(text: &str) -> (r: Result<[u8; 16], String>)
    ensures
        match r {
            Ok(guid) => guid_read(vstd::utf8::encode_utf8(text@)) == Some(guid@),
            Err(sentence) => guid_read(vstd::utf8::encode_utf8(text@)) is None && sentence@
                == invalid_guid_text(text@),
        },
{
    uuid::Uuid::parse_str(text).map(|guid| guid.into_bytes()).map_err(|e| e.to_string())
}

} // verus!
