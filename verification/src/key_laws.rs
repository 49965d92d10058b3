//! What holds of the search for content keys as a whole.

use vstd::prelude::*;
use crate::guid;
use crate::hexadecimal;
use crate::key;

verus! {

/// A first occurrence is an occurrence, and none comes before it.
pub proof fn lemma_first_occurrence(data: Seq<u8>, needle: Seq<u8>, from: int)
    requires
        0 <= from,
    ensures
        match key::first_occurrence(data, needle, from) {
            Some(at) => from <= at && key::occurs_at(data, needle, at) && forall|p: int|
                from <= p < at ==> !key::occurs_at(data, needle, p),
            None => forall|p: int| from <= p ==> !key::occurs_at(data, needle, p),
        },
    decreases data.len() - from + 1,
{
    if from + needle.len() <= data.len() && !key::occurs_at(data, needle, from) {
        lemma_first_occurrence(data, needle, from + 1);
    }
}

/// A search finds no other key than the one that was asked for: what it finds has the size of a
/// stored key and the GUID that was wanted.
pub proof fn found_key_has_the_wanted_guid(data: Seq<u8>, wanted: Seq<u8>)
    requires
        wanted.len() == 16,
    ensures
        key::located_key(data, wanted) matches Some(raw) ==> raw.len() == 48 && key::stored_guid(
            raw,
        ) == wanted,
{
    lemma_first_occurrence(data, guid::guid_flipped(wanted), 0);
    guid::guid_flipped_twice(wanted);
    if let Some(raw) = key::located_key(data, wanted) {
        if data.len() >= 48 && key::stored_guid(data) == wanted {
            assert(raw.subrange(0, 16) =~= data.subrange(0, 16));
        } else {
            match key::first_occurrence(data, guid::guid_flipped(wanted), 0) {
                Some(at) => {
                    if at + 48 <= data.len() {
                        assert(raw.subrange(0, 16) =~= data.subrange(at, at + 16));
                    }
                },
                None => {},
            }
        }
    }
}

/// A stored key is found under its own GUID, whatever follows it.
pub proof fn stored_key_is_found_under_its_own_guid(raw: Seq<u8>, rest: Seq<u8>)
    requires
        raw.len() == 48,
    ensures
        key::located_key(raw + rest, key::stored_guid(raw)) == Some(raw),
{
    assert((raw + rest).subrange(0, 16) =~= raw.subrange(0, 16));
    assert((raw + rest).subrange(0, 48) =~= raw);
}

/// A stored key is found behind any bytes in which its GUID does not begin.
pub proof fn stored_key_is_found_behind_other_bytes(ahead: Seq<u8>, raw: Seq<u8>, rest: Seq<u8>)
    requires
        raw.len() == 48,
        forall|p: int|
            0 <= p < ahead.len() ==> !key::occurs_at(ahead + raw + rest, raw.subrange(0, 16), p),
    ensures
        key::located_key(ahead + raw + rest, key::stored_guid(raw)) == Some(raw),
{
    let data = ahead + raw + rest;
    let at = ahead.len() as int;
    let wanted = key::stored_guid(raw);
    let needle = raw.subrange(0, 16);
    assert(guid::guid_flipped(wanted) == needle) by {
        guid::guid_flipped_twice(needle);
    }
    assert(data.subrange(at, at + 16) =~= needle);
    assert(key::occurs_at(data, needle, at));
    assert(key::first_occurrence(data, needle, 0) == Some(at)) by {
        lemma_first_occurrence(data, needle, 0);
    }
    assert(data.subrange(at, at + 48) =~= raw);
    if data.len() >= 48 && key::stored_guid(data) == wanted {
        assert(data.subrange(0, 16) == needle) by {
            guid::guid_flipped_twice(data.subrange(0, 16));
        }
        assert(key::occurs_at(data, needle, 0));
        assert(at == 0);
    }
}

/// The lower-case digit for a value below 16.
pub open spec fn hex_digit(v: u8) -> u8 {
    if v < 10 {
        (v + 0x30) as u8
    } else {
        (v - 10 + 0x61) as u8
    }
}

/// Bytes as pairs of lower-case digits.
pub open spec fn hex_encoded(b: Seq<u8>) -> Seq<u8> {
    Seq::new(
        2 * b.len(),
        |i: int|
            if i % 2 == 0 {
                hex_digit(b[i / 2] / 16)
            } else {
                hex_digit(b[i / 2] % 16)
            },
    )
}

/// Bytes written as pairs of digits are read back unchanged.
pub proof fn hex_round_trip(b: Seq<u8>)
    ensures
        hexadecimal::all_hex(hex_encoded(b)),
        hex_encoded(b).len() == 2 * b.len(),
        hexadecimal::hex_decoded(hex_encoded(b)) == b,
{
    let s = hex_encoded(b);
    assert forall|i: int| 0 <= i < b.len() implies hexadecimal::hex_decoded(s)[i] == b[i] by {
        assert(s[2 * i] == hex_digit(b[i] / 16));
        assert(s[2 * i + 1] == hex_digit(b[i] % 16));
    }
    assert(hexadecimal::hex_decoded(s) =~= b);
}

/// Reading the hexadecimal form of a stored key gives that key.
pub proof fn spelled_key_is_the_stored_key(
    raw: Seq<u8>,
    r: Result<key::CikKey, key::KeyError>,
)
    requires
        raw.len() == 48,
        key::spelled_outcome(hex_encoded(raw), r),
    ensures
        r is Ok && r->Ok_0.holds(raw),
{
    hex_round_trip(raw);
}

/// A key that a text spells, whatever stands between the digits, is found where the bytes of
/// the text do not happen to hold its GUID as it is stored.
pub proof fn spelled_key_is_found(data: Seq<u8>, raw: Seq<u8>)
    requires
        raw.len() == 48,
        vstd::utf8::valid_utf8(data),
        hexadecimal::hex_digits(vstd::utf8::decode_utf8(data)).len() >= 96,
        hexadecimal::hex_digits(vstd::utf8::decode_utf8(data)).subrange(0, 96) == hex_encoded(raw),
        key::first_occurrence(data, raw.subrange(0, 16), 0) is None,
    ensures
        key::located_key(data, key::stored_guid(raw)) == Some(raw),
{
    let wanted = key::stored_guid(raw);
    let needle = raw.subrange(0, 16);
    guid::guid_flipped_twice(needle);
    lemma_first_occurrence(data, needle, 0);
    hex_round_trip(raw);
    if data.len() >= 48 && key::stored_guid(data) == wanted {
        guid::guid_flipped_twice(data.subrange(0, 16));
        assert(key::occurs_at(data, needle, 0));
    }
}

} // verus!
