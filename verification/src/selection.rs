//! The keys that the program knows, and the choice among keys.

use vstd::prelude::*;
use crate::guid;
use crate::hexadecimal;
use crate::key;
use crate::key::{same_bytes, CikKey, KeyError};
use crate::stream::MsiXVDStream;

verus! {

/// The stored form of the key for released packages.
#[verifier::opaque]
pub open spec fn release_cik() -> Seq<u8> {
    seq![
        0x91u8, 0xe7, 0xb9, 0xbd, 0x7c, 0xc9, 0x34, 0x37, 0xe1, 0xa8, 0xbc, 0x60,
        0x25, 0x52, 0xdf, 0x06, 0xc9, 0xa9, 0x69, 0xfb, 0xfc, 0xbb, 0xf5, 0xf4,
        0x6d, 0x71, 0x25, 0x0a, 0xf2, 0x26, 0xcf, 0x6a, 0xc7, 0xd1, 0x5c, 0x25,
        0xf9, 0x54, 0x63, 0x44, 0x54, 0x93, 0x91, 0xd1, 0x68, 0x57, 0x39, 0x1f,
    ]
}

/// The stored form of the key for preview packages.
#[verifier::opaque]
pub open spec fn preview_cik() -> Seq<u8> {
    seq![
        0x3fu8, 0xd6, 0x49, 0x1f, 0xf5, 0x8b, 0x8d, 0x1f, 0xed, 0x7e, 0xdb, 0xd8,
        0x94, 0x77, 0xda, 0xd9, 0x80, 0x28, 0x14, 0x00, 0x75, 0x71, 0xf6, 0xa3,
        0x53, 0xc7, 0x10, 0xba, 0x97, 0x2e, 0xf1, 0x13, 0xc6, 0xf2, 0x50, 0xc5,
        0x4b, 0x31, 0x5a, 0xf6, 0x1a, 0x33, 0xcc, 0xa5, 0xde, 0x85, 0xb0, 0x8a,
    ]
}

/// Whether the first `n` characters of a text are ASCII.
spec fn ascii_front(s: Seq<char>, n: int) -> bool
    decreases n,
{
    n <= 0 || ('\0' <= s[n - 1] <= '\u{7f}' && ascii_front(s, n - 1))
}

/// Whether the first `n` pairs of digits spell the first `n` bytes.
spec fn pairs_spell(digits: Seq<u8>, bytes: Seq<u8>, n: int) -> bool
    decreases n,
{
    n <= 0 || {
        let high = digits[2 * n - 2];
        let low = digits[2 * n - 1];
        &&& hexadecimal::is_hex_digit(high)
        &&& hexadecimal::is_hex_digit(low)
        &&& 16 * hexadecimal::hex_value(high) + hexadecimal::hex_value(low) == bytes[n - 1]
        &&& pairs_spell(digits, bytes, n - 1)
    }
}

/// The bytes of an ASCII text.
spec fn ascii_codes(s: Seq<char>) -> Seq<u8> {
    s.map_values(|c: char| c as u8)
}

proof fn lemma_ascii_front(s: Seq<char>, n: int, i: int)
    requires
        ascii_front(s, n),
        0 <= i < n,
    ensures
        '\0' <= s[i] <= '\u{7f}',
    decreases n,
{
    if i < n - 1 {
        lemma_ascii_front(s, n - 1, i);
    }
}

proof fn lemma_ascii_codes(s: Seq<char>)
    requires
        ascii_front(s, s.len() as int),
    ensures
        vstd::utf8::encode_utf8(s) == ascii_codes(s),
{
    assert forall|i: int| 0 <= i < s.len() implies '\0' <= #[trigger] s[i] <= '\u{7f}' by {
        lemma_ascii_front(s, s.len() as int, i);
    }
    vstd::utf8::is_ascii_chars_encode_utf8(s);
    assert(vstd::utf8::encode_utf8(s) =~= ascii_codes(s));
}

proof fn lemma_pairs_spell_at(digits: Seq<u8>, bytes: Seq<u8>, n: int, i: int)
    requires
        pairs_spell(digits, bytes, n),
        0 <= i < n,
    ensures
        hexadecimal::is_hex_digit(digits[2 * i]),
        hexadecimal::is_hex_digit(digits[2 * i + 1]),
        16 * hexadecimal::hex_value(digits[2 * i]) + hexadecimal::hex_value(digits[2 * i + 1])
            == bytes[i],
    decreases n,
{
    if i < n - 1 {
        lemma_pairs_spell_at(digits, bytes, n - 1, i);
    }
}

proof fn lemma_pairs_spell(digits: Seq<u8>, bytes: Seq<u8>)
    requires
        digits.len() == 2 * bytes.len(),
        pairs_spell(digits, bytes, bytes.len() as int),
    ensures
        hexadecimal::all_hex(digits),
        hexadecimal::hex_decoded(digits) == bytes,
{
    let n = bytes.len() as int;
    assert forall|i: int| 0 <= i < digits.len() implies hexadecimal::is_hex_digit(
        #[trigger] digits[i],
    ) by {
        lemma_pairs_spell_at(digits, bytes, n, i / 2);
        assert(i == 2 * (i / 2) || i == 2 * (i / 2) + 1);
    }
    assert forall|i: int| 0 <= i < n implies hexadecimal::hex_decoded(digits)[i] == bytes[i] by {
        lemma_pairs_spell_at(digits, bytes, n, i);
    }
    assert(hexadecimal::hex_decoded(digits) =~= bytes);
}

proof fn lemma_cik_lengths()
    ensures
        release_cik().len() == 48,
        release_cik().subrange(0, 48) == release_cik(),
        preview_cik().len() == 48,
        preview_cik().subrange(0, 48) == preview_cik(),
{
    reveal(release_cik);
    reveal(preview_cik);
    assert(release_cik().subrange(0, 48) =~= release_cik());
    assert(preview_cik().subrange(0, 48) =~= preview_cik());
}

proof fn lemma_release_text()
    ensures
        ({
            let text = vstd::utf8::encode_utf8(
                "91e7b9bd7cc93437e1a8bc602552df06c9a969fbfcbbf5f46d71250af226cf6ac7d15c25f9546344549391d16857391f"@,
            );
            text.len() == 96 && hexadecimal::all_hex(text) && hexadecimal::hex_decoded(text)
                == release_cik()
        }),
{
    reveal(release_cik);
    let s =
        "91e7b9bd7cc93437e1a8bc602552df06c9a969fbfcbbf5f46d71250af226cf6ac7d15c25f9546344549391d16857391f"@;
    reveal_strlit(
        "91e7b9bd7cc93437e1a8bc602552df06c9a969fbfcbbf5f46d71250af226cf6ac7d15c25f9546344549391d16857391f",
    );
    reveal_with_fuel(ascii_front, 26);
    assert(ascii_front(s, 24));
    assert(ascii_front(s, 48));
    assert(ascii_front(s, 72));
    assert(ascii_front(s, 96));
    lemma_ascii_codes(s);
    let codes = ascii_codes(s);
    reveal_with_fuel(pairs_spell, 13);
    assert(pairs_spell(codes, release_cik(), 12));
    assert(pairs_spell(codes, release_cik(), 24));
    assert(pairs_spell(codes, release_cik(), 36));
    assert(pairs_spell(codes, release_cik(), 48));
    lemma_pairs_spell(codes, release_cik());
}

proof fn lemma_preview_text()
    ensures
        ({
            let text = vstd::utf8::encode_utf8(
                "3fd6491ff58b8d1fed7edbd89477dad9802814007571f6a353c710ba972ef113c6f250c54b315af61a33cca5de85b08a"@,
            );
            text.len() == 96 && hexadecimal::all_hex(text) && hexadecimal::hex_decoded(text)
                == preview_cik()
        }),
{
    reveal(preview_cik);
    let s =
        "3fd6491ff58b8d1fed7edbd89477dad9802814007571f6a353c710ba972ef113c6f250c54b315af61a33cca5de85b08a"@;
    reveal_strlit(
        "3fd6491ff58b8d1fed7edbd89477dad9802814007571f6a353c710ba972ef113c6f250c54b315af61a33cca5de85b08a",
    );
    reveal_with_fuel(ascii_front, 26);
    assert(ascii_front(s, 24));
    assert(ascii_front(s, 48));
    assert(ascii_front(s, 72));
    assert(ascii_front(s, 96));
    lemma_ascii_codes(s);
    let codes = ascii_codes(s);
    reveal_with_fuel(pairs_spell, 13);
    assert(pairs_spell(codes, preview_cik(), 12));
    assert(pairs_spell(codes, preview_cik(), 24));
    assert(pairs_spell(codes, preview_cik(), 36));
    assert(pairs_spell(codes, preview_cik(), 48));
    lemma_pairs_spell(codes, preview_cik());
}


proof fn lemma_release_guid()
    ensures
        guid::guid_read(vstd::utf8::encode_utf8("bdb9e791-c97c-3734-e1a8-bc602552df06"@)) == Some(
            key::stored_guid(release_cik()),
        ),
{
    reveal(release_cik);
    let s = "bdb9e791-c97c-3734-e1a8-bc602552df06"@;
    reveal_strlit("bdb9e791-c97c-3734-e1a8-bc602552df06");
    assert(ascii_front(s, 36)) by {
        reveal_with_fuel(ascii_front, 37);
    }
    lemma_ascii_codes(s);
    let codes = ascii_codes(s);
    let wanted = key::stored_guid(release_cik());
    assert(codes[8] == 0x2d && codes[13] == 0x2d && codes[18] == 0x2d && codes[23] == 0x2d);
    let digits = guid::hyphenated_digits(codes)->0;
    assert(wanted[15] == release_cik()[15]);
    assert(pairs_spell(digits, wanted, 16)) by {
        reveal_with_fuel(pairs_spell, 17);
    }
    lemma_pairs_spell(digits, wanted);
}

proof fn lemma_preview_guid()
    ensures
        guid::guid_read(vstd::utf8::encode_utf8("1f49d63f-8bf5-1f8d-ed7e-dbd89477dad9"@)) == Some(
            key::stored_guid(preview_cik()),
        ),
{
    reveal(preview_cik);
    let s = "1f49d63f-8bf5-1f8d-ed7e-dbd89477dad9"@;
    reveal_strlit("1f49d63f-8bf5-1f8d-ed7e-dbd89477dad9");
    assert(ascii_front(s, 36)) by {
        reveal_with_fuel(ascii_front, 37);
    }
    lemma_ascii_codes(s);
    let codes = ascii_codes(s);
    let wanted = key::stored_guid(preview_cik());
    assert(codes[8] == 0x2d && codes[13] == 0x2d && codes[18] == 0x2d && codes[23] == 0x2d);
    let digits = guid::hyphenated_digits(codes)->0;
    assert(wanted[15] == preview_cik()[15]);
    assert(pairs_spell(digits, wanted, 16)) by {
        reveal_with_fuel(pairs_spell, 17);
    }
    lemma_pairs_spell(digits, wanted);
}

/// A key that may be at hand: its stored form, or a text that spells it, and its GUID.
#[derive(Debug, PartialEq, Eq)]
pub struct KnownKey {
    pub bytes: Option<Vec<u8>>,
    pub guid: &'static str,
}

impl KnownKey {
    /// Whether the key is at hand and its GUID is `id`.
    pub open spec fn serves(&self, id: Seq<u8>) -> bool {
        self.bytes is Some && guid::guid_read(vstd::utf8::encode_utf8(self.guid@)) == Some(id)
    }
}

/// The first known key from `k` on that serves the GUID `id`.
pub open spec fn known_for(known: Seq<KnownKey>, id: Seq<u8>, k: int) -> Option<int>
    decreases known.len() - k,
{
    if k >= known.len() {
        None
    } else if known[k].serves(id) {
        Some(k)
    } else {
        known_for(known, id, k + 1)
    }
}

/// The known key that serves the first GUID, from the `i`th on, that any of them serves.
pub open spec fn chosen_key(known: Seq<KnownKey>, ids: Seq<[u8; 16]>, i: int) -> Option<int>
    decreases ids.len() - i,
{
    if i >= ids.len() {
        None
    } else {
        match known_for(known, ids[i]@, 0) {
            Some(k) => Some(k),
            None => chosen_key(known, ids, i + 1),
        }
    }
}

/// What choosing among keys comes to: the known key that is found for the package, or else the
/// one to fall back on, if it is at hand.
pub open spec fn selection_outcome(
    known: Seq<KnownKey>,
    ids: Seq<[u8; 16]>,
    fallback: int,
    r: Result<CikKey, KeyError>,
) -> bool {
    match chosen_key(known, ids, 0) {
        Some(k) => key::find_outcome(known[k].bytes->0@, known[k].guid@, r),
        None => match known[fallback].bytes {
            Some(bytes) => key::find_outcome(bytes@, known[fallback].guid@, r),
            None => r == Err::<CikKey, KeyError>(KeyError::NoKeyAvailable),
        },
    }
}

/// The first known key that serves the GUID `id`.
fn find_known(known: &Vec<KnownKey>, id: &[u8; 16]) -> (r: Option<usize>)
    ensures
        match r {
            Some(k) => known_for(known@, id@, 0) == Some(k as int) && k < known@.len()
                && known@[k as int].bytes is Some,
            None => known_for(known@, id@, 0) is None,
        },
{
    let mut k: usize = 0;
    while k < known.len()
        invariant
            k <= known@.len(),
            known_for(known@, id@, 0) == known_for(known@, id@, k as int),
        decreases known@.len() - k,
    {
        if let Ok(expected) = guid::parse_guid(known[k].guid) {
            if same_bytes(id, &expected) && known[k].bytes.is_some() {
                return Some(k);
            }
        }
        k = k + 1;
    }
    None
}

/// Chooses a key for a package that names the GUIDs `ids`, in the order in which it names them.
pub fn select_key(ids: &Vec<[u8; 16]>, known: &Vec<KnownKey>, fallback: usize) -> (r: Result<
    CikKey,
    KeyError,
>)
    requires
        fallback < known@.len(),
    ensures
        selection_outcome(known@, ids@, fallback as int, r),
{
    let mut i: usize = 0;
    while i < ids.len()
        invariant
            i <= ids@.len(),
            chosen_key(known@, ids@, 0) == chosen_key(known@, ids@, i as int),
        decreases ids@.len() - i,
    {
        if let Some(k) = find_known(known, &ids[i]) {
            if let Some(bytes) = &known[k].bytes {
                return CikKey::find_and_create(bytes, known[k].guid);
            }
        }
        i = i + 1;
    }
    match &known[fallback].bytes {
        Some(bytes) => CikKey::find_and_create(bytes, known[fallback].guid),
        None => Err(KeyError::NoKeyAvailable),
    }
}

/// The stored form of the key for released packages.
pub fn get_release_key_bytes() -> (r: Option<Vec<u8>>)
    ensures
        r is Some && r->0@ == release_cik(),
{
    proof {
        lemma_release_text();
    }
    let digits: &str =
        "91e7b9bd7cc93437e1a8bc602552df06c9a969fbfcbbf5f46d71250af226cf6ac7d15c25f9546344549391d16857391f";
    hexadecimal::hex_decode(digits.as_bytes()).ok()
}

/// The stored form of the key for preview packages.
pub fn get_pre_release_key_bytes() -> (r: Option<Vec<u8>>)
    ensures
        r is Some && r->0@ == preview_cik(),
{
    proof {
        lemma_preview_text();
    }
    let digits: &str =
        "3fd6491ff58b8d1fed7edbd89477dad9802814007571f6a353c710ba972ef113c6f250c54b315af61a33cca5de85b08a";
    hexadecimal::hex_decode(digits.as_bytes()).ok()
}

/// Whether a package is opened with the key for released packages: the first GUID that is one
/// of the two known ones decides, and where there is none, whether the second number of the
/// version is other than zero.
pub open spec fn takes_release_key(ids: Seq<[u8; 16]>, version2: int, i: int) -> bool
    decreases ids.len() - i,
{
    if i >= ids.len() {
        version2 != 0
    } else if ids[i]@ == key::stored_guid(release_cik()) {
        true
    } else if ids[i]@ == key::stored_guid(preview_cik()) {
        false
    } else {
        takes_release_key(ids, version2, i + 1)
    }
}

impl MsiXVDStream {
    /// The stored form of the key that the package is opened with.
    pub open spec fn cik(&self) -> Seq<u8> {
        if takes_release_key(
            self.encryption_key_ids@,
            self.header.package_version2 as int,
            0,
        ) {
            release_cik()
        } else {
            preview_cik()
        }
    }

    /// Chooses the key that the package is opened with.
    pub fn select_cik(&self) -> (r: Result<CikKey, KeyError>)
        ensures
            r is Ok && r->Ok_0.holds(self.cik()),
    {
        let mut known: Vec<KnownKey> = Vec::new();
        known.push(KnownKey { bytes: get_release_key_bytes(), guid: "bdb9e791-c97c-3734-e1a8-bc602552df06" });
        known.push(
            KnownKey { bytes: get_pre_release_key_bytes(), guid: "1f49d63f-8bf5-1f8d-ed7e-dbd89477dad9" },
        );
        let fallback: usize = if self.header.package_version2 == 0 {
            1
        } else {
            0
        };
        proof {
            lemma_release_guid();
            lemma_preview_guid();
            lemma_cik_lengths();
            lemma_choice_of_two(
                known@,
                self.encryption_key_ids@,
                self.header.package_version2 as int,
                0,
            );
        }
        select_key(&self.encryption_key_ids, &known, fallback)
    }
}

proof fn lemma_choice_of_two(known: Seq<KnownKey>, ids: Seq<[u8; 16]>, version2: int, i: int)
    requires
        known.len() == 2,
        known[0].serves(key::stored_guid(release_cik())),
        known[1].serves(key::stored_guid(preview_cik())),
        0 <= i,
    ensures
        (match chosen_key(known, ids, i) {
            Some(k) => k,
            None => if version2 == 0 {
                1int
            } else {
                0int
            },
        }) == (if takes_release_key(ids, version2, i) {
            0int
        } else {
            1int
        }),
    decreases ids.len() - i,
{
    if i < ids.len() {
        reveal_with_fuel(known_for, 3);
        lemma_choice_of_two(known, ids, version2, i + 1);
    }
}

/// Whether a GUID is that of a key the program knows.
pub open spec fn is_known_guid(id: Seq<u8>) -> bool {
    id == key::stored_guid(release_cik()) || id == key::stored_guid(preview_cik())
}

/// The first known GUID that a package names is that of the key it is opened with.
pub proof fn first_known_guid_decides(stream: MsiXVDStream, i: int)
    requires
        0 <= i < stream.encryption_key_ids@.len(),
        is_known_guid(stream.encryption_key_ids@[i]@),
        forall|k: int|
            0 <= k < i ==> !is_known_guid((#[trigger] stream.encryption_key_ids@[k])@),
    ensures
        key::stored_guid(stream.cik()) == stream.encryption_key_ids@[i]@,
{
    let ids = stream.encryption_key_ids@;
    let version2 = stream.header.package_version2 as int;
    lemma_unknown_guids_are_passed(ids, version2, 0, i);
    if ids[i]@ == key::stored_guid(release_cik()) {
        assert(takes_release_key(ids, version2, i));
    } else {
        assert(!takes_release_key(ids, version2, i));
    }
}

/// Where a package names no known GUID, it is opened with the key for previews exactly if the
/// second number of its version is zero.
pub proof fn version_decides_without_a_known_guid(stream: MsiXVDStream)
    requires
        forall|k: int|
            0 <= k < stream.encryption_key_ids@.len() ==> !is_known_guid(
                (#[trigger] stream.encryption_key_ids@[k])@,
            ),
    ensures
        stream.cik() == (if stream.header.package_version2 == 0 {
            preview_cik()
        } else {
            release_cik()
        }),
{
    let ids = stream.encryption_key_ids@;
    lemma_unknown_guids_are_passed(
        ids,
        stream.header.package_version2 as int,
        0,
        ids.len() as int,
    );
}

/// GUIDs that are not known do not count in the choice.
pub proof fn lemma_unknown_guids_are_passed(ids: Seq<[u8; 16]>, version2: int, i: int, j: int)
    requires
        0 <= i <= j <= ids.len(),
        forall|k: int| i <= k < j ==> !is_known_guid((#[trigger] ids[k])@),
    ensures
        takes_release_key(ids, version2, i) == takes_release_key(ids, version2, j),
    decreases j - i,
{
    if i < j {
        assert(!is_known_guid(ids[i]@));
        lemma_unknown_guids_are_passed(ids, version2, i + 1, j);
    }
}

} // verus!
