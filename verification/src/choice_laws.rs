//! What holds of the keys that are found and chosen, on their bytes.

use vstd::prelude::*;
use crate::guid;
use crate::hexadecimal;
use crate::key;
use crate::key::{CikKey, KeyError};
use crate::key_laws;
use crate::selection;
use crate::selection::{
    get_pre_release_key_bytes, get_release_key_bytes, select_key, KnownKey,
};
use crate::stream::MsiXVDStream;

verus! {

/// Whether a key is the one in 48 bytes: a GUID with its first three fields turned round, the
/// key of the tweak and the key of the data.
pub open spec fn is_stored_in(key: CikKey, raw: Seq<u8>) -> bool {
    &&& raw.len() == 48
    &&& key.guid@ == seq![raw[3], raw[2], raw[1], raw[0], raw[5], raw[4], raw[7], raw[6]]
        + raw.subrange(8, 16)
    &&& key.t_key@ == raw.subrange(16, 32)
    &&& key.d_key@ == raw.subrange(32, 48)
}

proof fn lemma_stored(key: CikKey, raw: Seq<u8>)
    requires
        raw.len() >= 48,
        key.holds(raw),
    ensures
        is_stored_in(key, raw.take(48)),
{
    let front = raw.take(48);
    assert(key.guid@ =~= seq![
        front[3],
        front[2],
        front[1],
        front[0],
        front[5],
        front[4],
        front[7],
        front[6],
    ] + front.subrange(8, 16));
    assert(front.subrange(16, 32) =~= raw.subrange(16, 32));
    assert(front.subrange(32, 48) =~= raw.subrange(32, 48));
}

/// A key is read from the first 48 bytes, and from no fewer.
pub proof fn key_has_three_parts(cik: &[u8], r: Result<CikKey, KeyError>)
    requires
        call_ensures(CikKey::new, (cik,), r),
    ensures
        r is Ok <==> cik@.len() >= 48,
        r is Ok ==> is_stored_in(r->Ok_0, cik@.take(48)),
        r is Err ==> r == Err::<CikKey, KeyError>(
            KeyError::TooShort { len: cik@.len() as usize },
        ),
{
    if cik@.len() >= 48 {
        lemma_stored(r->Ok_0, cik@);
    }
}

/// Whether three bytes that stand for the replacement character begin at `i`.
pub open spec fn replaced_at(data: Seq<u8>, i: int) -> bool {
    0 <= i && i + 3 <= data.len() && data[i] == 0xef && data[i + 1] == 0xbf && data[i + 2] == 0xbd
}

/// What a search finds has the GUID that was asked for. Where it finds nothing, the data are
/// called damaged exactly if they hold the bytes of the replacement character.
pub proof fn search_finds_the_key_or_tells_why_not(
    data: &[u8],
    wanted: [u8; 16],
    r: Result<CikKey, KeyError>,
)
    requires
        call_ensures(CikKey::find, (data, &wanted), r),
    ensures
        r is Ok ==> r->Ok_0.guid@ == wanted@,
        r is Err ==> r->Err_0 == KeyError::DamagedByText || r->Err_0 == KeyError::NotFound,
        r is Err ==> (r->Err_0 == KeyError::DamagedByText <==> exists|i: int| #[trigger]
            replaced_at(data@, i)),
{
    key_laws::found_key_has_the_wanted_guid(data@, wanted@);
    let mark = key::replacement_bytes();
    key_laws::lemma_first_occurrence(data@, mark, 0);
    match key::first_occurrence(data@, mark, 0) {
        Some(at) => {
            let part = data@.subrange(at, at + 3);
            assert(part[0] == 0xef && part[1] == 0xbf && part[2] == 0xbd);
            assert(replaced_at(data@, at));
        },
        None => {
            assert forall|i: int| !#[trigger] replaced_at(data@, i) by {
                if replaced_at(data@, i) {
                    assert(data@.subrange(i, i + 3) =~= mark);
                    assert(key::occurs_at(data@, mark, i));
                }
            }
        },
    }
}

/// Whether the 16 bytes from `p` on are the first 16 of `raw`.
pub open spec fn begins_alike(data: Seq<u8>, p: int, raw: Seq<u8>) -> bool {
    data.subrange(p, p + 16) == raw.subrange(0, 16)
}

/// A key is found behind any bytes in which its stored GUID does not begin, whatever follows it.
pub proof fn search_finds_a_stored_key(
    data: &[u8],
    wanted: [u8; 16],
    ahead: Seq<u8>,
    raw: Seq<u8>,
    rest: Seq<u8>,
    r: Result<CikKey, KeyError>,
)
    requires
        raw.len() == 48,
        data@ == ahead + raw + rest,
        wanted@ == seq![raw[3], raw[2], raw[1], raw[0], raw[5], raw[4], raw[7], raw[6]]
            + raw.subrange(8, 16),
        forall|p: int| 0 <= p < ahead.len() ==> !#[trigger] begins_alike(data@, p, raw),
        call_ensures(CikKey::find, (data, &wanted), r),
    ensures
        r is Ok,
        is_stored_in(r->Ok_0, raw),
{
    let needle = raw.subrange(0, 16);
    assert(wanted@ =~= key::stored_guid(raw));
    assert forall|p: int| 0 <= p < ahead.len() implies !key::occurs_at(data@, needle, p) by {
        assert(!begins_alike(data@, p, raw));
    }
    key_laws::stored_key_is_found_behind_other_bytes(ahead, raw, rest);
    lemma_stored(r->Ok_0, raw);
    assert(raw.take(48) =~= raw);
}

/// Asking for a GUID by its text is asking for the GUID that the text writes down.
pub proof fn search_by_text_is_search_by_guid(
    data: &[u8],
    wanted: [u8; 16],
    text: &str,
    r: Result<CikKey, KeyError>,
    q: Result<CikKey, KeyError>,
)
    requires
        guid::guid_read(vstd::utf8::encode_utf8(text@)) == Some(wanted@),
        call_ensures(CikKey::find_and_create, (data, text), r),
        call_ensures(CikKey::find, (data, &wanted), q),
    ensures
        r is Ok <==> q is Ok,
        r is Err ==> r == q,
        r is Ok ==> r->Ok_0.guid@ == q->Ok_0.guid@ && r->Ok_0.t_key@ == q->Ok_0.t_key@
            && r->Ok_0.d_key@ == q->Ok_0.d_key@,
{
}

/// A key that a text spells is found, whatever stands between the digits, where the bytes of the
/// text do not happen to hold its stored GUID.
pub proof fn search_finds_a_spelled_key(
    data: &[u8],
    wanted: [u8; 16],
    raw: Seq<u8>,
    r: Result<CikKey, KeyError>,
)
    requires
        raw.len() == 48,
        wanted@ == seq![raw[3], raw[2], raw[1], raw[0], raw[5], raw[4], raw[7], raw[6]]
            + raw.subrange(8, 16),
        vstd::utf8::valid_utf8(data@),
        hexadecimal::hex_digits(vstd::utf8::decode_utf8(data@)).len() >= 96,
        hexadecimal::hex_digits(vstd::utf8::decode_utf8(data@)).take(96) == key_laws::hex_encoded(
            raw,
        ),
        forall|p: int| 0 <= p <= data@.len() - 16 ==> !#[trigger] begins_alike(data@, p, raw),
        call_ensures(CikKey::find, (data, &wanted), r),
    ensures
        r is Ok,
        is_stored_in(r->Ok_0, raw),
{
    let needle = raw.subrange(0, 16);
    let digits = hexadecimal::hex_digits(vstd::utf8::decode_utf8(data@));
    assert(digits.take(96) =~= digits.subrange(0, 96));
    assert(wanted@ =~= key::stored_guid(raw));
    key_laws::lemma_first_occurrence(data@, needle, 0);
    assert(key::first_occurrence(data@, needle, 0) is None) by {
        if let Some(at) = key::first_occurrence(data@, needle, 0) {
            assert(begins_alike(data@, at, raw));
        }
    }
    key_laws::spelled_key_is_found(data@, raw);
    lemma_stored(r->Ok_0, raw);
    assert(raw.take(48) =~= raw);
}

/// The digits of a stored key give the key back.
pub proof fn spelled_key_is_read(
    spelled: &str,
    raw: Seq<u8>,
    r: Result<CikKey, KeyError>,
)
    requires
        raw.len() == 48,
        vstd::utf8::encode_utf8(spelled@) == key_laws::hex_encoded(raw),
        call_ensures(CikKey::from_hex_string, (spelled,), r),
    ensures
        r is Ok,
        is_stored_in(r->Ok_0, raw),
{
    key_laws::hex_round_trip(raw);
    lemma_stored(r->Ok_0, raw);
    assert(raw.take(48) =~= raw);
}

/// Whether a known key is at hand and has the GUID `id`, by the text of its GUID.
pub open spec fn is_for(known: KnownKey, id: [u8; 16]) -> bool {
    known.bytes is Some && guid::guid_read(vstd::utf8::encode_utf8(known.guid@)) == Some(id@)
}

/// Of the GUIDs that a package names the first counts for which a known key is at hand, and of
/// these keys the first; it is the one that is looked for in its own bytes.
pub proof fn first_named_key_at_hand_is_chosen(
    ids: Vec<[u8; 16]>,
    known: Vec<KnownKey>,
    fallback: usize,
    bytes: &[u8],
    i: int,
    k: int,
    r: Result<CikKey, KeyError>,
    q: Result<CikKey, KeyError>,
)
    requires
        0 <= i < ids@.len(),
        0 <= k < known@.len(),
        is_for(known@[k], ids@[i]),
        forall|j: int| 0 <= j < k ==> !is_for(#[trigger] known@[j], ids@[i]),
        forall|h: int, j: int|
            0 <= h < i && 0 <= j < known@.len() ==> !is_for(
                #[trigger] known@[j],
                #[trigger] ids@[h],
            ),
        bytes@ == known@[k].bytes->0@,
        call_ensures(select_key, (&ids, &known, fallback), r),
        call_ensures(CikKey::find_and_create, (bytes, known@[k].guid), q),
    ensures
        r is Ok <==> q is Ok,
        r is Ok ==> r->Ok_0.guid@ == q->Ok_0.guid@ && r->Ok_0.t_key@ == q->Ok_0.t_key@
            && r->Ok_0.d_key@ == q->Ok_0.d_key@,
{
    lemma_chosen(ids@, known@, 0, i, k);
}

/// Where no known key at hand has a GUID that the package names, the one to fall back on is
/// looked for in its own bytes, and it is an error if that is not at hand.
pub proof fn fallback_is_taken_where_no_key_is_named(
    ids: Vec<[u8; 16]>,
    known: Vec<KnownKey>,
    fallback: usize,
    bytes: &[u8],
    r: Result<CikKey, KeyError>,
    q: Result<CikKey, KeyError>,
)
    requires
        fallback < known@.len(),
        forall|h: int, j: int|
            0 <= h < ids@.len() && 0 <= j < known@.len() ==> !is_for(
                #[trigger] known@[j],
                #[trigger] ids@[h],
            ),
        known@[fallback as int].bytes is Some ==> bytes@ == known@[fallback as int].bytes->0@,
        call_ensures(select_key, (&ids, &known, fallback), r),
        call_ensures(CikKey::find_and_create, (bytes, known@[fallback as int].guid), q),
    ensures
        known@[fallback as int].bytes is None ==> r == Err::<CikKey, KeyError>(
            KeyError::NoKeyAvailable,
        ),
        known@[fallback as int].bytes is Some ==> {
            &&& r is Ok <==> q is Ok
            &&& r is Ok ==> r->Ok_0.guid@ == q->Ok_0.guid@ && r->Ok_0.t_key@ == q->Ok_0.t_key@
                && r->Ok_0.d_key@ == q->Ok_0.d_key@
        },
{
    lemma_none_chosen(ids@, known@, 0);
}

proof fn lemma_known(known: Seq<KnownKey>, id: [u8; 16], from: int, k: int)
    requires
        0 <= from <= k <= known.len(),
        forall|j: int| from <= j < k ==> !is_for(#[trigger] known[j], id),
        k < known.len() ==> is_for(known[k], id),
    ensures
        selection::known_for(known, id@, from) == (if k < known.len() {
            Some(k)
        } else {
            None
        }),
    decreases k - from,
{
    if from < k {
        assert(!is_for(known[from], id));
        lemma_known(known, id, from + 1, k);
    }
}

proof fn lemma_chosen(ids: Seq<[u8; 16]>, known: Seq<KnownKey>, from: int, i: int, k: int)
    requires
        0 <= from <= i < ids.len(),
        0 <= k < known.len(),
        is_for(known[k], ids[i]),
        forall|j: int| 0 <= j < k ==> !is_for(#[trigger] known[j], ids[i]),
        forall|h: int, j: int|
            from <= h < i && 0 <= j < known.len() ==> !is_for(
                #[trigger] known[j],
                #[trigger] ids[h],
            ),
    ensures
        selection::chosen_key(known, ids, from) == Some(k),
    decreases i - from,
{
    if from < i {
        lemma_known(known, ids[from], 0, known.len() as int);
        lemma_chosen(ids, known, from + 1, i, k);
    } else {
        lemma_known(known, ids[i], 0, k);
    }
}

proof fn lemma_none_chosen(ids: Seq<[u8; 16]>, known: Seq<KnownKey>, from: int)
    requires
        0 <= from <= ids.len(),
        forall|h: int, j: int|
            from <= h < ids.len() && 0 <= j < known.len() ==> !is_for(
                #[trigger] known[j],
                #[trigger] ids[h],
            ),
    ensures
        selection::chosen_key(known, ids, from) is None,
    decreases ids.len() - from,
{
    if from < ids.len() {
        lemma_known(known, ids[from], 0, known.len() as int);
        lemma_none_chosen(ids, known, from + 1);
    }
}

/// The number that bytes stand for, the first counting most.
pub open spec fn be_value(s: Seq<u8>) -> int
    decreases s.len(),
{
    if s.len() == 0 {
        0
    } else {
        256 * be_value(s.drop_last()) + s.last()
    }
}

proof fn lemma_be_value(s: Seq<u8>, n: int, i: int)
    requires
        0 < i <= s.len(),
        be_value(s.take(i - 1)) == n,
    ensures
        be_value(s.take(i)) == 256 * n + s[i - 1],
{
    assert(s.take(i).drop_last() =~= s.take(i - 1));
}

spec fn folded(s: Seq<u8>, i: int, n: int) -> int
    decreases s.len() - i,
{
    if i >= s.len() {
        n
    } else {
        folded(s, i + 1, 256 * n + s[i])
    }
}

proof fn lemma_folded(s: Seq<u8>, i: int, n: int)
    requires
        0 <= i <= s.len(),
        be_value(s.take(i)) == n,
    ensures
        folded(s, i, n) == be_value(s),
    decreases s.len() - i,
{
    if i < s.len() {
        lemma_be_value(s, n, i + 1);
        lemma_folded(s, i + 1, 256 * n + s[i]);
    } else {
        assert(s.take(i) =~= s);
    }
}

/// The key for released packages: its GUID as it is stored, and its two halves.
pub proof fn release_key(r: Option<Vec<u8>>)
    requires
        call_ensures(get_release_key_bytes, (), r),
    ensures
        r is Some,
        r->0@.len() == 48,
        be_value(r->0@.subrange(0, 16)) == 0x91e7b9bd7cc93437e1a8bc602552df06int,
        be_value(r->0@.subrange(16, 32)) == 0xc9a969fbfcbbf5f46d71250af226cf6aint,
        be_value(r->0@.subrange(32, 48)) == 0xc7d15c25f9546344549391d16857391fint,
{
    reveal(selection::release_cik);
    let s = r->0@;
    let (a, b, c) = (s.subrange(0, 16), s.subrange(16, 32), s.subrange(32, 48));
    assert(be_value(a.take(0)) == 0);
    assert(be_value(b.take(0)) == 0);
    assert(be_value(c.take(0)) == 0);
    lemma_folded(a, 0, 0);
    lemma_folded(b, 0, 0);
    lemma_folded(c, 0, 0);
    reveal_with_fuel(folded, 17);
}

/// The key for preview packages: its GUID as it is stored, and its two halves.
pub proof fn preview_key(r: Option<Vec<u8>>)
    requires
        call_ensures(get_pre_release_key_bytes, (), r),
    ensures
        r is Some,
        r->0@.len() == 48,
        be_value(r->0@.subrange(0, 16)) == 0x3fd6491ff58b8d1fed7edbd89477dad9int,
        be_value(r->0@.subrange(16, 32)) == 0x802814007571f6a353c710ba972ef113int,
        be_value(r->0@.subrange(32, 48)) == 0xc6f250c54b315af61a33cca5de85b08aint,
{
    reveal(selection::preview_cik);
    let s = r->0@;
    let (a, b, c) = (s.subrange(0, 16), s.subrange(16, 32), s.subrange(32, 48));
    assert(be_value(a.take(0)) == 0);
    assert(be_value(b.take(0)) == 0);
    assert(be_value(c.take(0)) == 0);
    lemma_folded(a, 0, 0);
    lemma_folded(b, 0, 0);
    lemma_folded(c, 0, 0);
    reveal_with_fuel(folded, 17);
}

/// The key of a package is that for released packages or that for previews. The first GUID it
/// names that is one of theirs decides; without one, it is that for previews exactly if the
/// second number of the version is zero.
pub proof fn package_is_opened_with_the_key_it_names(
    package: MsiXVDStream,
    release: Option<Vec<u8>>,
    preview: Option<Vec<u8>>,
    known: CikKey,
    other: CikKey,
    r: Result<CikKey, KeyError>,
    i: int,
)
    requires
        call_ensures(get_release_key_bytes, (), release),
        call_ensures(get_pre_release_key_bytes, (), preview),
        is_stored_in(known, release->0@),
        is_stored_in(other, preview->0@),
        call_ensures(MsiXVDStream::select_cik, (&package,), r),
        0 <= i <= package.encryption_key_ids@.len(),
        forall|k: int|
            0 <= k < i ==> (#[trigger] package.encryption_key_ids@[k])@ != known.guid@
                && package.encryption_key_ids@[k]@ != other.guid@,
    ensures
        r is Ok,
        ({
            let n = package.encryption_key_ids@.len();
            let id = package.encryption_key_ids@[i]@;
            let is_release = r->Ok_0.guid@ == known.guid@ && r->Ok_0.t_key@ == known.t_key@
                && r->Ok_0.d_key@ == known.d_key@;
            let is_preview = r->Ok_0.guid@ == other.guid@ && r->Ok_0.t_key@ == other.t_key@
                && r->Ok_0.d_key@ == other.d_key@;
            &&& i < n && id == known.guid@ ==> is_release
            &&& i < n && id == other.guid@ && id != known.guid@ ==> is_preview
            &&& i == n && package.header.package_version2 == 0 ==> is_preview
            &&& i == n && package.header.package_version2 != 0 ==> is_release
        }),
{
    let ids = package.encryption_key_ids@;
    let raw = release->0@;
    let pre = preview->0@;
    assert(known.guid@ =~= key::stored_guid(raw));
    assert(other.guid@ =~= key::stored_guid(pre));
    assert forall|k: int| 0 <= k < i implies !selection::is_known_guid((#[trigger] ids[k])@) by {}
    if i < ids.len() && selection::is_known_guid(ids[i]@) {
        selection::first_known_guid_decides(package, i);
        selection::lemma_unknown_guids_are_passed(
            ids,
            package.header.package_version2 as int,
            0,
            i,
        );
        lemma_takes(ids, package.header.package_version2 as int, i);
    } else if i == ids.len() {
        selection::version_decides_without_a_known_guid(package);
    }
}

proof fn lemma_takes(ids: Seq<[u8; 16]>, version2: int, i: int)
    requires
        0 <= i < ids.len(),
        selection::is_known_guid(ids[i]@),
    ensures
        selection::takes_release_key(ids, version2, i) == (ids[i]@ == key::stored_guid(
            selection::release_cik(),
        )),
{
}

} // verus!
