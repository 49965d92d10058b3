//! Content keys: reading them, finding them, and the block cipher under one of their halves.

use vstd::prelude::*;
use crate::cipher;
use crate::guid;
use crate::hexadecimal;
use crate::hexadecimal::HexError;
use crate::text;

verus! {

/// Why there is no key.
#[derive(Debug, PartialEq, Eq)]
pub enum KeyError {
    /// The data is shorter than a content key.
    TooShort { len: usize },
    /// The GUID that was asked for is none; the sentence says why.
    InvalidGuid { sentence: String },
    /// The text does not spell bytes.
    InvalidHex { error: HexError },
    /// The data shows the mark of binary data that was saved as text.
    DamagedByText,
    /// The data holds no key with the GUID that was asked for.
    NotFound,
    /// A key of the block cipher has not 16 bytes.
    CipherKeyLength { len: usize },
    /// There is no key to fall back on.
    NoKeyAvailable,
}

impl KeyError {
    /// The message for the user.
    pub open spec fn sentence(&self) -> Seq<char> {
        match self {
            KeyError::TooShort { len } => "CIK 密钥长度不足: "@ + text::decimal(*len as nat),
            KeyError::InvalidGuid { sentence } => "无效 GUID: "@ + sentence@,
            KeyError::InvalidHex { error } => hexadecimal::hex_sentence(*error),
            KeyError::DamagedByText =>
                "CIK 密钥内容包含 UTF-8 替换字节，可能被按文本保存导致二进制损坏"@,
            KeyError::NotFound => "无法找到匹配的 CIK 密钥"@,
            KeyError::CipherKeyLength { len } => "AES-128 密钥长度无效: "@ + text::decimal(
                *len as nat,
            ),
            KeyError::NoKeyAvailable => "No available CIK key found"@,
        }
    }

    /// The message for the user.
    pub fn message(&self) -> (r: String)
        ensures
            r@ == self.sentence(),
    {
        match self {
            KeyError::TooShort { len } => {
                let mut message: String = "CIK 密钥长度不足: ".to_owned();
                text::append_decimal(&mut message, *len as u64);
                message
            },
            KeyError::InvalidGuid { sentence } => {
                let mut message: String = "无效 GUID: ".to_owned();
                message.append(sentence.as_str());
                message
            },
            KeyError::InvalidHex { error } => hexadecimal::hex_error_text(error),
            KeyError::DamagedByText =>
                "CIK 密钥内容包含 UTF-8 替换字节，可能被按文本保存导致二进制损坏".to_owned(),
            KeyError::NotFound => "无法找到匹配的 CIK 密钥".to_owned(),
            KeyError::CipherKeyLength { len } => {
                let mut message: String = "AES-128 密钥长度无效: ".to_owned();
                text::append_decimal(&mut message, *len as u64);
                message
            },
            KeyError::NoKeyAvailable => "No available CIK key found".to_owned(),
        }
    }
}

/// A content key: the GUID by which packages name it, the key of the tweak and the key of the
/// data.
#[derive(Debug, Clone, Copy, PartialEq, Eq)]
pub struct CikKey {
    pub guid: [u8; 16],
    pub t_key: [u8; 16],
    pub d_key: [u8; 16],
}

/// The GUID in the first 16 bytes of a stored key.
pub open spec fn stored_guid(raw: Seq<u8>) -> Seq<u8> {
    guid::guid_flipped(raw.subrange(0, 16))
}

/// Whether `needle` stands in `data` at `at`.
pub open spec fn occurs_at(data: Seq<u8>, needle: Seq<u8>, at: int) -> bool {
    0 <= at && at + needle.len() <= data.len() && data.subrange(at, at + needle.len()) == needle
}

/// The first place from `from` on where `needle` stands in `data`.
pub open spec fn first_occurrence(data: Seq<u8>, needle: Seq<u8>, from: int) -> Option<int>
    decreases data.len() - from + 1,
{
    if from + needle.len() > data.len() {
        None
    } else if occurs_at(data, needle, from) {
        Some(from)
    } else {
        first_occurrence(data, needle, from + 1)
    }
}

/// The key with the given GUID that `data`, read as text, spells: its first 96 hexadecimal
/// digits, whatever stands between them.
pub open spec fn spelled_key(data: Seq<u8>, wanted: Seq<u8>) -> Option<Seq<u8>> {
    let digits = hexadecimal::hex_digits(vstd::utf8::decode_utf8(data));
    let raw = hexadecimal::hex_decoded(digits.subrange(0, 96));
    if vstd::utf8::valid_utf8(data) && digits.len() >= 96 && stored_guid(raw) == wanted {
        Some(raw)
    } else {
        None
    }
}

/// The stored form of the key with the given GUID in `data`: at the front, or else where the
/// GUID first occurs if the key fits there, or else spelled in hexadecimal.
pub open spec fn located_key(data: Seq<u8>, wanted: Seq<u8>) -> Option<Seq<u8>> {
    if data.len() >= 48 && stored_guid(data) == wanted {
        Some(data.subrange(0, 48))
    } else {
        match first_occurrence(data, guid::guid_flipped(wanted), 0) {
            Some(at) if at + 48 <= data.len() => Some(data.subrange(at, at + 48)),
            _ => spelled_key(data, wanted),
        }
    }
}

/// The three bytes that UTF-8 has for the replacement character.
pub open spec fn replacement_bytes() -> Seq<u8> {
    seq![0xef, 0xbf, 0xbd]
}

/// What looking in `data` for the key with the given GUID comes to.
pub open spec fn search_outcome(
    data: Seq<u8>,
    wanted: Seq<u8>,
    r: Result<CikKey, KeyError>,
) -> bool {
    match located_key(data, wanted) {
        Some(raw) => r is Ok && r->Ok_0.holds(raw),
        None => if first_occurrence(data, replacement_bytes(), 0) is Some {
            r == Err::<CikKey, KeyError>(KeyError::DamagedByText)
        } else {
            r == Err::<CikKey, KeyError>(KeyError::NotFound)
        },
    }
}

/// What looking in `data` for the key whose GUID is written in `wanted` comes to.
pub open spec fn find_outcome(
    data: Seq<u8>,
    wanted: Seq<char>,
    r: Result<CikKey, KeyError>,
) -> bool {
    match guid::guid_read(vstd::utf8::encode_utf8(wanted)) {
        Some(bytes) => search_outcome(data, bytes, r),
        None => r matches Err(KeyError::InvalidGuid { sentence }) && sentence@
            == guid::invalid_guid_text(wanted),
    }
}

impl CikKey {
    /// How many bytes a stored key has.
    pub const MAX_SIZE: usize = 0x30;

    /// Whether this is the key whose stored form is at the front of `raw`.
    pub open spec fn holds(&self, raw: Seq<u8>) -> bool {
        &&& raw.len() >= 48
        &&& self.guid@ == stored_guid(raw)
        &&& self.t_key@ == raw.subrange(16, 32)
        &&& self.d_key@ == raw.subrange(32, 48)
    }

    /// The key at the front of `cik`.
    pub fn new(cik: &[u8]) -> (r: Result<CikKey, KeyError>)
        ensures
            cik@.len() >= 48 ==> r is Ok && r->Ok_0.holds(cik@),
            cik@.len() < 48 ==> r == Err::<CikKey, KeyError>(
                (KeyError::TooShort { len: cik@.len() as usize }),
            ),
    {
        if cik.len() < CikKey::MAX_SIZE {
            return Err(KeyError::TooShort { len: cik.len() });
        }
        let guid: [u8; 16] = guid::guid_from_stored(block_at(cik, 0));
        let t_key: [u8; 16] = block_at(cik, 0x10);
        let d_key: [u8; 16] = block_at(cik, 0x20);
        Ok(CikKey { guid, t_key, d_key })
    }

    /// Looks in `data` for the key whose GUID is written in `expected_guid_str`.
    pub fn find_and_create(data: &[u8], expected_guid_str: &str) -> (r: Result<CikKey, KeyError>)
        ensures
            find_outcome(data@, expected_guid_str@, r),
    {
        match guid::parse_guid(expected_guid_str) {
            Ok(expected) => CikKey::find(data, &expected),
            Err(sentence) => Err(KeyError::InvalidGuid { sentence }),
        }
    }

    /// Looks in `data` for the key with the GUID `expected`.
    pub fn find(data: &[u8], expected: &[u8; 16]) -> (r: Result<CikKey, KeyError>)
        ensures
            search_outcome(data@, expected@, r),
    {
        if let Ok(key) = CikKey::new(data) {
            if same_bytes(&key.guid, expected) {
                assert(key.holds(data@.subrange(0, 48))) by {
                    lemma_front_holds(key, data@);
                }
                return Ok(key);
            }
        }
        let stored: [u8; 16] = guid::guid_to_stored(*expected);
        if let Some(start) = position(data, &stored) {
            if CikKey::MAX_SIZE <= data.len() - start {
                return CikKey::new(&data[start..start + CikKey::MAX_SIZE]);
            }
        }
        if let Some(readable) = text::utf8_text(data) {
            let digits: Vec<u8> = hexadecimal::hex_digits_of(readable);
            if digits.len() >= 96 {
                let spelled: &[u8] = &digits[0..96];
                assert(hexadecimal::all_hex(spelled@)) by {
                    assert forall|i: int| 0 <= i < 96 implies hexadecimal::is_hex_digit(
                        #[trigger] spelled@[i],
                    ) by {
                        assert(hexadecimal::is_hex_digit(digits@[i]));
                    }
                }
                if let Ok(key) = CikKey::from_hex_digits(spelled) {
                    if same_bytes(&key.guid, expected) {
                        return Ok(key);
                    }
                }
            }
        }
        let mark: [u8; 3] = [0xef, 0xbf, 0xbd];
        assert(mark@ =~= replacement_bytes());
        if position(data, &mark).is_some() {
            return Err(KeyError::DamagedByText);
        }
        Err(KeyError::NotFound)
    }

    /// The key that hexadecimal digits, given by their ASCII codes, spell.
    fn from_hex_digits(digits: &[u8]) -> (r: Result<CikKey, KeyError>)
        ensures
            spelled_outcome(digits@, r),
    {
        match hexadecimal::hex_decode(digits) {
            Ok(cik) => CikKey::new(&cik),
            Err(error) => Err(KeyError::InvalidHex { error }),
        }
    }

    /// The key that `hex_string` spells.
    pub fn from_hex_string(hex_string: &str) -> (r: Result<CikKey, KeyError>)
        ensures
            spelled_outcome(vstd::utf8::encode_utf8(hex_string@), r),
    {
        CikKey::from_hex_digits(hex_string.as_bytes())
    }
}

/// What reading `digits` as the hexadecimal form of a stored key comes to.
pub open spec fn spelled_outcome(digits: Seq<u8>, r: Result<CikKey, KeyError>) -> bool {
    if digits.len() % 2 == 0 && hexadecimal::all_hex(digits) {
        if digits.len() >= 96 {
            r is Ok && r->Ok_0.holds(hexadecimal::hex_decoded(digits))
        } else {
            r == Err::<CikKey, KeyError>(KeyError::TooShort { len: (digits.len() / 2) as usize })
        }
    } else {
        r matches Err(KeyError::InvalidHex { error }) && hexadecimal::hex_outcome(
            digits,
            Err::<Vec<u8>, HexError>(error),
        )
    }
}

proof fn lemma_front_holds(key: CikKey, data: Seq<u8>)
    requires
        data.len() >= 48,
        key.holds(data),
    ensures
        key.holds(data.subrange(0, 48)),
{
    let front = data.subrange(0, 48);
    assert(front.subrange(0, 16) =~= data.subrange(0, 16));
    assert(front.subrange(16, 32) =~= data.subrange(16, 32));
    assert(front.subrange(32, 48) =~= data.subrange(32, 48));
}

/// Whether two blocks are the same.
pub(crate) fn same_bytes(a: &[u8; 16], b: &[u8; 16]) -> (r: bool)
    ensures
        r == (a@ == b@),
{
    let mut i: usize = 0;
    while i < 16
        invariant
            i <= 16,
            forall|k: int| 0 <= k < i ==> a@[k] == b@[k],
        decreases 16 - i,
    {
        if a[i] != b[i] {
            assert(a@[i as int] != b@[i as int]);
            return false;
        }
        i = i + 1;
    }
    assert(a@ =~= b@);
    true
}

/// Whether `needle` stands in `data` at `at`.
fn stands_at(data: &[u8], needle: &[u8], at: usize) -> (r: bool)
    requires
        at + needle.len() <= data.len(),
    ensures
        r == occurs_at(data@, needle@, at as int),
{
    let mut i: usize = 0;
    while i < needle.len()
        invariant
            i <= needle.len(),
            at + needle.len() <= data.len(),
            forall|k: int| 0 <= k < i ==> data@[at + k] == needle@[k],
        decreases needle.len() - i,
    {
        if data[at + i] != needle[i] {
            assert(data@.subrange(at as int, at + needle@.len())[i as int] != needle@[i as int]);
            return false;
        }
        i = i + 1;
    }
    assert(data@.subrange(at as int, at + needle@.len()) =~= needle@);
    true
}

/// The first place where `needle` stands in `data`.
pub(crate) fn position(data: &[u8], needle: &[u8]) -> (r: Option<usize>)
    requires
        needle@.len() > 0,
    ensures
        match r {
            Some(at) => first_occurrence(data@, needle@, 0) == Some(at as int) && at
                + needle@.len() <= data@.len(),
            None => first_occurrence(data@, needle@, 0) is None,
        },
{
    let mut at: usize = 0;
    while needle.len() <= data.len() && at <= data.len() - needle.len()
        invariant
            needle@.len() > 0,
            at <= data.len(),
            first_occurrence(data@, needle@, 0) == first_occurrence(data@, needle@, at as int),
        decreases data.len() + 1 - at,
    {
        if stands_at(data, needle, at) {
            return Some(at);
        }
        at = at + 1;
    }
    None
}

/// One half of a content key, ready to encipher and decipher blocks.
#[derive(Debug, Clone, Copy)]
pub struct KeySignal {
    key: [u8; 16],
}

impl View for KeySignal {
    type V = Seq<u8>;

    closed spec fn view(&self) -> Seq<u8> {
        self.key@
    }
}

impl KeySignal {
    /// Takes the 16 bytes of a key.
    pub fn new(key_bytes: &[u8]) -> (r: Result<KeySignal, KeyError>)
        ensures
            key_bytes@.len() == 16 ==> r is Ok && r->Ok_0@ == key_bytes@,
            key_bytes@.len() != 16 ==> r == Err::<KeySignal, KeyError>(
                (KeyError::CipherKeyLength { len: key_bytes@.len() as usize }),
            ),
    {
        if key_bytes.len() != 16 {
            return Err(KeyError::CipherKeyLength { len: key_bytes.len() });
        }
        let key: [u8; 16] = block_at(key_bytes, 0);
        assert(key@ =~= key_bytes@);
        Ok(KeySignal { key })
    }

    /// Deciphers one block in place; [`KeySignal::encrypt_block`] would undo it, and would make
    /// the old block of no other.
    pub fn decrypt_block(&self, block: &mut [u8; 16])
        ensures
            *final(block) == cipher::aes128_decrypted(self@, old(block)@),
            cipher::aes128_encrypted(self@, final(block)@) == *old(block),
            forall|b: Seq<u8>|
                b.len() == 16 && (#[trigger] cipher::aes128_encrypted(self@, b))@ == old(block)@
                    ==> b == final(block)@,
    {
        cipher::aes128_decrypt(&self.key, block);
    }

    /// Enciphers one block in place; [`KeySignal::decrypt_block`] would undo it.
    pub fn encrypt_block(&self, block: &mut [u8; 16])
        ensures
            *final(block) == cipher::aes128_encrypted(self@, old(block)@),
            cipher::aes128_decrypted(self@, final(block)@) == *old(block),
    {
        cipher::aes128_encrypt(&self.key, block);
    }
}

/// The 16 bytes of `data` from `at` on.
pub(crate) fn block_at(data: &[u8], at: usize) -> (r: [u8; 16])
    requires
        at + 16 <= data.len(),
    ensures
        r@ == data@.subrange(at as int, at + 16),
{
    let mut block: [u8; 16] = [0u8; 16];
    let mut i: usize = 0;
    while i < 16
        invariant
            i <= 16,
            at + 16 <= data.len(),
            forall|k: int| 0 <= k < i ==> block@[k] == data@[at + k],
        decreases 16 - i,
    {
        block[i] = data[at + i];
        i = i + 1;
    }
    assert(block@ =~= data@.subrange(at as int, at + 16));
    block
}

} // verus!
