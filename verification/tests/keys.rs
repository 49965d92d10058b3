use bedrock_repacker::hexadecimal::HexError;
use bedrock_repacker::key::{CikKey, KeyError};
use bedrock_repacker::selection::{get_pre_release_key_bytes, get_release_key_bytes, select_key, KnownKey};

const GUID: &str = "03020100-0504-0706-0809-0a0b0c0d0e0f";

fn stored() -> Vec<u8> {
    (0..48).collect()
}

fn written_guid() -> [u8; 16] {
    [3, 2, 1, 0, 5, 4, 7, 6, 8, 9, 10, 11, 12, 13, 14, 15]
}

fn check(key: CikKey) {
    assert_eq!(key.guid, written_guid());
    assert_eq!(key.t_key.to_vec(), (16..32).collect::<Vec<u8>>());
    assert_eq!(key.d_key.to_vec(), (32..48).collect::<Vec<u8>>());
}

fn spelled(bytes: &[u8]) -> String {
    bytes.iter().map(|b| format!("{:02x}", b)).collect()
}

#[test]
fn stored_key_is_read_in_three_parts() {
    assert_eq!(CikKey::MAX_SIZE, 0x30);
    check(CikKey::new(&stored()).unwrap());
    let mut longer = stored();
    longer.push(99);
    check(CikKey::new(&longer).unwrap());
}

#[test]
fn short_key_is_refused() {
    let error = CikKey::new(&stored()[..47]).unwrap_err();
    assert_eq!(error, KeyError::TooShort { len: 47 });
    assert_eq!(error.message(), "CIK 密钥长度不足: 47");
}

#[test]
fn key_at_the_front_is_found() {
    let mut data = stored();
    data.extend_from_slice(&[1, 2, 3]);
    check(CikKey::find_and_create(&data, GUID).unwrap());
    check(CikKey::find(&data, &written_guid()).unwrap());
}

#[test]
fn guid_is_read_in_every_form() {
    let plain = GUID.replace('-', "");
    let forms =
        vec![plain.clone(), plain.to_uppercase(), format!("{{{}}}", GUID), format!("urn:uuid:{}", GUID)];
    for form in forms {
        check(CikKey::find_and_create(&stored(), &form).unwrap());
    }
}

#[test]
fn key_behind_other_bytes_is_found() {
    let mut data = vec![0xff; 7];
    data.extend(stored());
    data.push(0);
    check(CikKey::find_and_create(&data, GUID).unwrap());
}

#[test]
fn spelled_key_is_found_whatever_stands_between_the_digits() {
    let digits = spelled(&stored());
    let text = format!(" x: {}\n{} .", &digits[..33], &digits[33..]);
    check(CikKey::find_and_create(text.as_bytes(), GUID).unwrap());
}

#[test]
fn truncated_key_is_not_found() {
    let mut data = vec![0xff; 7];
    data.extend_from_slice(&stored()[..40]);
    let error = CikKey::find_and_create(&data, GUID).unwrap_err();
    assert_eq!(error, KeyError::NotFound);
    assert_eq!(error.message(), "无法找到匹配的 CIK 密钥");
}

#[test]
fn data_damaged_by_text_is_told_apart() {
    let data = [0x41, 0xef, 0xbf, 0xbd, 0x42];
    let error = CikKey::find_and_create(&data, GUID).unwrap_err();
    assert_eq!(error, KeyError::DamagedByText);
    assert_eq!(
        error.message(),
        "CIK 密钥内容包含 UTF-8 替换字节，可能被按文本保存导致二进制损坏"
    );
}

#[test]
fn text_that_is_no_guid_is_refused() {
    let error = CikKey::find_and_create(&stored(), "no guid").unwrap_err();
    assert!(matches!(error, KeyError::InvalidGuid { .. }));
    let message = error.message();
    assert!(message.starts_with("无效 GUID: "));
    let sentence = uuid::Uuid::parse_str("no guid").unwrap_err().to_string();
    assert_eq!(message, format!("无效 GUID: {}", sentence));
}

#[test]
fn hexadecimal_key_is_read() {
    check(CikKey::from_hex_string(&spelled(&stored())).unwrap());
    check(CikKey::from_hex_string(&spelled(&stored()).to_uppercase()).unwrap());
}

#[test]
fn bad_hexadecimal_is_refused() {
    let odd = CikKey::from_hex_string("abc").unwrap_err();
    assert_eq!(odd, KeyError::InvalidHex { error: HexError::OddLength });
    assert_eq!(odd.message(), "Odd number of digits");
    let wrong = CikKey::from_hex_string("ab0g").unwrap_err();
    assert_eq!(
        wrong,
        KeyError::InvalidHex { error: HexError::InvalidCharacter { c: 'g', index: 3 } }
    );
    assert_eq!(wrong.message(), "Invalid character 'g' at position 3");
    let length = KeyError::InvalidHex { error: HexError::InvalidStringLength };
    assert_eq!(length.message(), "Invalid string length");
    assert_eq!(CikKey::from_hex_string("abcd").unwrap_err(), KeyError::TooShort { len: 2 });
}

#[test]
fn built_in_keys_carry_their_guids() {
    let release = get_release_key_bytes().unwrap();
    let preview = get_pre_release_key_bytes().unwrap();
    assert_eq!(release.len(), 48);
    assert_eq!(preview.len(), 48);
    let guid = "bdb9e791-c97c-3734-e1a8-bc602552df06";
    assert_eq!(CikKey::find_and_create(&release, guid).unwrap(), CikKey::new(&release).unwrap());
    let guid = "1f49d63f-8bf5-1f8d-ed7e-dbd89477dad9";
    assert_eq!(CikKey::find_and_create(&preview, guid).unwrap(), CikKey::new(&preview).unwrap());
    assert_eq!(release[47], 0x1f);
    assert_eq!(preview[47], 0x8a);
}

fn known() -> Vec<KnownKey> {
    vec![
        KnownKey { bytes: None, guid: GUID },
        KnownKey { bytes: Some(vec![9; 48]), guid: "09090909-0909-0909-0909-090909090909" },
        KnownKey { bytes: Some(stored()), guid: GUID },
    ]
}

#[test]
fn first_key_at_hand_with_a_named_guid_is_chosen() {
    let ids = vec![[5; 16], written_guid(), [9; 16]];
    check(select_key(&ids, &known(), 1).unwrap());
    let ids = vec![[9; 16], written_guid()];
    assert_eq!(select_key(&ids, &known(), 2).unwrap().guid, [9; 16]);
}

#[test]
fn fallback_serves_where_no_guid_is_known() {
    check(select_key(&vec![[5; 16]], &known(), 2).unwrap());
    let error = select_key(&vec![], &known(), 0).unwrap_err();
    assert_eq!(error, KeyError::NoKeyAvailable);
    assert_eq!(error.message(), "No available CIK key found");
}

#[test]
fn chosen_key_that_is_not_in_its_data_is_an_error() {
    let known = vec![KnownKey { bytes: Some(vec![1; 48]), guid: GUID }];
    assert_eq!(select_key(&vec![], &known, 0).unwrap_err(), KeyError::NotFound);
    assert_eq!(select_key(&vec![written_guid()], &known, 0).unwrap_err(), KeyError::NotFound);
}
