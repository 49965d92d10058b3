use bedrock_repacker::decoder::{xor_block, MsiXVDDecoder};
use bedrock_repacker::key::{CikKey, KeyError, KeySignal};

#[test]
fn gf128_mul_carries_from_low_lane_to_high_lane() {
    let mut tweak = [0u8; 16];
    tweak[7] = 0x80;

    MsiXVDDecoder::gf128_mul(&mut tweak);

    assert_eq!(tweak[7], 0);
    assert_eq!(tweak[8], 1);
}

#[test]
fn gf128_mul_reduces_high_lane_overflow_into_low_byte() {
    let mut tweak = [0u8; 16];
    tweak[15] = 0x80;

    MsiXVDDecoder::gf128_mul(&mut tweak);

    assert_eq!(tweak[0], 0x87);
    assert_eq!(tweak[15], 0);
}

fn decoder_of(d_key: [u8; 16], t_key: [u8; 16]) -> MsiXVDDecoder {
    MsiXVDDecoder::new(&CikKey { guid: [0; 16], t_key, d_key }).unwrap()
}

fn counting(from: u8, n: usize) -> Vec<u8> {
    (0..n).map(|i| from.wrapping_add(i as u8)).collect()
}

#[test]
fn xor_block_adds_bytewise() {
    let mut block = [0x0f; 16];
    let mut tweak = [0xff; 16];
    tweak[3] = 0x0f;
    xor_block(&mut block, &tweak);
    let mut expected = [0xf0; 16];
    expected[3] = 0;
    assert_eq!(block, expected);
}

#[test]
fn aes_block_under_counting_key() {
    let key: Vec<u8> = counting(0, 16);
    let signal = KeySignal::new(&key).unwrap();
    let mut block = [0u8; 16];
    for i in 0..16 {
        block[i] = 0x11 * i as u8;
    }
    let plain = block;
    signal.encrypt_block(&mut block);
    assert_eq!(
        block,
        [
            0x69, 0xc4, 0xe0, 0xd8, 0x6a, 0x7b, 0x04, 0x30, 0xd8, 0xcd, 0xb7, 0x80, 0x70, 0xb4,
            0xc5, 0x5a
        ]
    );
    signal.decrypt_block(&mut block);
    assert_eq!(block, plain);
}

#[test]
fn cipher_key_of_wrong_length_is_refused() {
    let error = KeySignal::new(&[0u8; 15]).unwrap_err();
    assert_eq!(error, KeyError::CipherKeyLength { len: 15 });
    assert_eq!(error.message(), "AES-128 密钥长度无效: 15");
}

#[test]
fn decrypts_two_blocks_under_zero_keys() {
    let decoder = decoder_of([0; 16], [0; 16]);
    let input = [
        0x91, 0x7c, 0xf6, 0x9e, 0xbd, 0x68, 0xb2, 0xec, 0x9b, 0x9f, 0xe9, 0xa3, 0xea, 0xdd, 0xa6,
        0x92, 0xcd, 0x43, 0xd2, 0xf5, 0x95, 0x98, 0xed, 0x85, 0x8c, 0x02, 0xc2, 0x65, 0x2f, 0xbf,
        0x92, 0x2e,
    ];
    let mut output = [0xaau8; 32];
    assert_eq!(decoder.decrypt(&input, &mut output, &[0; 16]), 32);
    assert_eq!(output, [0u8; 32]);
}

#[test]
fn decrypts_two_blocks_from_a_starting_value() {
    let decoder = decoder_of([0x11; 16], [0x22; 16]);
    let input = [
        0xc4, 0x54, 0x18, 0x5e, 0x6a, 0x16, 0x93, 0x6e, 0x39, 0x33, 0x40, 0x38, 0xac, 0xef, 0x83,
        0x8b, 0xfb, 0x18, 0x6f, 0xff, 0x74, 0x80, 0xad, 0xc4, 0x28, 0x93, 0x82, 0xec, 0xd6, 0xd3,
        0x94, 0xf0,
    ];
    let mut iv = [0u8; 16];
    iv[..5].copy_from_slice(&[0x33; 5]);
    let mut output = [0u8; 40];
    assert_eq!(decoder.decrypt(&input, &mut output, &iv), 32);
    assert_eq!(&output[..32], &[0x44u8; 32]);
    assert_eq!(&output[32..], &[0u8; 8]);
}

#[test]
fn decrypts_a_text_that_ends_within_a_block() {
    let mut d_key = [0u8; 16];
    let mut t_key = [0u8; 16];
    for i in 0..16 {
        d_key[i] = 0xff - i as u8;
        t_key[i] = 0xbf - i as u8;
    }
    let decoder = decoder_of(d_key, t_key);
    let mut iv = [0u8; 16];
    iv[..5].copy_from_slice(&[0x9a, 0x78, 0x56, 0x34, 0x12]);
    let input = [
        0x6c, 0x16, 0x25, 0xdb, 0x46, 0x71, 0x52, 0x2d, 0x3d, 0x75, 0x99, 0x60, 0x1d, 0xe7, 0xca,
        0x09, 0xed,
    ];
    let mut output = [0u8; 17];
    assert_eq!(decoder.decrypt(&input, &mut output, &iv), 17);
    assert_eq!(output.to_vec(), counting(0, 17));
}

#[test]
fn nothing_is_decrypted_without_a_block_or_a_starting_value() {
    let decoder = decoder_of([1; 16], [2; 16]);
    let mut output = [7u8; 16];
    assert_eq!(decoder.decrypt(&[0; 15], &mut output, &[0; 16]), 0);
    assert_eq!(decoder.decrypt(&[0; 16], &mut output, &[0; 15]), 0);
    assert_eq!(decoder.decrypt(&[], &mut output, &[0; 16]), 0);
    assert_eq!(decoder.decrypt(&[0; 64], &mut output[..9], &[0; 16]), 0);
    assert_eq!(output, [7u8; 16]);
}

#[test]
fn only_as_much_is_decrypted_as_there_is_room_for() {
    let decoder = decoder_of([1; 16], [2; 16]);
    let input = counting(5, 64);
    let mut long = [0u8; 64];
    let mut short = [0u8; 32];
    assert_eq!(decoder.decrypt(&input, &mut long, &[3; 16]), 64);
    assert_eq!(decoder.decrypt(&input, &mut short, &[3; 16]), 32);
    assert_eq!(long[..32], short);
}
