//! The AES-128 block cipher, one block at a time, under a key given by its bytes.

use vstd::prelude::*;
use aes::cipher::{BlockDecrypt, BlockEncrypt, KeyInit};
use aes::Aes128;

verus! {

/// What AES-128 makes of a block of 16 bytes under a key of 16 bytes.
pub uninterp spec fn aes128_encrypted(key: Seq<u8>, block: Seq<u8>) -> [u8; 16];

/// What AES-128 decryption makes of a block of 16 bytes under a key of 16 bytes.
pub uninterp spec fn aes128_decrypted(key: Seq<u8>, block: Seq<u8>) -> [u8; 16];

/// Encrypts `block` in place with `aes::Aes128::encrypt_block`, the cipher being made from
/// `key` by `Aes128::new`.
///
/// Believed of the crate: the new block depends on the key and on the old block alone, and
/// decryption under the same key leads back to the old block.
#[verifier::external_body]
pub(crate) fn aes128_encrypt(key: &[u8; 16], block: &mut [u8; 16])
    ensures
        *final(block) == aes128_encrypted(key@, old(block)@),
        aes128_decrypted(key@, final(block)@) == *old(block),
{
    Aes128::new(key.into()).encrypt_block(block.into());
}

/// Decrypts `block` in place with `aes::Aes128::decrypt_block`, the cipher being made from
/// `key` by `Aes128::new`.
///
/// Believed of the crate: the new block depends on the key and on the old block alone,
/// encryption under the same key leads back to the old block, and it takes no other block of 16
/// bytes there.
#[verifier::external_body]
pub(crate) fn aes128_decrypt(key: &[u8; 16], block: &mut [u8; 16])
    ensures
        *final(block) == aes128_decrypted(key@, old(block)@),
        aes128_encrypted(key@, final(block)@) == *old(block),
        forall|b: Seq<u8>|
            b.len() == 16 && (#[trigger] aes128_encrypted(key@, b))@ == old(block)@ ==> b
                == final(block)@,
{
    Aes128::new(key.into()).decrypt_block(block.into());
}

} // verus!
