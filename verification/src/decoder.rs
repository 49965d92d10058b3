//! AES-XTS decryption with ciphertext stealing.

use vstd::prelude::*;
use crate::cipher;
use crate::key::{block_at, CikKey, KeyError, KeySignal};
use crate::xts_laws;

verus! {

/// One direction of a block cipher under a fixed key.
pub type BlockMap = spec_fn(Seq<u8>) -> Seq<u8>;

/// Two blocks of 16 bytes added without carry.
pub open spec fn xor16(a: Seq<u8>, b: Seq<u8>) -> Seq<u8> {
    Seq::new(16, |i: int| a[i] ^ b[i])
}

/// Adds `tweak` to `block` without carry, byte by byte.
pub fn xor_block(block: &mut [u8; 16], tweak: &[u8; 16])
    ensures
        final(block)@ == xor16(old(block)@, tweak@),
{
    let mut i: usize = 0;
    while i < 16
        invariant
            i <= 16,
            forall|k: int| 0 <= k < i ==> block@[k] == old(block)@[k] ^ tweak@[k],
            forall|k: int| i <= k < 16 ==> block@[k] == old(block)@[k],
        decreases 16 - i,
    {
        block[i] = block[i] ^ tweak[i];
        i = i + 1;
    }
    assert(block@ =~= xor16(old(block)@, tweak@));
}

/// A tweak times x in GF(2^128), its bytes least significant first: every byte moves up by one
/// bit, the top bit of a byte enters the next, and the top bit of the last byte comes back as
/// 0x87 in the first.
pub open spec fn gf128_double(t: Seq<u8>) -> Seq<u8> {
    Seq::new(
        16,
        |i: int|
            if i == 0 {
                (t[0] << 1) ^ (if t[15] >= 0x80 { 0x87u8 } else { 0u8 })
            } else {
                (t[i] << 1) | (t[i - 1] >> 7)
            },
    )
}

/// The tweak of the `j`th block, `first` being that of block 0.
pub open spec fn tweak_at(first: Seq<u8>, j: nat) -> Seq<u8>
    decreases j,
{
    if j == 0 {
        first
    } else {
        gf128_double(tweak_at(first, (j - 1) as nat))
    }
}

/// The `j`th block of 16 bytes.
pub open spec fn block_of(s: Seq<u8>, j: int) -> Seq<u8> {
    s.subrange(16 * j, 16 * j + 16)
}

/// A block taken through the cipher between two additions of its tweak.
pub open spec fn xts_block(f: BlockMap, block: Seq<u8>, tweak: Seq<u8>) -> Seq<u8> {
    xor16(f(xor16(block, tweak)), tweak)
}

/// The last two blocks of a text whose last block is short: `whole` is the complete block and
/// `part` the short one, `first` and `second` are the tweaks in the order of use. The bytes
/// that `part` lacks are stolen from what `whole` turns into.
pub open spec fn xts_steal(
    f: BlockMap,
    whole: Seq<u8>,
    part: Seq<u8>,
    first: Seq<u8>,
    second: Seq<u8>,
) -> Seq<u8> {
    let turned = xts_block(f, whole, first);
    let filled = part + turned.skip(part.len() as int);
    xts_block(f, filled, second) + turned.take(part.len() as int)
}

/// The first `n` blocks of `text`, each taken through the cipher under its own tweak.
pub open spec fn xts_blocks(f: BlockMap, first: Seq<u8>, text: Seq<u8>, n: nat) -> Seq<u8>
    decreases n,
{
    if n == 0 {
        seq![]
    } else {
        xts_blocks(f, first, text, (n - 1) as nat) + xts_block(
            f,
            block_of(text, n - 1),
            tweak_at(first, (n - 1) as nat),
        )
    }
}

/// How many blocks of a text of `len` bytes are taken by themselves; where the last block is
/// short, the two last go together.
pub open spec fn plain_blocks(len: nat) -> nat {
    if len % 16 == 0 {
        len / 16
    } else {
        (len / 16 - 1) as nat
    }
}

/// XTS decryption of a text of at least one block; `f` is the deciphering direction.
pub open spec fn xts_decrypted(f: BlockMap, first: Seq<u8>, text: Seq<u8>) -> Seq<u8> {
    let n = plain_blocks(text.len());
    let head = xts_blocks(f, first, text, n);
    if text.len() % 16 == 0 {
        head
    } else {
        head + xts_steal(
            f,
            block_of(text, n as int),
            text.skip((16 * n + 16) as int),
            tweak_at(first, n + 1),
            tweak_at(first, n),
        )
    }
}

/// XTS encryption of a text of at least one block; `f` is the enciphering direction.
pub open spec fn xts_encrypted(f: BlockMap, first: Seq<u8>, text: Seq<u8>) -> Seq<u8> {
    let n = plain_blocks(text.len());
    let head = xts_blocks(f, first, text, n);
    if text.len() % 16 == 0 {
        head
    } else {
        head + xts_steal(
            f,
            block_of(text, n as int),
            text.skip((16 * n + 16) as int),
            tweak_at(first, n),
            tweak_at(first, n + 1),
        )
    }
}

/// Blocks taken one by one make a text of 16 bytes for each.
pub proof fn lemma_xts_blocks_len(f: BlockMap, first: Seq<u8>, text: Seq<u8>, n: nat)
    ensures
        xts_blocks(f, first, text, n).len() == 16 * n,
    decreases n,
{
    if n > 0 {
        lemma_xts_blocks_len(f, first, text, (n - 1) as nat);
    }
}

/// Decrypts the sectors of a package.
#[derive(Clone, Copy)]
pub struct MsiXVDDecoder {
    d: KeySignal,
    t: KeySignal,
}

impl MsiXVDDecoder {
    /// The key that deciphers the data.
    pub closed spec fn data_key(&self) -> Seq<u8> {
        self.d@
    }

    /// The key that enciphers the tweak.
    pub closed spec fn tweak_key(&self) -> Seq<u8> {
        self.t@
    }

    /// The deciphering direction of the cipher.
    pub open spec fn decipher(&self) -> BlockMap {
        |b: Seq<u8>| cipher::aes128_decrypted(self.data_key(), b)@
    }

    /// The enciphering direction of the cipher.
    pub open spec fn encipher(&self) -> BlockMap {
        |b: Seq<u8>| cipher::aes128_encrypted(self.data_key(), b)@
    }

    /// The tweak of the first block, `iv` being what it starts from.
    pub open spec fn first_tweak(&self, iv: Seq<u8>) -> Seq<u8> {
        cipher::aes128_encrypted(self.tweak_key(), iv.take(16))@
    }

    /// What [`MsiXVDDecoder::decrypt`] makes of `text`, of at least one block, under the tweak
    /// that starts from `iv`.
    pub open spec fn decrypted(&self, text: Seq<u8>, iv: Seq<u8>) -> Seq<u8> {
        xts_decrypted(self.decipher(), self.first_tweak(iv), text)
    }

    /// What AES-XTS under the same keys makes of `text`, of at least one block, under the tweak
    /// that starts from `iv`.
    pub open spec fn encrypted(&self, text: Seq<u8>, iv: Seq<u8>) -> Seq<u8> {
        xts_encrypted(self.encipher(), self.first_tweak(iv), text)
    }

    /// Whether `stored` and what it decrypts to belong together: that is what encrypts to
    /// `stored`, and nothing else of the same length does.
    pub open spec fn recovers(&self, stored: Seq<u8>, iv: Seq<u8>) -> bool {
        &&& self.encrypted(self.decrypted(stored, iv), iv) == stored
        &&& forall|text: Seq<u8>|
            text.len() == stored.len() && #[trigger] self.encrypted(text, iv) == stored ==> text
                == self.decrypted(stored, iv)
    }

    /// The decoder for a content key.
    pub fn new(key: &CikKey) -> (r: Result<MsiXVDDecoder, KeyError>)
        ensures
            r matches Ok(decoder) && decoder.data_key() == key.d_key@ && decoder.tweak_key()
                == key.t_key@,
    {
        let d = KeySignal::new(&key.d_key)?;
        let t = KeySignal::new(&key.t_key)?;
        Ok(MsiXVDDecoder { d, t })
    }

    /// Multiplies `tweak` by x in GF(2^128).
    pub fn gf128_mul(tweak: &mut [u8; 16])
        ensures
            final(tweak)@ == gf128_double(old(tweak)@),
    {
        let mut carry: u8 = 0;
        let mut i: usize = 0;
        let high: bool = tweak[15] >= 0x80;
        while i < 16
            invariant
                i <= 16,
                carry == (if i == 0 { 0u8 } else { old(tweak)@[i - 1] >> 7 }),
                i > 0 ==> tweak@[0] == old(tweak)@[0] << 1,
                forall|k: int| 1 <= k < i ==> tweak@[k] == (old(tweak)@[k] << 1) | (old(tweak)@[k - 1] >> 7),
                forall|k: int| i <= k < 16 ==> tweak@[k] == old(tweak)@[k],
            decreases 16 - i,
        {
            let byte: u8 = tweak[i];
            proof {
                let b = (byte << 1) as u8;
                assert(b | 0 == b) by (bit_vector);
            }
            tweak[i] = (byte << 1) | carry;
            carry = byte >> 7;
            i = i + 1;
        }
        proof {
            let b = tweak@[0];
            assert(b ^ 0 == b) by (bit_vector);
        }
        if high {
            tweak[0] = tweak[0] ^ 0x87;
        }
        assert(tweak@ =~= gf128_double(old(tweak)@));
    }

    /// One block of `input`, from `at` on, deciphered under `tweak`.
    fn decrypt_block(&self, input: &[u8], at: usize, tweak: &[u8; 16]) -> (r: [u8; 16])
        requires
            at + 16 <= input@.len(),
        ensures
            r@ == xts_block(self.decipher(), input@.subrange(at as int, at + 16), tweak@),
            xts_laws::comes_back(
                self.encipher(),
                self.decipher(),
                input@.subrange(at as int, at + 16),
                tweak@,
            ),
            xts_laws::sole_source(
                self.encipher(),
                self.decipher(),
                input@.subrange(at as int, at + 16),
                tweak@,
            ),
    {
        let mut block: [u8; 16] = block_at(input, at);
        let ghost whole = block@;
        xor_block(&mut block, tweak);
        self.d.decrypt_block(&mut block);
        proof {
            xts_laws::lemma_block_comes_back(self.encipher(), self.decipher(), whole, tweak@);
            assert forall|b: Seq<u8>| b.len() == 16 implies (#[trigger] (self.encipher())(b)).len()
                == 16 && ((self.encipher())(b) == xor16(whole, tweak@) ==> b == (self.decipher())(
                xor16(whole, tweak@),
            )) by {
                assert(cipher::aes128_encrypted(self.data_key(), b)@.len() == 16);
            }
            xts_laws::lemma_sole_source(self.encipher(), self.decipher(), whole, tweak@);
        }
        xor_block(&mut block, tweak);
        block
    }

    /// Decrypts the block of `input` at `offset` together with the `leftover` bytes behind it,
    /// `tweak` being that of the block.
    fn decrypt_tail(
        &self,
        input: &[u8],
        output: &mut [u8],
        offset: usize,
        leftover: usize,
        tweak: &[u8; 16],
    )
        requires
            0 < leftover < 16,
            offset + 16 + leftover <= input.len(),
            offset + 16 + leftover <= old(output).len(),
        ensures
            final(output)@ == old(output)@.take(offset as int) + xts_steal(
                self.decipher(),
                input@.subrange(offset as int, offset + 16),
                input@.subrange(offset + 16, offset + 16 + leftover),
                gf128_double(tweak@),
                tweak@,
            ) + old(output)@.skip(offset + 16 + leftover),
            xts_laws::tail_comes_back(
                self.encipher(),
                self.decipher(),
                input@.subrange(offset as int, offset + 16),
                input@.subrange(offset + 16, offset + 16 + leftover),
                gf128_double(tweak@),
                tweak@,
            ),
            xts_laws::tail_has_sole_source(
                self.encipher(),
                self.decipher(),
                input@.subrange(offset as int, offset + 16),
                input@.subrange(offset + 16, offset + 16 + leftover),
                gf128_double(tweak@),
                tweak@,
            ),
    {
        let mut final_tweak: [u8; 16] = *tweak;
        MsiXVDDecoder::gf128_mul(&mut final_tweak);
        let turned: [u8; 16] = self.decrypt_block(input, offset, &final_tweak);
        let mut filled: [u8; 16] = turned;
        let mut k: usize = 0;
        while k < leftover
            invariant
                k <= leftover,
                leftover < 16,
                offset + 16 + leftover <= input.len(),
                forall|i: int| 0 <= i < k ==> filled@[i] == input@[offset + 16 + i],
                forall|i: int| k <= i < 16 ==> filled@[i] == turned@[i],
            decreases leftover - k,
        {
            filled[k] = input[offset + 16 + k];
            k = k + 1;
        }
        let ghost part = input@.subrange(offset + 16, offset + 16 + leftover);
        assert(filled@ =~= part + turned@.skip(leftover as int));
        let block: [u8; 16] = self.decrypt_block(&filled, 0, tweak);
        assert(filled@.subrange(0, 16) =~= filled@);
        let ghost before = output@;
        store(output, offset, &block);
        store(output, offset + 16, &turned[0..leftover]);
        assert(output@ =~= before.take(offset as int) + (block@ + turned@.take(leftover as int))
            + before.skip(offset + 16 + leftover));
    }

    /// Decrypts as much of `input` as `output` has room for and tells how many bytes that is;
    /// what comes out is the one text of that length that encrypts to the input.
    ///
    /// Nothing is written, and 0 comes back, where less than a block could be decrypted or
    /// where `tweak_iv` is shorter than a block.
    pub fn decrypt(&self, input: &[u8], output: &mut [u8], tweak_iv: &[u8]) -> (n: usize)
        ensures
            ({
                let len = if input@.len() <= old(output)@.len() {
                    input@.len() as int
                } else {
                    old(output)@.len() as int
                };
                if tweak_iv@.len() < 16 || len < 16 {
                    n == 0 && final(output)@ == old(output)@
                } else {
                    let text = input@.take(len);
                    &&& n == len
                    &&& final(output)@ == self.decrypted(text, tweak_iv@) + old(output)@.skip(len)
                    &&& self.recovers(text, tweak_iv@)
                }
            }),
    {
        if tweak_iv.len() < 16 {
            return 0;
        }
        let length: usize = if input.len() <= output.len() {
            input.len()
        } else {
            output.len()
        };
        if length == 0 {
            return 0;
        }
        let mut remaining_blocks: usize = length / 16;
        let leftover: usize = length % 16;
        if leftover != 0 {
            if remaining_blocks == 0 {
                return 0;
            }
            remaining_blocks = remaining_blocks - 1;
        }
        let ghost f = self.decipher();
        let ghost text = input@.take(length as int);
        let ghost before = output@;
        let mut tweak: [u8; 16] = block_at(tweak_iv, 0);
        assert(tweak@ == tweak_iv@.take(16));
        self.t.encrypt_block(&mut tweak);
        let ghost first = tweak@;

        let mut offset: usize = 0;
        let mut j: usize = 0;
        assert(output@ =~= xts_blocks(f, first, text, 0) + before.skip(0));
        while j < remaining_blocks
            invariant
                j <= remaining_blocks,
                offset == 16 * j,
                16 * remaining_blocks <= length,
                length <= input@.len(),
                length <= before.len(),
                f == self.decipher(),
                forall|k: nat|
                    k < j ==> #[trigger] xts_laws::sole_source_at(
                        self.encipher(),
                        f,
                        first,
                        text,
                        k,
                    ),
                forall|k: nat|
                    k < j ==> #[trigger] xts_laws::block_comes_back_at(
                        self.encipher(),
                        f,
                        first,
                        text,
                        k,
                    ),
                text == input@.take(length as int),
                tweak@ == tweak_at(first, j as nat),
                output@ == xts_blocks(f, first, text, j as nat) + before.skip(offset as int),
            decreases remaining_blocks - j,
        {
            let block: [u8; 16] = self.decrypt_block(input, offset, &tweak);
            proof {
                lemma_xts_blocks_len(f, first, text, j as nat);
                assert(input@.subrange(offset as int, offset + 16) =~= block_of(text, j as int));
            }
            let ghost earlier = output@;
            store(output, offset, &block);
            assert(output@ =~= xts_blocks(f, first, text, (j + 1) as nat) + before.skip(
                offset + 16,
            ));
            MsiXVDDecoder::gf128_mul(&mut tweak);
            offset = offset + 16;
            j = j + 1;
        }
        proof {
            lemma_xts_blocks_len(f, first, text, remaining_blocks as nat);
        }

        if leftover != 0 {
            self.decrypt_tail(input, output, offset, leftover, &tweak);
            proof {
                let n = remaining_blocks as int;
                assert(input@.subrange(offset as int, offset + 16) =~= block_of(text, n));
                assert(input@.subrange(offset + 16, offset + 16 + leftover) =~= text.skip(
                    16 * n + 16,
                ));
                assert(before.skip(offset as int).skip(16 + leftover) =~= before.skip(
                    length as int,
                ));
                let head = xts_blocks(f, first, text, n as nat);
                assert((head + before.skip(offset as int)).take(offset as int) =~= head);
                assert((head + before.skip(offset as int)).skip(offset + 16 + leftover)
                    =~= before.skip(length as int));
            }
        }
        proof {
            xts_laws::lemma_decrypted_text_comes_back(f, self.encipher(), first, text);
            assert(xts_laws::text_has_sole_source(self.encipher(), f, first, text));
            assert forall|plain: Seq<u8>|
                plain.len() == text.len() && #[trigger] self.encrypted(plain, tweak_iv@)
                    == text implies plain == self.decrypted(text, tweak_iv@) by {
                xts_laws::lemma_encrypted_text_is_recovered(
                    f,
                    self.encipher(),
                    first,
                    text,
                    plain,
                );
            }
        }
        length
    }
}

/// Writes `data` over the bytes of `output` from `at` on.
pub(crate) fn store(output: &mut [u8], at: usize, data: &[u8])
    requires
        at + data@.len() <= old(output)@.len(),
    ensures
        final(output)@ == old(output)@.take(at as int) + data@ + old(output)@.skip(
            at + data@.len(),
        ),
{
    let mut i: usize = 0;
    while i < data.len()
        invariant
            i <= data@.len(),
            at + data@.len() <= output.len(),
            output@.len() == old(output)@.len(),
            forall|k: int| 0 <= k < i ==> output@[at + k] == data@[k],
            forall|k: int|
                0 <= k < output@.len() && !(at <= k < at + i) ==> output@[k] == old(output)@[k],
        decreases data@.len() - i,
    {
        output[at + i] = data[i];
        i = i + 1;
    }
    assert(output@ =~= old(output)@.take(at as int) + data@ + old(output)@.skip(
        at + data@.len(),
    )) by {
        assert forall|k: int| 0 <= k < output@.len() implies #[trigger] output@[k] == (old(
            output,
        )@.take(at as int) + data@ + old(output)@.skip(at + data@.len()))[k] by {
            if at <= k < at + data@.len() {
                assert(output@[at + (k - at)] == data@[k - at]);
            }
        }
    }
}

} // verus!
