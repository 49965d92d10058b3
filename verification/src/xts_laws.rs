//! What holds of the XTS mode as a whole, for any block cipher.

use vstd::prelude::*;
use crate::decoder;
use crate::cipher;
use crate::decoder::{BlockMap, MsiXVDDecoder};

verus! {

/// `g` undoes `f` on blocks of 16 bytes, and `f` keeps their length.
pub open spec fn undoes(g: BlockMap, f: BlockMap) -> bool {
    forall|b: Seq<u8>| b.len() == 16 ==> (#[trigger] f(b)).len() == 16 && g(f(b)) == b
}

/// Adding a block twice changes nothing.
pub proof fn lemma_xor_twice(a: Seq<u8>, t: Seq<u8>)
    requires
        a.len() == 16,
    ensures
        decoder::xor16(decoder::xor16(a, t), t) == a,
{
    assert forall|i: int| 0 <= i < 16 implies decoder::xor16(decoder::xor16(a, t), t)[i] == a[i] by {
        let x = a[i];
        let y = t[i];
        assert((x ^ y) ^ y == x) by (bit_vector);
    }
    assert(decoder::xor16(decoder::xor16(a, t), t) =~= a);
}

/// Whether a block that went through `f` comes back when it goes through `g` under the same
/// tweak.
pub open spec fn comes_back(g: BlockMap, f: BlockMap, block: Seq<u8>, tweak: Seq<u8>) -> bool {
    decoder::xts_block(g, decoder::xts_block(f, block, tweak), tweak) == block
}

/// A block comes back where `g` undoes what `f` makes of it with its tweak added.
pub proof fn lemma_block_comes_back(g: BlockMap, f: BlockMap, block: Seq<u8>, tweak: Seq<u8>)
    requires
        block.len() == 16,
        f(decoder::xor16(block, tweak)).len() == 16,
        g(f(decoder::xor16(block, tweak))) == decoder::xor16(block, tweak),
    ensures
        comes_back(g, f, block, tweak),
{
    lemma_xor_twice(f(decoder::xor16(block, tweak)), tweak);
    lemma_xor_twice(block, tweak);
}

/// Taking a block through `g` undoes taking it through `f` under the same tweak.
pub proof fn lemma_block_round_trip(g: BlockMap, f: BlockMap, block: Seq<u8>, tweak: Seq<u8>)
    requires
        undoes(g, f),
        block.len() == 16,
    ensures
        comes_back(g, f, block, tweak),
{
    assert(decoder::xor16(block, tweak).len() == 16);
    lemma_block_comes_back(g, f, block, tweak);
}

/// Whether the `j`th block of a text comes back under its own tweak.
pub open spec fn block_comes_back_at(
    g: BlockMap,
    f: BlockMap,
    first: Seq<u8>,
    text: Seq<u8>,
    j: nat,
) -> bool {
    comes_back(g, f, decoder::block_of(text, j as int), decoder::tweak_at(first, j))
}

/// Whether the two last blocks of a text, of which the last is short, come back.
pub open spec fn tail_comes_back(
    g: BlockMap,
    f: BlockMap,
    whole: Seq<u8>,
    part: Seq<u8>,
    a: Seq<u8>,
    b: Seq<u8>,
) -> bool {
    let once = decoder::xts_block(f, whole, a);
    &&& comes_back(g, f, whole, a)
    &&& comes_back(g, f, part + once.skip(part.len() as int), b)
}

/// The `j`th block of what `xts_blocks` makes is the `j`th block taken by itself.
proof fn lemma_block_of_blocks(f: BlockMap, first: Seq<u8>, text: Seq<u8>, n: nat, j: nat)
    requires
        j < n,
    ensures
        decoder::block_of(decoder::xts_blocks(f, first, text, n), j as int) == decoder::xts_block(
            f,
            decoder::block_of(text, j as int),
            decoder::tweak_at(first, j),
        ),
    decreases n,
{
    let m = (n - 1) as nat;
    decoder::lemma_xts_blocks_len(f, first, text, n);
    decoder::lemma_xts_blocks_len(f, first, text, m);
    let all = decoder::xts_blocks(f, first, text, n);
    let front = decoder::xts_blocks(f, first, text, m);
    if j < m {
        lemma_block_of_blocks(f, first, text, m, j);
        assert(decoder::block_of(all, j as int) =~= decoder::block_of(front, j as int));
    } else {
        assert(decoder::block_of(all, j as int) =~= decoder::xts_block(
            f,
            decoder::block_of(text, m as int),
            decoder::tweak_at(first, m),
        ));
    }
}

/// Blocks that went through `f` come back when they go through `g`.
proof fn lemma_blocks_round_trip(
    g: BlockMap,
    f: BlockMap,
    first: Seq<u8>,
    text: Seq<u8>,
    turned: Seq<u8>,
    total: nat,
    n: nat,
)
    requires
        forall|j: nat|
            j < total ==> #[trigger] block_comes_back_at(g, f, first, text, j),
        n <= total,
        16 * total <= text.len(),
        16 * total <= turned.len(),
        turned.take(16 * total as int) == decoder::xts_blocks(f, first, text, total),
    ensures
        decoder::xts_blocks(g, first, turned, n) == text.take(16 * n as int),
    decreases n,
{
    if n == 0 {
        assert(decoder::xts_blocks(g, first, turned, n) =~= text.take(0));
    } else {
        let m = (n - 1) as nat;
        lemma_blocks_round_trip(g, f, first, text, turned, total, m);
        lemma_block_of_blocks(f, first, text, total, m);
        let before = decoder::block_of(text, m as int);
        assert(decoder::block_of(turned, m as int) =~= decoder::block_of(
            turned.take(16 * total as int),
            m as int,
        ));
        assert(block_comes_back_at(g, f, first, text, m));
        assert(text.take(16 * m as int) + before =~= text.take(16 * n as int));
    }
}

/// Stealing undoes itself when the cipher is undone and the tweaks change places.
proof fn lemma_steal_round_trip(
    g: BlockMap,
    f: BlockMap,
    whole: Seq<u8>,
    part: Seq<u8>,
    a: Seq<u8>,
    b: Seq<u8>,
)
    requires
        tail_comes_back(g, f, whole, part, a, b),
        whole.len() == 16,
        part.len() < 16,
    ensures
        ({
            let turned = decoder::xts_steal(f, whole, part, a, b);
            decoder::xts_steal(g, turned.take(16), turned.skip(16), b, a) == whole + part
        }),
{
    let turned = decoder::xts_steal(f, whole, part, a, b);
    let n = part.len() as int;
    let once = decoder::xts_block(f, whole, a);
    let filled = part + once.skip(n);
    assert(turned.take(16) =~= decoder::xts_block(f, filled, b));
    assert(turned.skip(16) =~= once.take(n));
    assert(once.take(n) + filled.skip(n) =~= once);
    assert(filled.take(n) =~= part);
}

/// Encryption and decryption keep the length of a text of at least one block.
pub proof fn lemma_xts_len(f: BlockMap, first: Seq<u8>, text: Seq<u8>)
    requires
        text.len() >= 16,
    ensures
        decoder::xts_encrypted(f, first, text).len() == text.len(),
        decoder::xts_decrypted(f, first, text).len() == text.len(),
{
    decoder::lemma_xts_blocks_len(f, first, text, decoder::plain_blocks(text.len()));
}

/// Decryption gives back every text of at least one block that was encrypted under the same
/// first tweak, whole blocks or not, provided that the cipher's two directions belong together.
pub proof fn decryption_undoes_encryption(
    decipher: BlockMap,
    encipher: BlockMap,
    first: Seq<u8>,
    text: Seq<u8>,
)
    requires
        undoes(decipher, encipher),
        text.len() >= 16,
    ensures
        decoder::xts_decrypted(decipher, first, decoder::xts_encrypted(encipher, first, text))
            == text,
{
    let n = decoder::plain_blocks(text.len());
    let turned = decoder::xts_encrypted(encipher, first, text);
    lemma_xts_len(encipher, first, text);
    decoder::lemma_xts_blocks_len(encipher, first, text, n);
    assert(turned.take(16 * n as int) =~= decoder::xts_blocks(encipher, first, text, n));
    assert forall|j: nat| j < n implies #[trigger] block_comes_back_at(
        decipher,
        encipher,
        first,
        text,
        j,
    ) by {
        lemma_block_round_trip(
            decipher,
            encipher,
            decoder::block_of(text, j as int),
            decoder::tweak_at(first, j),
        );
    }
    lemma_blocks_round_trip(decipher, encipher, first, text, turned, n, n);
    if text.len() % 16 == 0 {
        assert(text.take(16 * n as int) =~= text);
    } else {
        let whole = decoder::block_of(text, n as int);
        let part = text.skip((16 * n + 16) as int);
        let (a, b) = (decoder::tweak_at(first, n), decoder::tweak_at(first, n + 1));
        let stolen = decoder::xts_steal(encipher, whole, part, a, b);
        let once = decoder::xts_block(encipher, whole, a);
        lemma_block_round_trip(decipher, encipher, whole, a);
        lemma_block_round_trip(decipher, encipher, part + once.skip(part.len() as int), b);
        lemma_steal_round_trip(decipher, encipher, whole, part, a, b);
        assert(decoder::block_of(turned, n as int) =~= stolen.take(16));
        assert(turned.skip((16 * n + 16) as int) =~= stolen.skip(16));
        assert(text.take(16 * n as int) + (whole + part) =~= text);
    }
}

/// Whether every block of a text comes back that decryption takes through the cipher.
pub open spec fn text_comes_back(
    encipher: BlockMap,
    decipher: BlockMap,
    first: Seq<u8>,
    text: Seq<u8>,
) -> bool {
    let n = decoder::plain_blocks(text.len());
    &&& forall|j: nat|
        j < n ==> #[trigger] block_comes_back_at(encipher, decipher, first, text, j)
    &&& text.len() % 16 != 0 ==> tail_comes_back(
        encipher,
        decipher,
        decoder::block_of(text, n as int),
        text.skip((16 * n + 16) as int),
        decoder::tweak_at(first, n + 1),
        decoder::tweak_at(first, n),
    )
}

/// Encryption gives back a text whose blocks come back.
pub proof fn lemma_decrypted_text_comes_back(
    decipher: BlockMap,
    encipher: BlockMap,
    first: Seq<u8>,
    text: Seq<u8>,
)
    requires
        text_comes_back(encipher, decipher, first, text),
        text.len() >= 16,
    ensures
        decoder::xts_encrypted(encipher, first, decoder::xts_decrypted(decipher, first, text))
            == text,
{
    let n = decoder::plain_blocks(text.len());
    let turned = decoder::xts_decrypted(decipher, first, text);
    lemma_xts_len(decipher, first, text);
    decoder::lemma_xts_blocks_len(decipher, first, text, n);
    assert(turned.take(16 * n as int) =~= decoder::xts_blocks(decipher, first, text, n));
    lemma_blocks_round_trip(encipher, decipher, first, text, turned, n, n);
    if text.len() % 16 == 0 {
        assert(text.take(16 * n as int) =~= text);
    } else {
        let whole = decoder::block_of(text, n as int);
        let part = text.skip((16 * n + 16) as int);
        let (a, b) = (decoder::tweak_at(first, n + 1), decoder::tweak_at(first, n));
        let stolen = decoder::xts_steal(decipher, whole, part, a, b);
        lemma_steal_round_trip(encipher, decipher, whole, part, a, b);
        assert(decoder::block_of(turned, n as int) =~= stolen.take(16));
        assert(turned.skip((16 * n + 16) as int) =~= stolen.skip(16));
        assert(text.take(16 * n as int) + (whole + part) =~= text);
    }
}

/// Encryption gives back every text of at least one block that was decrypted under the same
/// first tweak: no two texts of one length decrypt to the same.
pub proof fn encryption_undoes_decryption(
    decipher: BlockMap,
    encipher: BlockMap,
    first: Seq<u8>,
    text: Seq<u8>,
)
    requires
        undoes(encipher, decipher),
        text.len() >= 16,
    ensures
        decoder::xts_encrypted(encipher, first, decoder::xts_decrypted(decipher, first, text))
            == text,
{
    let n = decoder::plain_blocks(text.len());
    assert forall|j: nat| j < n implies #[trigger] block_comes_back_at(
        encipher,
        decipher,
        first,
        text,
        j,
    ) by {
        lemma_block_round_trip(
            encipher,
            decipher,
            decoder::block_of(text, j as int),
            decoder::tweak_at(first, j),
        );
    }
    if text.len() % 16 != 0 {
        let whole = decoder::block_of(text, n as int);
        let part = text.skip((16 * n + 16) as int);
        let (a, b) = (decoder::tweak_at(first, n + 1), decoder::tweak_at(first, n));
        let once = decoder::xts_block(decipher, whole, a);
        lemma_block_round_trip(encipher, decipher, whole, a);
        lemma_block_round_trip(encipher, decipher, part + once.skip(part.len() as int), b);
    }
    lemma_decrypted_text_comes_back(decipher, encipher, first, text);
}

/// Whether what `f` makes of `block` is the only block that `g` takes to it under the same tweak.
pub open spec fn sole_source(g: BlockMap, f: BlockMap, block: Seq<u8>, tweak: Seq<u8>) -> bool {
    forall|b: Seq<u8>|
        b.len() == 16 && #[trigger] decoder::xts_block(g, b, tweak) == block ==> b
            == decoder::xts_block(f, block, tweak)
}

/// A block has a sole source where `g` takes blocks to blocks and only one of them to the block
/// with its tweak added.
pub proof fn lemma_sole_source(g: BlockMap, f: BlockMap, block: Seq<u8>, tweak: Seq<u8>)
    requires
        forall|b: Seq<u8>|
            b.len() == 16 ==> (#[trigger] g(b)).len() == 16 && (g(b) == decoder::xor16(block, tweak)
                ==> b == f(decoder::xor16(block, tweak))),
    ensures
        sole_source(g, f, block, tweak),
{
    assert forall|b: Seq<u8>|
        b.len() == 16 && #[trigger] decoder::xts_block(g, b, tweak) == block implies b
        == decoder::xts_block(f, block, tweak) by {
        let masked = decoder::xor16(b, tweak);
        assert(masked.len() == 16);
        lemma_xor_twice(g(masked), tweak);
        lemma_xor_twice(b, tweak);
    }
}

/// Whether the `j`th block of a text has a sole source under its own tweak.
pub open spec fn sole_source_at(
    g: BlockMap,
    f: BlockMap,
    first: Seq<u8>,
    text: Seq<u8>,
    j: nat,
) -> bool {
    sole_source(g, f, decoder::block_of(text, j as int), decoder::tweak_at(first, j))
}

/// Whether the two last blocks of a text, of which the last is short, have sole sources.
pub open spec fn tail_has_sole_source(
    g: BlockMap,
    f: BlockMap,
    whole: Seq<u8>,
    part: Seq<u8>,
    a: Seq<u8>,
    b: Seq<u8>,
) -> bool {
    let once = decoder::xts_block(f, whole, a);
    &&& sole_source(g, f, whole, a)
    &&& sole_source(g, f, part + once.skip(part.len() as int), b)
}

/// Whether every block of a text has a sole source that decryption takes through the cipher.
pub open spec fn text_has_sole_source(
    encipher: BlockMap,
    decipher: BlockMap,
    first: Seq<u8>,
    text: Seq<u8>,
) -> bool {
    let n = decoder::plain_blocks(text.len());
    &&& forall|j: nat| j < n ==> #[trigger] sole_source_at(encipher, decipher, first, text, j)
    &&& text.len() % 16 != 0 ==> tail_has_sole_source(
        encipher,
        decipher,
        decoder::block_of(text, n as int),
        text.skip((16 * n + 16) as int),
        decoder::tweak_at(first, n + 1),
        decoder::tweak_at(first, n),
    )
}

proof fn lemma_blocks_have_sole_source(
    encipher: BlockMap,
    decipher: BlockMap,
    first: Seq<u8>,
    text: Seq<u8>,
    plain: Seq<u8>,
    total: nat,
    n: nat,
)
    requires
        forall|j: nat| j < total ==> #[trigger] sole_source_at(encipher, decipher, first, text, j),
        n <= total,
        16 * total <= plain.len(),
        16 * total <= text.len(),
        text.take(16 * total as int) == decoder::xts_blocks(encipher, first, plain, total),
    ensures
        decoder::xts_blocks(decipher, first, text, n) == plain.take(16 * n as int),
    decreases n,
{
    if n == 0 {
        assert(decoder::xts_blocks(decipher, first, text, n) =~= plain.take(0));
    } else {
        let m = (n - 1) as nat;
        lemma_blocks_have_sole_source(encipher, decipher, first, text, plain, total, m);
        lemma_block_of_blocks(encipher, first, plain, total, m);
        let before = decoder::block_of(plain, m as int);
        assert(decoder::block_of(text, m as int) =~= decoder::block_of(
            text.take(16 * total as int),
            m as int,
        ));
        assert(sole_source_at(encipher, decipher, first, text, m));
        assert(plain.take(16 * m as int) + before =~= plain.take(16 * n as int));
    }
}

/// Decryption gives back every text of at least one block that encryption takes to a text whose
/// blocks have sole sources.
pub proof fn lemma_encrypted_text_is_recovered(
    decipher: BlockMap,
    encipher: BlockMap,
    first: Seq<u8>,
    text: Seq<u8>,
    plain: Seq<u8>,
)
    requires
        text_has_sole_source(encipher, decipher, first, text),
        plain.len() >= 16,
        decoder::xts_encrypted(encipher, first, plain) == text,
    ensures
        decoder::xts_decrypted(decipher, first, text) == plain,
{
    let n = decoder::plain_blocks(plain.len());
    lemma_xts_len(encipher, first, plain);
    decoder::lemma_xts_blocks_len(encipher, first, plain, n);
    assert(text.take(16 * n as int) =~= decoder::xts_blocks(encipher, first, plain, n));
    lemma_blocks_have_sole_source(encipher, decipher, first, text, plain, n, n);
    if plain.len() % 16 == 0 {
        assert(plain.take(16 * n as int) =~= plain);
    } else {
        let (a, b) = (decoder::tweak_at(first, n), decoder::tweak_at(first, n + 1));
        let last = decoder::block_of(plain, n as int);
        let rest = plain.skip((16 * n + 16) as int);
        let k = rest.len() as int;
        let turned = decoder::xts_block(encipher, last, a);
        let filled = rest + turned.skip(k);
        let stolen = decoder::xts_steal(encipher, last, rest, a, b);
        let whole = decoder::block_of(text, n as int);
        let part = text.skip((16 * n + 16) as int);
        assert(whole =~= stolen.take(16));
        assert(whole =~= decoder::xts_block(encipher, filled, b));
        assert(part =~= turned.take(k));
        let once = decoder::xts_block(decipher, whole, b);
        assert(once == filled);
        assert(part + once.skip(k) =~= turned);
        assert(once.take(k) =~= rest);
        assert(plain.take(16 * n as int) + (last + rest) =~= plain);
    }
}

/// A text of whole blocks is decrypted block by block: each is deciphered between two additions
/// of its tweak. The tweak of the first is the enciphered starting value, and each next one is
/// the one before it doubled.
pub proof fn blocks_are_decrypted_under_their_own_tweaks(
    decoder: MsiXVDDecoder,
    input: &[u8],
    output: &mut [u8],
    iv: &[u8],
    n: usize,
    tweaks: Seq<Seq<u8>>,
    j: int,
    i: int,
)
    requires
        iv@.len() >= 16,
        input@.len() % 16 == 0,
        input@.len() <= old(output)@.len(),
        tweaks.len() == input@.len() / 16,
        tweaks.len() > 0 ==> tweaks[0] == cipher::aes128_encrypted(
            decoder.tweak_key(),
            iv@.take(16),
        )@,
        forall|k: int|
            0 < k < tweaks.len() ==> #[trigger] tweaks[k] == decoder::gf128_double(tweaks[k - 1]),
        call_ensures(MsiXVDDecoder::decrypt, (&decoder, input, output, iv), n),
        0 <= j < tweaks.len(),
        0 <= i < 16,
    ensures
        n == input@.len(),
        ({
            let masked = Seq::new(16, |k: int| input@[16 * j + k] ^ tweaks[j][k]);
            final(output)@[16 * j + i] == cipher::aes128_decrypted(
                decoder.data_key(),
                masked,
            )@[i] ^ tweaks[j][i]
        }),
{
    let text = input@.take(input@.len() as int);
    assert(text =~= input@);
    let first = decoder.first_tweak(iv@);
    let total = decoder::plain_blocks(text.len());
    lemma_tweaks(tweaks, first, j as nat);
    let blocks = decoder::xts_blocks(decoder.decipher(), first, text, total);
    decoder::lemma_xts_blocks_len(decoder.decipher(), first, text, total);
    lemma_block_of_blocks(decoder.decipher(), first, text, total, j as nat);
    let block = decoder::block_of(text, j);
    let masked = Seq::new(16, |k: int| input@[16 * j + k] ^ tweaks[j][k]);
    assert(decoder::xor16(block, tweaks[j]) =~= masked);
    assert(final(output)@[16 * j + i] == blocks[16 * j + i]);
    assert(blocks[16 * j + i] == decoder::block_of(blocks, j)[i]);
}

proof fn lemma_tweaks(tweaks: Seq<Seq<u8>>, first: Seq<u8>, j: nat)
    requires
        j < tweaks.len(),
        tweaks[0] == first,
        forall|k: int|
            0 < k < tweaks.len() ==> #[trigger] tweaks[k] == decoder::gf128_double(tweaks[k - 1]),
    ensures
        tweaks[j as int] == decoder::tweak_at(first, j),
    decreases j,
{
    if j > 0 {
        lemma_tweaks(tweaks, first, (j - 1) as nat);
        assert(tweaks[j as int] == decoder::gf128_double(tweaks[j - 1]));
    }
}

/// The number that 16 bytes stand for, least significant byte first.
pub open spec fn tweak_value(t: Seq<u8>) -> u128 {
    (t[0] as u128) | ((t[1] as u128) << 8) | ((t[2] as u128) << 16) | ((t[3] as u128) << 24) | ((
    t[4] as u128) << 32) | ((t[5] as u128) << 40) | ((t[6] as u128) << 48) | ((t[7] as u128) << 56)
        | ((t[8] as u128) << 64) | ((t[9] as u128) << 72) | ((t[10] as u128) << 80) | ((
    t[11] as u128) << 88) | ((t[12] as u128) << 96) | ((t[13] as u128) << 104) | ((t[14] as u128)
        << 112) | ((t[15] as u128) << 120)
}

/// Read as a number of 128 bits, the next tweak is the one before moved up by one bit, reduced
/// by x^128 = x^7 + x^2 + x + 1 where a bit is moved out.
pub proof fn tweak_doubles_in_gf128(t: Seq<u8>)
    requires
        t.len() == 16,
    ensures
        tweak_value(decoder::gf128_double(t)) == (if tweak_value(t) >= (1u128 << 127) {
            (tweak_value(t) << 1) ^ 0x87
        } else {
            tweak_value(t) << 1
        }),
{
    let d = decoder::gf128_double(t);
    let (t0, t1, t2, t3) = (t[0], t[1], t[2], t[3]);
    let (t4, t5, t6, t7) = (t[4], t[5], t[6], t[7]);
    let (t8, t9, t10, t11) = (t[8], t[9], t[10], t[11]);
    let (t12, t13, t14, t15) = (t[12], t[13], t[14], t[15]);
    let (d0, d1, d2, d3) = (d[0], d[1], d[2], d[3]);
    let (d4, d5, d6, d7) = (d[4], d[5], d[6], d[7]);
    let (d8, d9, d10, d11) = (d[8], d[9], d[10], d[11]);
    let (d12, d13, d14, d15) = (d[12], d[13], d[14], d[15]);
    let v = tweak_value(t);
    let w = tweak_value(d);
    assert(w == (if v >= (1u128 << 127) { (v << 1) ^ 0x87 } else { v << 1 })) by (bit_vector)
        requires
            d0 == (t0 << 1) ^ (if t15 >= 0x80 { 0x87u8 } else { 0u8 }),
            d1 == (t1 << 1) | (t0 >> 7),
            d2 == (t2 << 1) | (t1 >> 7),
            d3 == (t3 << 1) | (t2 >> 7),
            d4 == (t4 << 1) | (t3 >> 7),
            d5 == (t5 << 1) | (t4 >> 7),
            d6 == (t6 << 1) | (t5 >> 7),
            d7 == (t7 << 1) | (t6 >> 7),
            d8 == (t8 << 1) | (t7 >> 7),
            d9 == (t9 << 1) | (t8 >> 7),
            d10 == (t10 << 1) | (t9 >> 7),
            d11 == (t11 << 1) | (t10 >> 7),
            d12 == (t12 << 1) | (t11 >> 7),
            d13 == (t13 << 1) | (t12 >> 7),
            d14 == (t14 << 1) | (t13 >> 7),
            d15 == (t15 << 1) | (t14 >> 7),
            v == (t0 as u128) | ((t1 as u128) << 8) | ((t2 as u128) << 16) | ((t3 as u128) << 24)
                | ((t4 as u128) << 32) | ((t5 as u128) << 40) | ((t6 as u128) << 48) | ((
            t7 as u128) << 56) | ((t8 as u128) << 64) | ((t9 as u128) << 72) | ((t10 as u128)
                << 80) | ((t11 as u128) << 88) | ((t12 as u128) << 96) | ((t13 as u128) << 104)
                | ((t14 as u128) << 112) | ((t15 as u128) << 120),
            w == (d0 as u128) | ((d1 as u128) << 8) | ((d2 as u128) << 16) | ((d3 as u128) << 24)
                | ((d4 as u128) << 32) | ((d5 as u128) << 40) | ((d6 as u128) << 48) | ((
            d7 as u128) << 56) | ((d8 as u128) << 64) | ((d9 as u128) << 72) | ((d10 as u128)
                << 80) | ((d11 as u128) << 88) | ((d12 as u128) << 96) | ((d13 as u128) << 104)
                | ((d14 as u128) << 112) | ((d15 as u128) << 120),
    ;
}

} // verus!
