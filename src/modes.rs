//! The three modes of operation: ECB, CBC (random IV prefix) and CTR
//! (random 64-bit nonce prefix).
use vstd::prelude::*;

use crate::blocks::{
    all_full_blocks, blocks_view, group, group_spec, lemma_blocks_view_full,
    lemma_group_un_group, lemma_un_group_group, lemma_un_group_prepend, lemma_xor_cancel,
    un_group, un_group_spec, xor_blocks, xor_spec,
};
use crate::cipher::{
    aes128_decrypt_block, aes128_encrypt_block, aes_decrypt, aes_encrypt, fill_random,
};
use crate::padding::{
    has_valid_padding, lemma_pad_valid, lemma_unpad_pad, pad, pad_spec, padding_valid, un_pad,
    unpad_spec,
};
use crate::BLOCK_SIZE;

verus! {

/// Why a ciphertext cannot be decrypted.
#[derive(Debug, Clone, Copy, PartialEq, Eq, Structural)]
pub enum ModeError {
    /// The buffer is shorter than the IV or nonce that must lead it.
    TooShort,
    /// What follows the prefix is not a whole number of blocks.
    NotBlockAligned,
    /// The last decrypted byte announces no valid padding length.
    BadPadding,
    /// The random source failed, so no IV or nonce could be drawn.
    RandomnessUnavailable,
}

/// Draws `N` bytes from the secure random source.
fn draw_random<const N: usize>() -> (r: Result<[u8; N], ModeError>)
    ensures
        r matches Err(e) ==> e == ModeError::RandomnessUnavailable,
{
    let mut buf: Vec<u8> = vec![0u8; N];
    match fill_random(&mut buf) {
        Ok(()) => {},
        Err(_) => {
            return Err(ModeError::RandomnessUnavailable);
        },
    }
    let mut out: [u8; N] = [0u8; N];
    let mut k: usize = 0;
    while k < N
        invariant
            buf@.len() == N,
            out@.len() == N,
            k <= N,
        decreases N - k,
    {
        out[k] = buf[k];
        k += 1;
    }
    Ok(out)
}

/// ECB: each block of the padded plaintext encrypted on its own.
pub open spec fn ecb_encrypt_spec(p: Seq<u8>, key: Seq<u8>) -> Seq<u8> {
    un_group_spec(group_spec(pad_spec(p)).map_values(|b: Seq<u8>| aes128_encrypt_block(b, key)))
}

/// The padded plaintext of an aligned ECB buffer: each block decrypted on
/// its own.
pub open spec fn ecb_body_spec(c: Seq<u8>, key: Seq<u8>) -> Seq<u8> {
    un_group_spec(group_spec(c).map_values(|b: Seq<u8>| aes128_decrypt_block(b, key)))
}

/// ECB decryption of an aligned buffer: the padding stripped from its body.
pub open spec fn ecb_decrypt_spec(c: Seq<u8>, key: Seq<u8>) -> Seq<u8> {
    unpad_spec(ecb_body_spec(c, key))
}

/// Encrypts in ECB mode: pads, then encrypts every block independently under
/// `key`. Equal plaintext blocks give equal ciphertext blocks.
pub fn ecb_encrypt(plain_text: Vec<u8>, key: [u8; 16]) -> (r: Vec<u8>)
    requires
        plain_text.len() + BLOCK_SIZE <= usize::MAX,
    ensures
        r@ == ecb_encrypt_spec(plain_text@, key@),
        r@.len() % 16 == 0,
        padding_valid(ecb_body_spec(r@, key@)),
        ecb_decrypt_spec(r@, key@) == plain_text@,
{
    let ghost p = plain_text@;
    let padded = pad(plain_text);
    let ghost padded_view = padded@;
    let blocks = group(padded);
    let ghost bs = blocks_view(blocks@);
    let mut out: Vec<[u8; 16]> = Vec::new();
    let mut i: usize = 0;
    while i < blocks.len()
        invariant
            bs == blocks_view(blocks@),
            i <= blocks@.len(),
            out@.len() == i,
            forall|m: int| 0 <= m < i ==> #[trigger] out@[m]@ == aes128_encrypt_block(bs[m], key@),
            forall|m: int| 0 <= m < i ==> aes128_decrypt_block(#[trigger] out@[m]@, key@) == bs[m],
        decreases blocks@.len() - i,
    {
        let e = aes_encrypt(blocks[i], &key);
        out.push(e);
        i += 1;
    }
    let ghost enc = blocks_view(out@);
    proof {
        assert(enc =~= bs.map_values(|b: Seq<u8>| aes128_encrypt_block(b, key@)));
        lemma_blocks_view_full(out@);
        lemma_group_un_group(enc);
        assert(enc.map_values(|b: Seq<u8>| aes128_decrypt_block(b, key@)) =~= bs);
        lemma_un_group_group(padded_view);
        lemma_unpad_pad(p);
        lemma_pad_valid(p);
    }
    un_group(out)
}

/// Decrypts in ECB mode; the buffer must be a whole number of blocks, and
/// its decryption must end in valid padding.
pub fn ecb_decrypt(cipher_text: Vec<u8>, key: [u8; 16]) -> (r: Result<Vec<u8>, ModeError>)
    ensures
        cipher_text@.len() % 16 != 0 ==> r == Err::<Vec<u8>, ModeError>(
            ModeError::NotBlockAligned,
        ),
        cipher_text@.len() % 16 == 0 && !padding_valid(ecb_body_spec(cipher_text@, key@)) ==> r
            == Err::<Vec<u8>, ModeError>(ModeError::BadPadding),
        cipher_text@.len() % 16 == 0 && padding_valid(ecb_body_spec(cipher_text@, key@)) ==> (r matches Ok(
            v,
        ) && v@ == ecb_decrypt_spec(cipher_text@, key@)),
{
    if cipher_text.len() % BLOCK_SIZE != 0 {
        return Err(ModeError::NotBlockAligned);
    }
    let ghost c = cipher_text@;
    let blocks = group(cipher_text);
    let ghost bs = blocks_view(blocks@);
    let mut out: Vec<[u8; 16]> = Vec::new();
    let mut i: usize = 0;
    while i < blocks.len()
        invariant
            bs == blocks_view(blocks@),
            blocks@.len() == c.len() / 16,
            i <= blocks@.len(),
            out@.len() == i,
            forall|m: int| 0 <= m < i ==> #[trigger] out@[m]@ == aes128_decrypt_block(bs[m], key@),
        decreases blocks@.len() - i,
    {
        let d = aes_decrypt(blocks[i], &key);
        out.push(d);
        i += 1;
    }
    assert(blocks_view(out@) =~= group_spec(c).map_values(|b: Seq<u8>| aes128_decrypt_block(b, key@)));
    let joined = un_group(out);
    if !has_valid_padding(&joined) {
        return Err(ModeError::BadPadding);
    }
    Ok(un_pad(joined))
}

/// Equal block-aligned 16-byte segments of a plaintext give equal segments of
/// its ECB ciphertext.
pub proof fn lemma_ecb_equal_blocks(p: Seq<u8>, key: Seq<u8>, i: int, j: int)
    requires
        0 <= i,
        0 <= j,
        16 * i + 16 <= p.len(),
        16 * j + 16 <= p.len(),
        p.subrange(16 * i, 16 * i + 16) == p.subrange(16 * j, 16 * j + 16),
    ensures
        ecb_encrypt_spec(p, key).subrange(16 * i, 16 * i + 16)
            == ecb_encrypt_spec(p, key).subrange(16 * j, 16 * j + 16),
{
    let padded = pad_spec(p);
    let g = group_spec(padded);
    assert(g[i] =~= p.subrange(16 * i, 16 * i + 16));
    assert(g[j] =~= p.subrange(16 * j, 16 * j + 16));
    let c = ecb_encrypt_spec(p, key);
    assert forall|k: int| 0 <= k < 16 implies #[trigger] c.subrange(16 * i, 16 * i + 16)[k]
        == c.subrange(16 * j, 16 * j + 16)[k] by {
        crate::blocks::lemma_block_position(i, k);
        crate::blocks::lemma_block_position(j, k);
    }
    assert(c.subrange(16 * i, 16 * i + 16) =~= c.subrange(16 * j, 16 * j + 16));
}

/// CBC ciphertext block `i` of plaintext blocks `bs`: block `i` XORed with
/// the previous ciphertext block (the IV for the first), then encrypted.
pub open spec fn cbc_cipher_block(bs: Seq<Seq<u8>>, key: Seq<u8>, iv: Seq<u8>, i: nat) -> Seq<u8>
    decreases i,
{
    let prev = if i == 0 {
        iv
    } else {
        cbc_cipher_block(bs, key, iv, (i - 1) as nat)
    };
    aes128_encrypt_block(xor_spec(bs[i as int], prev), key)
}

/// CBC encryption of `p` under `key` with initialization vector `iv`: the IV,
/// then the chained ciphertext blocks of the padded plaintext.
pub open spec fn cbc_encrypt_spec(p: Seq<u8>, key: Seq<u8>, iv: Seq<u8>) -> Seq<u8> {
    let bs = group_spec(pad_spec(p));
    iv + un_group_spec(Seq::new(bs.len(), |i: int| cbc_cipher_block(bs, key, iv, i as nat)))
}

/// Plaintext block `i` recovered from ciphertext blocks `cs` (IV first): block
/// `i + 1` decrypted, XORed with block `i`.
pub open spec fn cbc_plain_block(cs: Seq<Seq<u8>>, key: Seq<u8>, i: int) -> Seq<u8> {
    xor_spec(aes128_decrypt_block(cs[i + 1], key), cs[i])
}

/// The padded plaintext of an aligned CBC buffer of at least one block (the
/// IV).
pub open spec fn cbc_body_spec(c: Seq<u8>, key: Seq<u8>) -> Seq<u8> {
    let cs = group_spec(c);
    un_group_spec(Seq::new((cs.len() - 1) as nat, |i: int| cbc_plain_block(cs, key, i)))
}

/// CBC decryption of an aligned buffer: the padding stripped from its body.
pub open spec fn cbc_decrypt_spec(c: Seq<u8>, key: Seq<u8>) -> Seq<u8> {
    unpad_spec(cbc_body_spec(c, key))
}

/// Encrypts in CBC mode with the given initialization vector, which leads the
/// output as its first block.
pub fn cbc_encrypt_with_iv(plain_text: Vec<u8>, key: [u8; 16], iv: [u8; 16]) -> (r: Vec<u8>)
    requires
        plain_text.len() + 2 * BLOCK_SIZE <= usize::MAX,
    ensures
        r@ == cbc_encrypt_spec(plain_text@, key@, iv@),
        r@.len() % 16 == 0,
        r@.len() >= 32,
        padding_valid(cbc_body_spec(r@, key@)),
        cbc_decrypt_spec(r@, key@) == plain_text@,
{
    let ghost p = plain_text@;
    let padded = pad(plain_text);
    let ghost padded_view = padded@;
    let blocks = group(padded);
    let ghost bs = blocks_view(blocks@);
    let mut cipher_blocks: Vec<[u8; 16]> = Vec::new();
    cipher_blocks.push(iv);
    let mut prev_block: [u8; 16] = iv;
    let mut i: usize = 0;
    while i < blocks.len()
        invariant
            bs == blocks_view(blocks@),
            bs == group_spec(padded_view),
            blocks@.len() * 16 == padded_view.len(),
            padded_view.len() <= p.len() + 16,
            p.len() + 32 <= usize::MAX,
            i <= blocks@.len(),
            cipher_blocks@.len() == i + 1,
            cipher_blocks@[0] == iv,
            prev_block == cipher_blocks@[i as int],
            forall|m: int| 0 <= m < i ==> #[trigger] cipher_blocks@[m + 1]@
                == cbc_cipher_block(bs, key@, iv@, m as nat),
            forall|m: int| 0 <= m < i ==> aes128_decrypt_block(#[trigger] cipher_blocks@[m + 1]@, key@)
                == xor_spec(bs[m], cipher_blocks@[m]@),
        decreases blocks@.len() - i,
    {
        proof {
            if i > 0 {
                let m = i - 1;
                assert(cipher_blocks@[m + 1]@ == cbc_cipher_block(bs, key@, iv@, m as nat));
            }
        }
        let xored = xor_blocks(blocks[i], prev_block);
        let e = aes_encrypt(xored, &key);
        assert(e@ == cbc_cipher_block(bs, key@, iv@, i as nat));
        cipher_blocks.push(e);
        prev_block = e;
        i += 1;
    }
    let ghost cb = blocks_view(cipher_blocks@);
    let ghost chain = Seq::new(bs.len(), |m: int| cbc_cipher_block(bs, key@, iv@, m as nat));
    proof {
        assert forall|k: int| 1 <= k < cb.len() implies #[trigger] cb[k] == chain[k - 1] by {
            let m = k - 1;
            assert(cipher_blocks@[m + 1]@ == cbc_cipher_block(bs, key@, iv@, m as nat));
        }
        assert(cb =~= seq![iv@] + chain);
        lemma_un_group_prepend(iv@, chain);
        lemma_blocks_view_full(cipher_blocks@);
        lemma_group_un_group(cb);
        let plain = Seq::new((cb.len() - 1) as nat, |m: int| cbc_plain_block(cb, key@, m));
        assert forall|m: int| 0 <= m < plain.len() implies #[trigger] plain[m] == bs[m] by {
            lemma_xor_cancel(bs[m], cb[m]);
        }
        assert(plain =~= bs);
        lemma_un_group_group(padded_view);
        lemma_unpad_pad(p);
        lemma_pad_valid(p);
    }
    un_group(cipher_blocks)
}

/// Encrypts in CBC mode under a fresh random IV, which leads the output.
/// Fails, encrypting nothing, when the random source fails.
pub fn cbc_encrypt(plain_text: Vec<u8>, key: [u8; 16]) -> (r: Result<Vec<u8>, ModeError>)
    requires
        plain_text.len() + 2 * BLOCK_SIZE <= usize::MAX,
    ensures
        r matches Err(e) ==> e == ModeError::RandomnessUnavailable,
        r matches Ok(v) ==> v@.len() >= 32 && v@ == cbc_encrypt_spec(
            plain_text@,
            key@,
            v@.subrange(0, 16),
        ) && padding_valid(cbc_body_spec(v@, key@)) && cbc_decrypt_spec(v@, key@) == plain_text@,
{
    let iv: [u8; 16] = draw_random()?;
    let r = cbc_encrypt_with_iv(plain_text, key, iv);
    assert(r@.subrange(0, 16) =~= iv@);
    Ok(r)
}

/// Decrypts a CBC ciphertext: an IV block followed by at least one whole
/// cipher block, whose decryption must end in valid padding.
pub fn cbc_decrypt(cipher_text: Vec<u8>, key: [u8; 16]) -> (r: Result<Vec<u8>, ModeError>)
    ensures
        cipher_text@.len() < 32 ==> r == Err::<Vec<u8>, ModeError>(ModeError::TooShort),
        cipher_text@.len() >= 32 && cipher_text@.len() % 16 != 0
            ==> r == Err::<Vec<u8>, ModeError>(ModeError::NotBlockAligned),
        cipher_text@.len() >= 32 && cipher_text@.len() % 16 == 0 && !padding_valid(
            cbc_body_spec(cipher_text@, key@),
        ) ==> r == Err::<Vec<u8>, ModeError>(ModeError::BadPadding),
        cipher_text@.len() >= 32 && cipher_text@.len() % 16 == 0 && padding_valid(
            cbc_body_spec(cipher_text@, key@),
        ) ==> (r matches Ok(v) && v@ == cbc_decrypt_spec(cipher_text@, key@)),
{
    if cipher_text.len() < 2 * BLOCK_SIZE {
        return Err(ModeError::TooShort);
    }
    if cipher_text.len() % BLOCK_SIZE != 0 {
        return Err(ModeError::NotBlockAligned);
    }
    let ghost c = cipher_text@;
    let blocks = group(cipher_text);
    let ghost cs = blocks_view(blocks@);
    let mut prev_block: [u8; 16] = blocks[0];
    let mut decrypted_blocks: Vec<[u8; 16]> = Vec::new();
    let mut i: usize = 1;
    while i < blocks.len()
        invariant
            cs == blocks_view(blocks@),
            blocks@.len() == c.len() / 16,
            1 <= i <= blocks@.len(),
            decrypted_blocks@.len() == i - 1,
            prev_block == blocks@[i - 1],
            forall|m: int| 0 <= m < i - 1 ==> #[trigger] decrypted_blocks@[m]@
                == cbc_plain_block(cs, key@, m),
        decreases blocks@.len() - i,
    {
        let d = aes_decrypt(blocks[i], &key);
        let p = xor_blocks(d, prev_block);
        decrypted_blocks.push(p);
        prev_block = blocks[i];
        i += 1;
    }
    assert(blocks_view(decrypted_blocks@) =~= Seq::new(
        (cs.len() - 1) as nat,
        |m: int| cbc_plain_block(cs, key@, m),
    ));
    let joined = un_group(decrypted_blocks);
    if !has_valid_padding(&joined) {
        return Err(ModeError::BadPadding);
    }
    Ok(un_pad(joined))
}

/// The eight little-endian bytes of `n`.
pub open spec fn le_bytes(n: u64) -> Seq<u8> {
    Seq::new(8, |k: int| (n >> ((8 * k) as u64)) as u8)
}

/// The block that CTR encrypts for block `i`: the nonce bytes, then the
/// counter `i` as eight little-endian bytes.
pub open spec fn ctr_counter_block(nonce: Seq<u8>, i: int) -> Seq<u8> {
    nonce + le_bytes(i as u64)
}

/// CTR applied to blocks `bs`: block `i` XORed with the encryption of its
/// counter block. The same map encrypts and decrypts.
pub open spec fn ctr_apply(bs: Seq<Seq<u8>>, nonce: Seq<u8>, key: Seq<u8>) -> Seq<Seq<u8>> {
    Seq::new(
        bs.len(),
        |i: int| xor_spec(bs[i], aes128_encrypt_block(ctr_counter_block(nonce, i), key)),
    )
}

/// CTR encryption of `p` under `key` with the eight `nonce` bytes: the
/// nonce, then the masked blocks of the padded plaintext.
pub open spec fn ctr_encrypt_spec(p: Seq<u8>, key: Seq<u8>, nonce: Seq<u8>) -> Seq<u8> {
    nonce + un_group_spec(ctr_apply(group_spec(pad_spec(p)), nonce, key))
}

/// The padded plaintext of a CTR buffer of an eight-byte nonce and whole
/// blocks.
pub open spec fn ctr_body_spec(c: Seq<u8>, key: Seq<u8>) -> Seq<u8> {
    un_group_spec(ctr_apply(group_spec(c.subrange(8, c.len() as int)), c.subrange(0, 8), key))
}

/// CTR decryption: the padding stripped from the body.
pub open spec fn ctr_decrypt_spec(c: Seq<u8>, key: Seq<u8>) -> Seq<u8> {
    unpad_spec(ctr_body_spec(c, key))
}

/// The bytes of `a`, as a vector.
fn vec_of<const N: usize>(a: &[u8; N]) -> (r: Vec<u8>)
    ensures
        r@ == a@,
{
    let mut out: Vec<u8> = Vec::new();
    let mut k: usize = 0;
    while k < N
        invariant
            k <= N,
            a@.len() == N,
            out@ =~= a@.subrange(0, k as int),
        decreases N - k,
    {
        out.push(a[k]);
        k += 1;
        assert(out@ =~= a@.subrange(0, k as int));
    }
    assert(a@.subrange(0, N as int) =~= a@);
    out
}

/// The counter block of the eight `nonce` bytes and `counter`.
fn counter_block(nonce: &Vec<u8>, counter: u64) -> (r: [u8; 16])
    requires
        nonce@.len() == 8,
    ensures
        r@ == nonce@ + le_bytes(counter),
{
    let mut block: [u8; 16] = [0u8; 16];
    let mut k: usize = 0;
    while k < 8
        invariant
            k <= 8,
            nonce@.len() == 8,
            block@.len() == 16,
            forall|t: int| 0 <= t < k ==> #[trigger] block@[t] == nonce@[t],
        decreases 8 - k,
    {
        block[k] = nonce[k];
        k += 1;
    }
    while k < 16
        invariant
            8 <= k <= 16,
            nonce@.len() == 8,
            block@.len() == 16,
            forall|t: int| 0 <= t < 8 ==> #[trigger] block@[t] == nonce@[t],
            forall|t: int| 8 <= t < k ==> #[trigger] block@[t] == le_bytes(counter)[t - 8],
        decreases 16 - k,
    {
        let shift: u64 = 8 * ((k - 8) as u64);
        block[k] = (counter >> shift) as u8;
        k += 1;
    }
    assert(block@ =~= nonce@ + le_bytes(counter));
    block
}

/// Masks each block with the encryption of its counter block under `nonce`.
fn ctr_blocks(blocks: &Vec<[u8; 16]>, nonce: &Vec<u8>, key: &[u8; 16]) -> (r: Vec<[u8; 16]>)
    requires
        nonce@.len() == 8,
    ensures
        blocks_view(r@) == ctr_apply(blocks_view(blocks@), nonce@, key@),
        r@.len() == blocks@.len(),
{
    let ghost bs = blocks_view(blocks@);
    let mut out: Vec<[u8; 16]> = Vec::new();
    let mut counter: u64 = 0;
    let mut i: usize = 0;
    while i < blocks.len()
        invariant
            bs == blocks_view(blocks@),
            nonce@.len() == 8,
            i <= blocks@.len(),
            counter == i,
            out@.len() == i,
            forall|m: int| 0 <= m < i ==> #[trigger] out@[m]@ == ctr_apply(bs, nonce@, key@)[m],
        decreases blocks@.len() - i,
    {
        let v = counter_block(nonce, counter);
        let keystream = aes_encrypt(v, key);
        let masked = xor_blocks(blocks[i], keystream);
        out.push(masked);
        i += 1;
        counter += 1;
    }
    assert(blocks_view(out@) =~= ctr_apply(bs, nonce@, key@));
    out
}

/// Applying CTR twice with the same nonce and key gives full blocks back.
pub proof fn lemma_ctr_apply_twice(bs: Seq<Seq<u8>>, nonce: Seq<u8>, key: Seq<u8>)
    requires
        all_full_blocks(bs),
    ensures
        all_full_blocks(ctr_apply(bs, nonce, key)),
        ctr_apply(ctr_apply(bs, nonce, key), nonce, key) == bs,
{
    let once = ctr_apply(bs, nonce, key);
    assert forall|i: int| 0 <= i < bs.len() implies #[trigger] ctr_apply(once, nonce, key)[i]
        == bs[i] by {
        lemma_xor_cancel(bs[i], aes128_encrypt_block(ctr_counter_block(nonce, i), key));
    }
    assert(ctr_apply(once, nonce, key) =~= bs);
}

/// CTR decryption undoes CTR encryption, for every plaintext, key and
/// eight-byte nonce; the decrypted body ends in valid padding.
pub proof fn lemma_ctr_round_trip(p: Seq<u8>, key: Seq<u8>, nonce: Seq<u8>)
    requires
        nonce.len() == 8,
    ensures
        padding_valid(ctr_body_spec(ctr_encrypt_spec(p, key, nonce), key)),
        ctr_decrypt_spec(ctr_encrypt_spec(p, key, nonce), key) == p,
{
    let c = ctr_encrypt_spec(p, key, nonce);
    let padded = pad_spec(p);
    let bs = group_spec(padded);
    let masked = ctr_apply(bs, nonce, key);
    assert(all_full_blocks(bs));
    lemma_ctr_apply_twice(bs, nonce, key);
    assert(c.subrange(0, 8) =~= nonce);
    assert(c.subrange(8, c.len() as int) =~= un_group_spec(masked));
    lemma_group_un_group(masked);
    assert(padded.len() % 16 == 0);
    lemma_un_group_group(padded);
    lemma_unpad_pad(p);
    lemma_pad_valid(p);
}

/// Byte `q` of a CTR body is ciphertext byte `8 + q` XORed with the
/// keystream byte at the same place.
pub proof fn lemma_ctr_body_index(c: Seq<u8>, key: Seq<u8>, q: int)
    requires
        c.len() >= 8,
        (c.len() - 8) % 16 == 0,
        0 <= q < c.len() - 8,
    ensures
        ctr_body_spec(c, key).len() == c.len() - 8,
        ctr_body_spec(c, key)[q] == c[8 + q] ^ aes128_encrypt_block(
            ctr_counter_block(c.subrange(0, 8), q / 16),
            key,
        )[q % 16],
{
    crate::blocks::lemma_block_position(q / 16, q % 16);
}

/// Flipping bits of a CTR ciphertext byte outside the last block flips the
/// same bits of the matching plaintext byte and leaves every other byte as
/// it was; the padding stays valid.
pub proof fn lemma_ctr_bit_flip(p: Seq<u8>, key: Seq<u8>, nonce: Seq<u8>, j: int, m: u8)
    requires
        nonce.len() == 8,
        8 <= j < ctr_encrypt_spec(p, key, nonce).len() - 16,
    ensures
        padding_valid(
            ctr_body_spec(
                ctr_encrypt_spec(p, key, nonce).update(j, ctr_encrypt_spec(p, key, nonce)[j] ^ m),
                key,
            ),
        ),
        ctr_decrypt_spec(
            ctr_encrypt_spec(p, key, nonce).update(j, ctr_encrypt_spec(p, key, nonce)[j] ^ m),
            key,
        ) == p.update(j - 8, p[j - 8] ^ m),
{
    let c = ctr_encrypt_spec(p, key, nonce);
    let flipped = c.update(j, c[j] ^ m);
    let q = j - 8;
    let padded = pad_spec(p);
    lemma_ctr_round_trip(p, key, nonce);
    let body = ctr_body_spec(c, key);
    let body2 = ctr_body_spec(flipped, key);
    // The body of the unflipped ciphertext is the padded plaintext.
    let bs = group_spec(padded);
    let masked = ctr_apply(bs, nonce, key);
    assert(all_full_blocks(bs));
    lemma_ctr_apply_twice(bs, nonce, key);
    assert(c.subrange(0, 8) =~= nonce);
    assert(c.subrange(8, c.len() as int) =~= un_group_spec(masked));
    lemma_group_un_group(masked);
    lemma_un_group_group(padded);
    assert(body == padded);
    assert(flipped.subrange(0, 8) =~= c.subrange(0, 8));
    assert forall|k: int| 0 <= k < body.len() implies #[trigger] body2[k] == body.update(
        q,
        body[q] ^ m,
    )[k] by {
        lemma_ctr_body_index(c, key, k);
        lemma_ctr_body_index(flipped, key, k);
        if k == q {
            let ks = aes128_encrypt_block(ctr_counter_block(c.subrange(0, 8), k / 16), key)[k
                % 16];
            let x = c[j];
            assert((x ^ m) ^ ks == (x ^ ks) ^ m) by (bit_vector);
        }
    }
    lemma_ctr_body_index(c, key, 0);
    lemma_ctr_body_index(flipped, key, 0);
    assert(body2 =~= body.update(q, body[q] ^ m));
    lemma_pad_valid(p);
    lemma_unpad_pad(p);
    assert(body2.last() == body.last());
    assert(unpad_spec(body2) =~= p.update(q, p[q] ^ m));
}

/// Encrypts in CTR mode with the given eight-byte nonce, which leads the
/// output.
pub fn ctr_encrypt_with_nonce(plain_text: Vec<u8>, key: [u8; 16], nonce: [u8; 8]) -> (r: Vec<u8>)
    requires
        plain_text.len() + 2 * BLOCK_SIZE <= usize::MAX,
    ensures
        r@ == ctr_encrypt_spec(plain_text@, key@, nonce@),
        r@.len() >= 24,
        (r@.len() - 8) % 16 == 0,
        padding_valid(ctr_body_spec(r@, key@)),
        ctr_decrypt_spec(r@, key@) == plain_text@,
{
    let ghost p = plain_text@;
    let padded = pad(plain_text);
    let blocks = group(padded);
    let nonce_bytes = vec_of(&nonce);
    let masked = ctr_blocks(&blocks, &nonce_bytes, &key);
    proof {
        lemma_ctr_round_trip(p, key@, nonce@);
    }
    let mut body = un_group(masked);
    let mut cipher_text = nonce_bytes;
    cipher_text.append(&mut body);
    cipher_text
}

/// Encrypts in CTR mode under a fresh random nonce, which leads the output.
/// Fails, encrypting nothing, when the random source fails.
pub fn ctr_encrypt(plain_text: Vec<u8>, key: [u8; 16]) -> (r: Result<Vec<u8>, ModeError>)
    requires
        plain_text.len() + 2 * BLOCK_SIZE <= usize::MAX,
    ensures
        r matches Err(e) ==> e == ModeError::RandomnessUnavailable,
        r matches Ok(v) ==> v@.len() >= 24 && v@ == ctr_encrypt_spec(
            plain_text@,
            key@,
            v@.subrange(0, 8),
        ) && padding_valid(ctr_body_spec(v@, key@)) && ctr_decrypt_spec(v@, key@) == plain_text@,
{
    let nonce: [u8; 8] = draw_random()?;
    let r = ctr_encrypt_with_nonce(plain_text, key, nonce);
    assert(r@.subrange(0, 8) =~= nonce@);
    Ok(r)
}

/// Decrypts a CTR ciphertext: an eight-byte nonce followed by at least one
/// whole block, whose decryption must end in valid padding.
pub fn ctr_decrypt(cipher_text: Vec<u8>, key: [u8; 16]) -> (r: Result<Vec<u8>, ModeError>)
    ensures
        cipher_text@.len() < 24 ==> r == Err::<Vec<u8>, ModeError>(ModeError::TooShort),
        cipher_text@.len() >= 24 && (cipher_text@.len() - 8) % 16 != 0
            ==> r == Err::<Vec<u8>, ModeError>(ModeError::NotBlockAligned),
        cipher_text@.len() >= 24 && (cipher_text@.len() - 8) % 16 == 0 && !padding_valid(
            ctr_body_spec(cipher_text@, key@),
        ) ==> r == Err::<Vec<u8>, ModeError>(ModeError::BadPadding),
        cipher_text@.len() >= 24 && (cipher_text@.len() - 8) % 16 == 0 && padding_valid(
            ctr_body_spec(cipher_text@, key@),
        ) ==> (r matches Ok(v) && v@ == ctr_decrypt_spec(cipher_text@, key@)),
{
    if cipher_text.len() < 8 + BLOCK_SIZE {
        return Err(ModeError::TooShort);
    }
    if (cipher_text.len() - 8) % BLOCK_SIZE != 0 {
        return Err(ModeError::NotBlockAligned);
    }
    let mut nonce_bytes = cipher_text;
    let body = nonce_bytes.split_off(8);
    let blocks = group(body);
    let plain_blocks = ctr_blocks(&blocks, &nonce_bytes, &key);
    let joined = un_group(plain_blocks);
    if !has_valid_padding(&joined) {
        return Err(ModeError::BadPadding);
    }
    Ok(un_pad(joined))
}

} // verus!
