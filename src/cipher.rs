//! The AES-128 single-block cipher and the random source, both provided by
//! outside crates.
use vstd::prelude::*;

use aes::cipher::generic_array::GenericArray;
use aes::cipher::{BlockDecrypt, BlockEncrypt, KeyInit};
use aes::Aes128;
use rand::RngCore;

verus! {

/// AES-128 encryption of one 16-byte block under a 16-byte key.
pub uninterp spec fn aes128_encrypt_block(block: Seq<u8>, key: Seq<u8>) -> Seq<u8>;

/// AES-128 decryption of one 16-byte block under a 16-byte key.
pub uninterp spec fn aes128_decrypt_block(block: Seq<u8>, key: Seq<u8>) -> Seq<u8>;

/// Relies on the aes crate's `Aes128::new` and `BlockEncrypt::encrypt_block`:
/// the result depends on the block and key alone, and decrypting it under the
/// same key gives the block back.
#[verifier::external_body]
pub fn aes_encrypt(data: [u8; 16], key: &[u8; 16]) -> (r: [u8; 16])
    ensures
        r@ == aes128_encrypt_block(data@, key@),
        aes128_decrypt_block(r@, key@) == data@,
{
    let mut block = GenericArray::from(data);
    let key = GenericArray::from(*key);
    let cipher = Aes128::new(&key);
    cipher.encrypt_block(&mut block);
    block.into()
}

/// Relies on the aes crate's `Aes128::new` and `BlockDecrypt::decrypt_block`:
/// the result depends on the block and key alone, and encrypting it under the
/// same key gives the block back.
#[verifier::external_body]
pub fn aes_decrypt(data: [u8; 16], key: &[u8; 16]) -> (r: [u8; 16])
    ensures
        r@ == aes128_decrypt_block(data@, key@),
        aes128_encrypt_block(r@, key@) == data@,
{
    let mut block = GenericArray::from(data);
    let key = GenericArray::from(*key);
    let cipher = Aes128::new(&key);
    cipher.decrypt_block(&mut block);
    block.into()
}

/// The error type of rand's random sources.
#[verifier::external_type_specification]
#[verifier::external_body]
pub struct ExRandError(rand::Error);

/// Relies on rand's `OsRng` and `RngCore::try_fill_bytes`: fills `buf` from
/// the operating system's secure random source, or reports that the source
/// failed. The length is kept; nothing is known of the bytes.
#[verifier::external_body]
pub(crate) fn fill_random(buf: &mut Vec<u8>) -> (r: Result<(), rand::Error>)
    ensures
        final(buf)@.len() == old(buf)@.len(),
{
    rand::rngs::OsRng.try_fill_bytes(buf.as_mut_slice())
}

} // verus!
