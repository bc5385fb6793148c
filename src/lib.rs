//! Block cipher modes of operation (ECB, CBC and CTR) over AES-128, with
//! self-describing padding, block segmentation and block XOR.
use vstd::prelude::*;

pub mod blocks;
pub mod cipher;
pub mod modes;
pub mod padding;

pub use blocks::{group, un_group, xor_blocks};
pub use cipher::{aes_decrypt, aes_encrypt};
pub use modes::{
    cbc_decrypt, cbc_encrypt, cbc_encrypt_with_iv, ctr_decrypt, ctr_encrypt,
    ctr_encrypt_with_nonce, ecb_decrypt, ecb_encrypt, ModeError,
};

pub use padding::{pad, un_pad};

verus! {

/// Number of bytes in one cipher block, and in an AES-128 key.
pub const BLOCK_SIZE: usize = 16;

} // verus!
