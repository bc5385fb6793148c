//! Self-describing padding: every padded buffer ends in `r` bytes of value
//! `r`, with `1 <= r <= BLOCK_SIZE`.
use vstd::prelude::*;

use crate::BLOCK_SIZE;

verus! {

/// How many padding bytes `pad` appends to a buffer of `n` bytes.
pub open spec fn pad_count(n: nat) -> nat {
    (16 - n % 16) as nat
}

/// `x` followed by `pad_count(|x|)` bytes, each holding that count.
pub open spec fn pad_spec(x: Seq<u8>) -> Seq<u8> {
    x + Seq::new(pad_count(x.len()), |j: int| pad_count(x.len()) as u8)
}

/// The last byte of `x` announces a valid padding length: `1..=16`, and no
/// longer than the buffer.
pub open spec fn padding_valid(x: Seq<u8>) -> bool {
    x.len() > 0 && 1 <= x.last() <= 16 && x.last() <= x.len()
}

/// Strips the padding that the last byte announces, when it is valid;
/// otherwise the buffer is left as it is.
pub open spec fn unpad_spec(x: Seq<u8>) -> Seq<u8> {
    if padding_valid(x) {
        x.subrange(0, x.len() - x.last())
    } else {
        x
    }
}

/// Pads `data` to a multiple of the block size. A full block of padding is
/// appended when `data` is already aligned, so padding is always present.
pub fn pad(data: Vec<u8>) -> (r: Vec<u8>)
    requires
        data.len() + BLOCK_SIZE <= usize::MAX,
    ensures
        r@ == pad_spec(data@),
        r@.len() % 16 == 0,
        r@.len() <= data@.len() + 16,
{
    let mut data = data;
    let ghost orig = data@;
    let number_pad_bytes: usize = BLOCK_SIZE - data.len() % BLOCK_SIZE;
    let mut i: usize = 0;
    while i < number_pad_bytes
        invariant
            number_pad_bytes == pad_count(orig.len()),
            i <= number_pad_bytes,
            data@ =~= orig + Seq::new(i as nat, |j: int| number_pad_bytes as u8),
        decreases number_pad_bytes - i,
    {
        data.push(number_pad_bytes as u8);
        i += 1;
        assert(data@ =~= orig + Seq::new(i as nat, |j: int| number_pad_bytes as u8));
    }
    data
}

/// Removes the padding announced by the last byte; a buffer whose last byte
/// announces no valid padding (or an empty buffer) comes back unchanged.
pub fn un_pad(data: Vec<u8>) -> (r: Vec<u8>)
    ensures
        r@ == unpad_spec(data@),
{
    let mut data = data;
    let data_len = data.len();
    if data_len == 0 {
        return data;
    }
    let pad_len = data[data_len - 1] as usize;
    if 1 <= pad_len && pad_len <= BLOCK_SIZE && pad_len <= data_len {
        data.truncate(data_len - pad_len);
    }
    data
}

/// Whether the last byte of `data` announces a valid padding length.
pub fn has_valid_padding(data: &Vec<u8>) -> (r: bool)
    ensures
        r == padding_valid(data@),
{
    let data_len = data.len();
    if data_len == 0 {
        return false;
    }
    let pad_len = data[data_len - 1] as usize;
    1 <= pad_len && pad_len <= BLOCK_SIZE && pad_len <= data_len
}

/// Padding is always valid.
pub proof fn lemma_pad_valid(x: Seq<u8>)
    ensures
        padding_valid(pad_spec(x)),
{
    let p = pad_spec(x);
    assert(p.last() == pad_count(x.len()) as u8);
}

/// Unpadding undoes padding, for every byte sequence (the empty one too).
pub proof fn lemma_unpad_pad(x: Seq<u8>)
    ensures
        unpad_spec(pad_spec(x)) == x,
{
    let p = pad_spec(x);
    let c = pad_count(x.len());
    assert(p.last() == c as u8);
    assert(p.subrange(0, p.len() - c) =~= x);
}

} // verus!
