//! Segmenting byte buffers into 16-byte blocks, joining them back, and
//! XOR of two blocks.
use vstd::prelude::*;

use crate::BLOCK_SIZE;

verus! {

/// The consecutive 16-byte blocks of `x`, in order.
pub open spec fn group_spec(x: Seq<u8>) -> Seq<Seq<u8>> {
    Seq::new(x.len() / 16, |i: int| x.subrange(16 * i, 16 * i + 16))
}

/// Every block of `bs` is 16 bytes long.
pub open spec fn all_full_blocks(bs: Seq<Seq<u8>>) -> bool {
    forall|i: int| 0 <= i < bs.len() ==> (#[trigger] bs[i]).len() == 16
}

/// The blocks of `bs` (each 16 bytes long) joined in order.
pub open spec fn un_group_spec(bs: Seq<Seq<u8>>) -> Seq<u8> {
    Seq::new(bs.len() * 16, |j: int| bs[j / 16][j % 16])
}

/// What a vector of blocks holds, each block as a byte sequence.
pub open spec fn blocks_view(bs: Seq<[u8; 16]>) -> Seq<Seq<u8>> {
    bs.map_values(|b: [u8; 16]| b@)
}

/// Byte-wise exclusive or of two sequences of the same length.
pub open spec fn xor_spec(a: Seq<u8>, b: Seq<u8>) -> Seq<u8> {
    Seq::new(a.len(), |i: int| a[i] ^ b[i])
}

/// The 16-byte block of zeros.
pub open spec fn zero_block() -> Seq<u8> {
    Seq::new(16, |i: int| 0u8)
}

/// Position `16 * i + k` of a joined buffer lies in block `i`, at offset `k`.
pub proof fn lemma_block_position(i: int, k: int)
    requires
        0 <= i,
        0 <= k < 16,
    ensures
        (16 * i + k) / 16 == i,
        (16 * i + k) % 16 == k,
{
}

/// Joining the blocks of an aligned buffer gives the buffer back.
pub proof fn lemma_un_group_group(x: Seq<u8>)
    requires
        x.len() % 16 == 0,
    ensures
        un_group_spec(group_spec(x)) == x,
{
    let g = group_spec(x);
    assert forall|j: int| 0 <= j < x.len() implies #[trigger] un_group_spec(g)[j] == x[j] by {
        lemma_block_position(j / 16, j % 16);
    }
    assert(un_group_spec(g) =~= x);
}

/// Segmenting the join of full blocks gives the blocks back.
pub proof fn lemma_group_un_group(bs: Seq<Seq<u8>>)
    requires
        all_full_blocks(bs),
    ensures
        group_spec(un_group_spec(bs)) == bs,
{
    let u = un_group_spec(bs);
    assert forall|i: int| 0 <= i < bs.len() implies #[trigger] group_spec(u)[i] == bs[i] by {
        assert forall|k: int| 0 <= k < 16 implies #[trigger] group_spec(u)[i][k] == bs[i][k] by {
            lemma_block_position(i, k);
        }
        assert(group_spec(u)[i] =~= bs[i]);
    }
    assert(group_spec(u) =~= bs);
}

/// The blocks of a vector of 16-byte arrays are all full.
pub proof fn lemma_blocks_view_full(bs: Seq<[u8; 16]>)
    ensures
        all_full_blocks(blocks_view(bs)),
        blocks_view(bs).len() == bs.len(),
{
    assert forall|i: int| 0 <= i < bs.len() implies (#[trigger] blocks_view(bs)[i]).len() == 16 by {
        assert(bs[i]@.len() == 16);
    }
}

/// Splits an aligned buffer into its consecutive 16-byte blocks.
pub fn group(data: Vec<u8>) -> (r: Vec<[u8; 16]>)
    requires
        data.len() % BLOCK_SIZE == 0,
    ensures
        blocks_view(r@) == group_spec(data@),
        r@.len() == data@.len() / 16,
{
    let mut blocks: Vec<[u8; 16]> = Vec::new();
    let mut i: usize = 0;
    while i < data.len()
        invariant
            data.len() % 16 == 0,
            i % 16 == 0,
            i <= data.len(),
            blocks@.len() == i / 16,
            forall|m: int| 0 <= m < blocks@.len() ==>
                #[trigger] blocks@[m]@ == data@.subrange(16 * m, 16 * m + 16),
        decreases data.len() - i,
    {
        let mut block: [u8; 16] = [0u8; 16];
        let mut k: usize = 0;
        while k < BLOCK_SIZE
            invariant
                i + 16 <= data.len(),
                k <= 16,
                block@.len() == 16,
                forall|t: int| 0 <= t < k ==> #[trigger] block@[t] == data@[i + t],
            decreases 16 - k,
        {
            block[k] = data[i + k];
            k += 1;
        }
        assert(block@ =~= data@.subrange(16 * (i / 16) as int, 16 * (i / 16) as int + 16));
        blocks.push(block);
        i += BLOCK_SIZE;
    }
    assert(blocks_view(blocks@) =~= group_spec(data@));
    blocks
}

/// Appends the 16 bytes of `b` to `out`.
fn push_block(out: &mut Vec<u8>, b: &[u8; 16])
    requires
        old(out).len() + 16 <= usize::MAX,
    ensures
        final(out)@ == old(out)@ + b@,
{
    let ghost start = out@;
    let mut k: usize = 0;
    while k < BLOCK_SIZE
        invariant
            start.len() + 16 <= usize::MAX,
            k <= 16,
            b@.len() == 16,
            out@ =~= start + b@.subrange(0, k as int),
        decreases 16 - k,
    {
        out.push(b[k]);
        k += 1;
        assert(out@ =~= start + b@.subrange(0, k as int));
    }
    assert(b@.subrange(0, 16) =~= b@);
}

/// Joining `bs` then appending full block `b` is joining `bs` with `b` pushed.
pub proof fn lemma_un_group_push(bs: Seq<Seq<u8>>, b: Seq<u8>)
    requires
        b.len() == 16,
    ensures
        un_group_spec(bs.push(b)) == un_group_spec(bs) + b,
{
    let l = un_group_spec(bs.push(b));
    let r = un_group_spec(bs) + b;
    assert forall|j: int| 0 <= j < l.len() implies #[trigger] l[j] == r[j] by {
        lemma_block_position(j / 16, j % 16);
        if j >= bs.len() * 16 {
            lemma_block_position(bs.len() as int, j - bs.len() * 16);
        }
    }
    assert(l =~= r);
}

/// Joins blocks into one buffer, in order.
pub fn un_group(blocks: Vec<[u8; 16]>) -> (r: Vec<u8>)
    requires
        blocks.len() * 16 <= usize::MAX,
    ensures
        r@ == un_group_spec(blocks_view(blocks@)),
{
    let mut out: Vec<u8> = Vec::new();
    let mut i: usize = 0;
    while i < blocks.len()
        invariant
            blocks.len() * 16 <= usize::MAX,
            i <= blocks.len(),
            out@ == un_group_spec(blocks_view(blocks@.subrange(0, i as int))),
            out@.len() == i * 16,
        decreases blocks.len() - i,
    {
        proof {
            lemma_un_group_push(blocks_view(blocks@.subrange(0, i as int)), blocks@[i as int]@);
            assert(blocks_view(blocks@.subrange(0, i as int)).push(blocks@[i as int]@)
                =~= blocks_view(blocks@.subrange(0, i + 1)));
        }
        push_block(&mut out, &blocks[i]);
        i += 1;
    }
    assert(blocks@.subrange(0, i as int) =~= blocks@);
    out
}

/// Byte-wise exclusive or of two blocks.
pub fn xor_blocks(a: [u8; 16], b: [u8; 16]) -> (r: [u8; 16])
    ensures
        r@ == xor_spec(a@, b@),
{
    let mut result: [u8; 16] = [0u8; 16];
    let mut i: usize = 0;
    while i < BLOCK_SIZE
        invariant
            i <= 16,
            a@.len() == 16,
            result@.len() == 16,
            forall|t: int| 0 <= t < i ==> #[trigger] result@[t] == a@[t] ^ b@[t],
        decreases 16 - i,
    {
        result[i] = a[i] ^ b[i];
        i += 1;
    }
    assert(result@ =~= xor_spec(a@, b@));
    result
}

/// XOR with the same block twice is the identity, and a block XORed with
/// itself is all zeros.
pub proof fn lemma_xor_laws(a: Seq<u8>, b: Seq<u8>)
    requires
        a.len() == 16,
        b.len() == 16,
    ensures
        xor_spec(a, xor_spec(a, b)) == b,
        xor_spec(a, a) == zero_block(),
{
    assert forall|i: int| 0 <= i < 16 implies #[trigger] xor_spec(a, xor_spec(a, b))[i] == b[i] by {
        let (x, y) = (a[i], b[i]);
        assert(x ^ (x ^ y) == y) by (bit_vector);
    }
    assert forall|i: int| 0 <= i < 16 implies #[trigger] xor_spec(a, a)[i] == 0u8 by {
        let x = a[i];
        assert(x ^ x == 0u8) by (bit_vector);
    }
    assert(xor_spec(a, xor_spec(a, b)) =~= b);
    assert(xor_spec(a, a) =~= zero_block());
}

/// XORing with the same mask twice gives the block back.
pub proof fn lemma_xor_cancel(b: Seq<u8>, m: Seq<u8>)
    requires
        b.len() == 16,
    ensures
        xor_spec(xor_spec(b, m), m) == b,
{
    assert forall|i: int| 0 <= i < 16 implies #[trigger] xor_spec(xor_spec(b, m), m)[i] == b[i] by {
        let (x, y) = (b[i], m[i]);
        assert((x ^ y) ^ y == x) by (bit_vector);
    }
    assert(xor_spec(xor_spec(b, m), m) =~= b);
}

/// Joining full block `b` followed by `bs` is `b` followed by the join of `bs`.
pub proof fn lemma_un_group_prepend(b: Seq<u8>, bs: Seq<Seq<u8>>)
    requires
        b.len() == 16,
    ensures
        un_group_spec(seq![b] + bs) == b + un_group_spec(bs),
{
    let l = un_group_spec(seq![b] + bs);
    let r = b + un_group_spec(bs);
    assert forall|j: int| 0 <= j < l.len() implies #[trigger] l[j] == r[j] by {
        lemma_block_position(j / 16, j % 16);
        if j >= 16 {
            lemma_block_position(j / 16 - 1, j % 16);
        }
    }
    assert(l =~= r);
}

} // verus!
