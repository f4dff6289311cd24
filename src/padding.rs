use vstd::prelude::*;

verus! {

/// Number of pad bytes appended to a message of `len` bytes: always in `1..=16`.
pub open spec fn pad_len(len: nat) -> nat {
    (16 - len % 16) as nat
}

/// The message followed by `n` copies of the byte `n`, where `n` is its pad length.
pub open spec fn pad_spec(data: Seq<u8>) -> Seq<u8> {
    let n = pad_len(data.len());
    data + Seq::new(n, |i: int| n as u8)
}

/// Strips as many trailing bytes as the last byte says, when that count is in
/// `1..=16` and no more than the length; otherwise leaves the data as it is.
pub open spec fn un_pad_spec(data: Seq<u8>) -> Seq<u8> {
    if data.len() > 0 && 1 <= data.last() <= 16 && data.last() <= data.len() {
        data.subrange(0, data.len() - data.last() as int)
    } else {
        data
    }
}

/// The `b`-th 16-byte block of `data`.
pub open spec fn block_at(data: Seq<u8>, b: int) -> Seq<u8> {
    data.subrange(16 * b, 16 * b + 16)
}

/// The blocks laid end to end.
pub open spec fn concat_blocks(blocks: Seq<[u8; 16]>) -> Seq<u8> {
    Seq::new(16 * blocks.len(), |j: int| blocks[j / 16]@[j % 16])
}

/// Pads the data to a positive multiple of the block size. When the length
/// already is a multiple, a whole block of 16s is appended, so that the last
/// byte always tells how much to strip.
pub fn pad(data: Vec<u8>) -> (r: Vec<u8>)
    ensures
        r@ == pad_spec(data@),
        r@.len() % 16 == 0,
        r@.len() > data@.len(),
        r@.len() <= data@.len() + 16,
        data@.len() % 16 == 0 ==> r@ == data@ + Seq::new(16, |i: int| 16u8),
{
    let mut data = data;
    let n: usize = 16 - data.len() % 16;
    let ghost orig = data@;
    let mut k: usize = 0;
    while k < n
        invariant
            n == pad_len(orig.len()),
            1 <= n <= 16,
            k <= n,
            data@ == orig + Seq::new(k as nat, |i: int| n as u8),
        decreases n - k,
    {
        data.push(n as u8);
        k = k + 1;
        assert(data@ =~= orig + Seq::new(k as nat, |i: int| n as u8));
    }
    assert(data@ =~= pad_spec(orig));
    proof {
        if orig.len() % 16 == 0 {
            assert(data@ =~= orig + Seq::new(16, |i: int| 16u8));
        }
    }
    data
}

/// Removes the padding that [`pad`] added. Data whose last byte is no valid
/// pad length comes back unchanged: the caller cannot tell such data from
/// data that was never padded, so this never fails.
pub fn un_pad(data: Vec<u8>) -> (r: Vec<u8>)
    ensures
        r@ == un_pad_spec(data@),
{
    let mut data = data;
    let len = data.len();
    if len > 0 {
        let p = data[len - 1] as usize;
        if 1 <= p && p <= 16 && p <= len {
            data.truncate(len - p);
        }
    }
    data
}

/// Cuts data whose length is a multiple of the block size into its blocks, in order.
pub fn group(data: Vec<u8>) -> (r: Vec<[u8; 16]>)
    requires
        data@.len() % 16 == 0,
    ensures
        r@.len() == data@.len() / 16,
        forall|b: int| 0 <= b < r@.len() ==> #[trigger] r@[b]@ == block_at(data@, b),
        concat_blocks(r@) == data@,
{
    let mut blocks: Vec<[u8; 16]> = Vec::new();
    let mut i: usize = 0;
    while i < data.len()
        invariant
            data@.len() % 16 == 0,
            i % 16 == 0,
            i <= data@.len(),
            blocks@.len() == i / 16,
            forall|b: int| 0 <= b < blocks@.len() ==> #[trigger] blocks@[b]@ == block_at(data@, b),
        decreases data@.len() - i,
    {
        let mut block: [u8; 16] = [0u8; 16];
        let mut t: usize = 0;
        while t < 16
            invariant
                i % 16 == 0,
                i + 16 <= data@.len(),
                t <= 16,
                block@.len() == 16,
                forall|s: int| 0 <= s < t ==> block@[s] == data@[i + s],
            decreases 16 - t,
        {
            block[t] = data[i + t];
            t = t + 1;
        }
        assert(block@ =~= block_at(data@, (i / 16) as int));
        blocks.push(block);
        i = i + 16;
    }
    assert(concat_blocks(blocks@) =~= data@) by {
        assert forall|j: int| 0 <= j < data@.len() implies concat_blocks(blocks@)[j] == data@[j] by {
            let b = j / 16;
            assert(blocks@[b]@ == block_at(data@, b));
        }
    }
    blocks
}

/// Lays the blocks end to end.
pub fn un_group(blocks: Vec<[u8; 16]>) -> (r: Vec<u8>)
    ensures
        r@ == concat_blocks(blocks@),
        r@.len() == 16 * blocks@.len(),
{
    let mut out: Vec<u8> = Vec::new();
    let mut b: usize = 0;
    while b < blocks.len()
        invariant
            b <= blocks@.len(),
            out@.len() == 16 * b,
            forall|j: int| 0 <= j < out@.len() ==> out@[j] == #[trigger] blocks@[j / 16]@[j % 16],
        decreases blocks@.len() - b,
    {
        let block: [u8; 16] = blocks[b];
        let mut t: usize = 0;
        while t < 16
            invariant
                b < blocks@.len(),
                block == blocks@[b as int],
                t <= 16,
                out@.len() == 16 * b + t,
                forall|j: int| 0 <= j < out@.len() ==> out@[j] == #[trigger] blocks@[j / 16]@[j % 16],
            decreases 16 - t,
        {
            out.push(block[t]);
            t = t + 1;
        }
        b = b + 1;
    }
    assert(out@ =~= concat_blocks(blocks@));
    out
}

/// Removing the padding gives back the padded message, and the padded length
/// is a multiple of the block size, longer than the message.
pub proof fn lemma_pad_round_trip(data: Seq<u8>)
    ensures
        un_pad_spec(pad_spec(data)) == data,
        pad_spec(data).len() % 16 == 0,
        pad_spec(data).len() > data.len(),
{
    let q = pad_spec(data);
    let n = pad_len(data.len());
    assert(q.last() == n as u8);
    assert(q.subrange(0, q.len() - n as int) =~= data);
}

/// A message that fills whole blocks is padded by exactly one block of 16s.
pub proof fn lemma_full_block_padding(data: Seq<u8>)
    requires
        data.len() % 16 == 0,
        data.len() > 0,
    ensures
        pad_spec(data) == data + Seq::new(16, |i: int| 16u8),
{
    assert(pad_spec(data) =~= data + Seq::new(16, |i: int| 16u8));
}

} // verus!

verus! {

/// Each block of laid-out blocks is the block itself.
pub proof fn lemma_block_at_concat(blocks: Seq<[u8; 16]>, b: int)
    requires
        0 <= b < blocks.len(),
    ensures
        block_at(concat_blocks(blocks), b) == blocks[b]@,
{
    let c = concat_blocks(blocks);
    assert forall|t: int| 0 <= t < 16 implies #[trigger] block_at(c, b)[t] == blocks[b]@[t] by {
        assert((16 * b + t) / 16 == b);
        assert((16 * b + t) % 16 == t);
    }
    assert(block_at(c, b) =~= blocks[b]@);
}

} // verus!
