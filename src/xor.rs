use vstd::prelude::*;

verus! {

/// Byte-wise exclusive or of two sequences, as long as the shorter one.
pub open spec fn xor_seq(a: Seq<u8>, b: Seq<u8>) -> Seq<u8> {
    Seq::new(if a.len() <= b.len() { a.len() } else { b.len() }, |i: int| a[i] ^ b[i])
}

/// Exclusive or of the two slices, byte by byte, over the length of the shorter.
pub fn xor_bytes(a: &[u8], b: &[u8]) -> (r: Vec<u8>)
    ensures
        r@ == xor_seq(a@, b@),
{
    let n: usize = if a.len() <= b.len() { a.len() } else { b.len() };
    let mut r: Vec<u8> = Vec::with_capacity(n);
    let mut i: usize = 0;
    while i < n
        invariant
            n == if a@.len() <= b@.len() { a@.len() } else { b@.len() },
            i <= n,
            r@.len() == i,
            forall|j: int| 0 <= j < i ==> r@[j] == a@[j] ^ b@[j],
        decreases n - i,
    {
        r.push(a[i] ^ b[i]);
        i = i + 1;
    }
    assert(r@ =~= xor_seq(a@, b@));
    r
}

/// Exclusive or of two blocks, byte by byte.
pub fn xor_block_bytes(block1: &[u8; 16], block2: &[u8; 16]) -> (r: [u8; 16])
    ensures
        r@ == xor_seq(block1@, block2@),
{
    let mut xored: [u8; 16] = [0u8; 16];
    let mut i: usize = 0;
    while i < 16
        invariant
            i <= 16,
            xored@.len() == 16,
            forall|j: int| 0 <= j < i ==> xored@[j] == block1@[j] ^ block2@[j],
        decreases 16 - i,
    {
        xored[i] = block1[i] ^ block2[i];
        i = i + 1;
    }
    assert(xored@ =~= xor_seq(block1@, block2@));
    xored
}

} // verus!

verus! {

/// Exclusive or with the same byte twice gives the byte back.
pub proof fn lemma_xor_cancel(a: u8, e: u8)
    ensures
        (a ^ e) ^ e == a,
{
    assert((a ^ e) ^ e == a) by (bit_vector);
}

} // verus!

verus! {

/// Flipping one bit of either operand flips that bit of the exclusive or.
pub proof fn lemma_xor_flip(a: u8, x: u8, bit: u8)
    requires
        bit < 8,
    ensures
        a ^ (x ^ (1u8 << bit)) == (a ^ x) ^ (1u8 << bit),
        (a ^ x) ^ (1u8 << bit) != a ^ x,
{
    assert(a ^ (x ^ (1u8 << bit)) == (a ^ x) ^ (1u8 << bit)) by (bit_vector);
    assert((a ^ x) ^ (1u8 << bit) != a ^ x) by (bit_vector)
        requires
            bit < 8,
    ;
}

} // verus!
