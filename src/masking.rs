//! The public obfuscation layer: a word mask for integer metadata and a
//! byte mask for every byte of an enciphered block.
use vstd::prelude::*;

verus! {

/// Mask applied to 32-bit integer metadata fields.
pub const WORD_MASK: u32 = 0x1f398ab3;

/// Mask applied to every byte of an enciphered block.
pub const BYTE_MASK: u8 = 0xb3;

/// A cipher block.
pub type Block = [u8; 16];

pub open spec fn word_masked(x: u32) -> u32 {
    x ^ WORD_MASK
}

pub open spec fn byte_masked(b: u8) -> u8 {
    b ^ BYTE_MASK
}

/// Every byte of `s` masked.
pub open spec fn bytes_masked(s: Seq<u8>) -> Seq<u8> {
    s.map_values(|b: u8| byte_masked(b))
}

/// Every block of `s` masked byte by byte.
pub open spec fn blocks_masked(s: Seq<Block>) -> Seq<Seq<u8>> {
    s.map_values(|b: Block| bytes_masked(b@))
}

/// Masks (or unmasks: the operation is its own inverse) a 32-bit field.
pub fn mask_word(x: u32) -> (r: u32)
    ensures
        r == word_masked(x),
{
    x ^ WORD_MASK
}

/// Masks (or unmasks) one byte.
pub fn mask_byte(b: u8) -> (r: u8)
    ensures
        r == byte_masked(b),
{
    b ^ BYTE_MASK
}

/// Masks every byte of one block in place.
pub fn mask_block(block: &mut Block)
    ensures
        final(block)@ == bytes_masked(old(block)@),
{
    let mut i: usize = 0;
    while i < 16
        invariant
            0 <= i <= 16,
            block@.len() == 16,
            forall|j: int| 0 <= j < i ==> block@[j] == byte_masked(old(block)@[j]),
            forall|j: int| i <= j < 16 ==> block@[j] == old(block)@[j],
        decreases 16 - i,
    {
        let b = block[i];
        block[i] = mask_byte(b);
        i = i + 1;
    }
    assert(block@ =~= bytes_masked(old(block)@));
}

/// Masks every block of a sequence of blocks in place.
pub fn mask_blocks(blocks: &mut Vec<Block>)
    ensures
        final(blocks)@.len() == old(blocks)@.len(),
        forall|i: int|
            0 <= i < old(blocks)@.len() ==> #[trigger] final(blocks)@[i]@ == bytes_masked(
                old(blocks)@[i]@,
            ),
{
    let mut i: usize = 0;
    while i < blocks.len()
        invariant
            0 <= i <= blocks@.len(),
            blocks@.len() == old(blocks)@.len(),
            forall|j: int| 0 <= j < i ==> #[trigger] blocks@[j]@ == bytes_masked(old(blocks)@[j]@),
            forall|j: int| i <= j < blocks@.len() ==> #[trigger] blocks@[j] == old(blocks)@[j],
        decreases blocks@.len() - i,
    {
        let mut b = blocks[i];
        mask_block(&mut b);
        blocks.set(i, b);
        i = i + 1;
    }
}

/// Every byte of a byte string masked, as a new vector.
pub fn mask_bytes(s: &[u8]) -> (r: Vec<u8>)
    ensures
        r@ == bytes_masked(s@),
{
    let mut r: Vec<u8> = Vec::new();
    let mut i: usize = 0;
    while i < s.len()
        invariant
            0 <= i <= s@.len(),
            r@ == bytes_masked(s@.take(i as int)),
        decreases s@.len() - i,
    {
        r.push(mask_byte(s[i]));
        i = i + 1;
        assert(s@.take(i as int) =~= s@.take(i - 1).push(s@[i - 1]));
        assert(bytes_masked(s@.take(i as int)) =~= bytes_masked(s@.take(i - 1)).push(
            byte_masked(s@[i - 1]),
        ));
    }
    assert(s@.take(s@.len() as int) =~= s@);
    r
}

/// Unmasking a masked 32-bit word gives the word back.
pub proof fn lemma_word_mask_round_trip(x: u32)
    ensures
        word_masked(word_masked(x)) == x,
{
    assert((x ^ 0x1f398ab3u32) ^ 0x1f398ab3u32 == x) by (bit_vector);
}

/// Unmasking a masked byte gives the byte back.
pub proof fn lemma_byte_mask_round_trip(b: u8)
    ensures
        byte_masked(byte_masked(b)) == b,
{
    assert((b ^ 0xb3u8) ^ 0xb3u8 == b) by (bit_vector);
}

/// Unmasking a masked byte string gives it back.
pub proof fn lemma_bytes_mask_round_trip(s: Seq<u8>)
    ensures
        bytes_masked(bytes_masked(s)) == s,
{
    assert forall|i: int| 0 <= i < s.len() implies bytes_masked(bytes_masked(s))[i] == s[i] by {
        lemma_byte_mask_round_trip(s[i]);
    }
    assert(bytes_masked(bytes_masked(s)) =~= s);
}

} // verus!
