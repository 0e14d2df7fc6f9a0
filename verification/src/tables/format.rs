use crate::tables::bch::{format_word, lemma_format_words};
use vstd::prelude::*;

verus! {

/// The 15-bit format information words by level and mask pattern.
pub const FORMAT_INFO: [[u16; 8]; 4] = [
    [0x77C4, 0x72F3, 0x7DAA, 0x789D, 0x662F, 0x6318, 0x6C41, 0x6976],
    [0x5412, 0x5125, 0x5E7C, 0x5B4B, 0x45F9, 0x40CE, 0x4F97, 0x4AA0],
    [0x355F, 0x3068, 0x3F31, 0x3A06, 0x24B4, 0x2183, 0x2EDA, 0x2BED],
    [0x1689, 0x13BE, 0x1CE7, 0x19D0, 0x0762, 0x0255, 0x0D0C, 0x083B],
];

/// Bit `index` of the format information word of a level and a mask
/// pattern, counted from the most significant of its 15 bits.
#[verifier::opaque]
pub open spec fn format_bit(level: int, mask: int, index: int) -> u8 {
    ((FORMAT_INFO[level][mask] >> ((14 - index) as u16)) & 1) as u8
}

/// The 15 bits of the format information, most significant bit first.
pub fn get_format_bits(level: usize, mask: usize) -> (r: Vec<u8>)
    requires
        level < 4,
        mask < 8,
    ensures
        r@.len() == 15,
        forall|i: int| 0 <= i < 15 ==> r@[i] == format_bit(level as int, mask as int, i),
{
    let word: u16 = FORMAT_INFO[level][mask];
    let mut bits: Vec<u8> = Vec::new();
    let mut i: u16 = 0;
    while i < 15
        invariant
            level < 4,
            mask < 8,
            word == FORMAT_INFO[level as int][mask as int],
            i <= 15,
            bits@.len() == i,
            forall|k: int| 0 <= k < i ==> bits@[k] == format_bit(level as int, mask as int, k),
        decreases 15 - i,
    {
        proof {
            reveal(format_bit);
        }
        bits.push(((word >> (14 - i)) & 1) as u8);
        i += 1;
    }
    bits
}

/// The two bits that stand for a level in the format information.
pub open spec fn level_code(level: int) -> int {
    if level == 0 {
        1
    } else if level == 1 {
        0
    } else if level == 2 {
        3
    } else {
        2
    }
}

spec fn word_checked(level: int, mask: int) -> bool {
    FORMAT_INFO[level][mask] == format_word((8 * level_code(level) + mask) as u32)
}

spec fn level_checked(level: int) -> bool {
    &&& word_checked(level, 0)
    &&& word_checked(level, 1)
    &&& word_checked(level, 2)
    &&& word_checked(level, 3)
    &&& word_checked(level, 4)
    &&& word_checked(level, 5)
    &&& word_checked(level, 6)
    &&& word_checked(level, 7)
}

/// Every entry of the table is the format information word of its level
/// and mask: the two bits of the level and the three bits of the mask,
/// followed by their ten check bits, under the mask of the format
/// information.
pub proof fn lemma_format_info(level: int, mask: int)
    requires
        0 <= level < 4,
        0 <= mask < 8,
    ensures
        FORMAT_INFO[level][mask] == format_word((8 * level_code(level) + mask) as u32),
{
    lemma_format_words();
    assert(level_checked(0));
    assert(level_checked(1));
    assert(level_checked(2));
    assert(level_checked(3));
    assert(level_checked(level));
    assert(word_checked(level, mask));
}

} // verus!
