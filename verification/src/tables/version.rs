use crate::tables::bch::{lemma_version_words, version_word};
use vstd::prelude::*;

verus! {

/// The 18-bit version information words of versions 7 to 40.
pub const VERSION_INFO: [u32; 34] = [
    0x07C94, 0x085BC, 0x09A99, 0x0A4D3, 0x0BBF6, 0x0C762,
    0x0D847, 0x0E60D, 0x0F928, 0x10B78, 0x1145D, 0x12A17,
    0x13532, 0x149A6, 0x15683, 0x168C9, 0x177EC, 0x18EC4,
    0x191E1, 0x1AFAB, 0x1B08E, 0x1CC1A, 0x1D33F, 0x1ED75,
    0x1F250, 0x209D5, 0x216F0, 0x228BA, 0x2379F, 0x24B0B,
    0x2542E, 0x26A64, 0x27541, 0x28C69,
];

/// Bit `index` of the version information word, counted from the most
/// significant of its 18 bits.
#[verifier::opaque]
pub open spec fn version_bit(version: int, index: int) -> u8 {
    ((VERSION_INFO[version - 7] >> ((17 - index) as u32)) & 1) as u8
}

/// The 18 bits of the version information of a version from 7 on, most
/// significant bit first.
pub fn get_version_bitstring(version: usize) -> (r: Vec<u8>)
    requires
        7 <= version <= 40,
    ensures
        r@.len() == 18,
        forall|i: int| 0 <= i < 18 ==> r@[i] == version_bit(version as int, i),
{
    proof {
        reveal(version_bit);
    }
    let word: u32 = VERSION_INFO[version - 7];
    let mut bits: Vec<u8> = Vec::new();
    let mut i: u32 = 0;
    while i < 18
        invariant
            7 <= version <= 40,
            word == VERSION_INFO[version - 7],
            i <= 18,
            bits@.len() == i,
            forall|k: int| 0 <= k < i ==> bits@[k] == version_bit(version as int, k),
        decreases 18 - i,
    {
        proof {
            reveal(version_bit);
        }
        bits.push(((word >> (17 - i)) & 1) as u8);
        i += 1;
    }
    bits
}

spec fn word_checked(version: int) -> bool {
    VERSION_INFO[version - 7] == version_word(version as u32)
}

/// Every entry of the table is the version information word of its
/// version: the six bits of the version, followed by their twelve check
/// bits.
pub proof fn lemma_version_info(version: int)
    requires
        7 <= version <= 40,
    ensures
        VERSION_INFO[version - 7] == version_word(version as u32),
{
    lemma_version_words();
    assert(word_checked(7));
    assert(word_checked(8));
    assert(word_checked(9));
    assert(word_checked(10));
    assert(word_checked(11));
    assert(word_checked(12));
    assert(word_checked(13));
    assert(word_checked(14));
    assert(word_checked(15));
    assert(word_checked(16));
    assert(word_checked(17));
    assert(word_checked(18));
    assert(word_checked(19));
    assert(word_checked(20));
    assert(word_checked(21));
    assert(word_checked(22));
    assert(word_checked(23));
    assert(word_checked(24));
    assert(word_checked(25));
    assert(word_checked(26));
    assert(word_checked(27));
    assert(word_checked(28));
    assert(word_checked(29));
    assert(word_checked(30));
    assert(word_checked(31));
    assert(word_checked(32));
    assert(word_checked(33));
    assert(word_checked(34));
    assert(word_checked(35));
    assert(word_checked(36));
    assert(word_checked(37));
    assert(word_checked(38));
    assert(word_checked(39));
    assert(word_checked(40));
    assert(word_checked(version));
}

} // verus!
