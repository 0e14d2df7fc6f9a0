//! The codes that protect the format and the version information: the
//! remainder of a division of polynomials over GF(2), where a number stands
//! for the polynomial that has its bits as coefficients.

use vstd::prelude::*;

verus! {

/// One step of the division: where bit `bit` of `value` is set, the
/// divisor of degree `degree` is moved up to that bit and taken away.
pub open spec fn reduce_bit(value: u32, divisor: u32, degree: u32, bit: u32) -> u32 {
    if value & (1u32 << bit) != 0 {
        value ^ (divisor << ((bit - degree) as u32))
    } else {
        value
    }
}

/// The remainder of `value`, a polynomial of a degree up to `bit`, on
/// division by a divisor of degree `degree`.
pub open spec fn remainder_from(value: u32, divisor: u32, degree: u32, bit: u32) -> u32
    decreases bit,
{
    if bit < degree {
        value
    } else if bit == 0 {
        reduce_bit(value, divisor, degree, bit)
    } else {
        remainder_from(reduce_bit(value, divisor, degree, bit), divisor, degree, (bit - 1) as u32)
    }
}

/// The format information word of five bits of data: the data followed by
/// the ten bits of its remainder on division by x^10 + x^8 + x^5 + x^4 +
/// x^2 + x + 1, under the mask 101010000010010.
pub open spec fn format_word(data: u32) -> u32 {
    ((data << 10) | remainder_from(data << 10, 0x537, 10, 14)) ^ 0x5412
}

/// The version information word of a version: the six bits of the version
/// followed by the twelve bits of its remainder on division by x^12 + x^11
/// + x^10 + x^9 + x^8 + x^5 + x^2 + 1.
pub open spec fn version_word(version: u32) -> u32 {
    (version << 12) | remainder_from(version << 12, 0x1F25, 12, 17)
}

/// The format information words of all 32 values of the data.
pub proof fn lemma_format_words()
    by (bit_vector)
    ensures
        format_word(0) == 0x5412,
        format_word(1) == 0x5125,
        format_word(2) == 0x5E7C,
        format_word(3) == 0x5B4B,
        format_word(4) == 0x45F9,
        format_word(5) == 0x40CE,
        format_word(6) == 0x4F97,
        format_word(7) == 0x4AA0,
        format_word(8) == 0x77C4,
        format_word(9) == 0x72F3,
        format_word(10) == 0x7DAA,
        format_word(11) == 0x789D,
        format_word(12) == 0x662F,
        format_word(13) == 0x6318,
        format_word(14) == 0x6C41,
        format_word(15) == 0x6976,
        format_word(16) == 0x1689,
        format_word(17) == 0x13BE,
        format_word(18) == 0x1CE7,
        format_word(19) == 0x19D0,
        format_word(20) == 0x0762,
        format_word(21) == 0x0255,
        format_word(22) == 0x0D0C,
        format_word(23) == 0x083B,
        format_word(24) == 0x355F,
        format_word(25) == 0x3068,
        format_word(26) == 0x3F31,
        format_word(27) == 0x3A06,
        format_word(28) == 0x24B4,
        format_word(29) == 0x2183,
        format_word(30) == 0x2EDA,
        format_word(31) == 0x2BED,
{
}

/// The version information words of the versions 7 to 40.
pub proof fn lemma_version_words()
    by (bit_vector)
    ensures
        version_word(7) == 0x07C94,
        version_word(8) == 0x085BC,
        version_word(9) == 0x09A99,
        version_word(10) == 0x0A4D3,
        version_word(11) == 0x0BBF6,
        version_word(12) == 0x0C762,
        version_word(13) == 0x0D847,
        version_word(14) == 0x0E60D,
        version_word(15) == 0x0F928,
        version_word(16) == 0x10B78,
        version_word(17) == 0x1145D,
        version_word(18) == 0x12A17,
        version_word(19) == 0x13532,
        version_word(20) == 0x149A6,
        version_word(21) == 0x15683,
        version_word(22) == 0x168C9,
        version_word(23) == 0x177EC,
        version_word(24) == 0x18EC4,
        version_word(25) == 0x191E1,
        version_word(26) == 0x1AFAB,
        version_word(27) == 0x1B08E,
        version_word(28) == 0x1CC1A,
        version_word(29) == 0x1D33F,
        version_word(30) == 0x1ED75,
        version_word(31) == 0x1F250,
        version_word(32) == 0x209D5,
        version_word(33) == 0x216F0,
        version_word(34) == 0x228BA,
        version_word(35) == 0x2379F,
        version_word(36) == 0x24B0B,
        version_word(37) == 0x2542E,
        version_word(38) == 0x26A64,
        version_word(39) == 0x27541,
        version_word(40) == 0x28C69,
{
}

} // verus!
