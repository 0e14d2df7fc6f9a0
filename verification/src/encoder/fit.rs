//! What the capacity table promises: a text that a version holds fits
//! into the data codewords of that version.

use crate::encoder::mode::{count_bits, required_bits, EncodingMode, ErrorCorrection};
use crate::encoder::packing::payload_len;
use crate::tables::capacity::capacity;
use crate::tables::layout::{block_layout, data_codewords, lemma_block_layouts};
use vstd::arithmetic::power2::{lemma2_to64, pow2};
use vstd::prelude::*;

verus! {

/// Number of values that the count field of a version and mode can hold.
pub open spec fn count_limit(version: int, mode: EncodingMode) -> int {
    let width = count_bits(version, mode);
    if width == 8 {
        0x100
    } else if width == 9 {
        0x200
    } else if width == 10 {
        0x400
    } else if width == 11 {
        0x800
    } else if width == 12 {
        0x1000
    } else if width == 13 {
        0x2000
    } else if width == 14 {
        0x4000
    } else {
        0x10000
    }
}

spec fn entry_fits(version: int, level: ErrorCorrection, mode: EncodingMode) -> bool {
    let cap = capacity(version, level.index(), mode.index());
    &&& 0 <= cap <= 7089
    &&& cap < count_limit(version, mode)
    &&& 4 + count_bits(version, mode) + payload_len(mode, cap) <= 8 * data_codewords(
        version,
        level.index(),
    )
}

spec fn level_fits(version: int, level: ErrorCorrection) -> bool {
    &&& entry_fits(version, level, EncodingMode::Numeric)
    &&& entry_fits(version, level, EncodingMode::Alphanumeric)
    &&& entry_fits(version, level, EncodingMode::Byte)
}

spec fn version_fits(version: int) -> bool {
    &&& level_fits(version, ErrorCorrection::Low)
    &&& level_fits(version, ErrorCorrection::Medium)
    &&& level_fits(version, ErrorCorrection::Quartile)
    &&& level_fits(version, ErrorCorrection::High)
}

proof fn lemma_entries_fit()
    ensures
        forall|version: int| 1 <= version <= 40 ==> #[trigger] version_fits(version),
{
    reveal(capacity);
    reveal(data_codewords);
    assert(version_fits(1));
    assert(version_fits(2));
    assert(version_fits(3));
    assert(version_fits(4));
    assert(version_fits(5));
    assert(version_fits(6));
    assert(version_fits(7));
    assert(version_fits(8));
    assert(version_fits(9));
    assert(version_fits(10));
    assert(version_fits(11));
    assert(version_fits(12));
    assert(version_fits(13));
    assert(version_fits(14));
    assert(version_fits(15));
    assert(version_fits(16));
    assert(version_fits(17));
    assert(version_fits(18));
    assert(version_fits(19));
    assert(version_fits(20));
    assert(version_fits(21));
    assert(version_fits(22));
    assert(version_fits(23));
    assert(version_fits(24));
    assert(version_fits(25));
    assert(version_fits(26));
    assert(version_fits(27));
    assert(version_fits(28));
    assert(version_fits(29));
    assert(version_fits(30));
    assert(version_fits(31));
    assert(version_fits(32));
    assert(version_fits(33));
    assert(version_fits(34));
    assert(version_fits(35));
    assert(version_fits(36));
    assert(version_fits(37));
    assert(version_fits(38));
    assert(version_fits(39));
    assert(version_fits(40));
}

/// The longest text of a version, level and mode fills no more than the data
/// bits of the version, header included, and its length fits into the count
/// field.
pub open spec fn capacity_fits(version: int, level: ErrorCorrection, mode: EncodingMode) -> bool {
    let cap = capacity(version, level.index(), mode.index());
    &&& 0 <= cap <= 7089
    &&& cap < pow2(count_bits(version, mode))
    &&& 4 + count_bits(version, mode) + payload_len(mode, cap) <= required_bits(version, level)
}

/// Every entry of the capacity table fits its version.
pub proof fn lemma_capacity_fits()
    ensures
        forall|version: int, level: ErrorCorrection, mode: EncodingMode|
            1 <= version <= 40 ==> #[trigger] capacity_fits(version, level, mode),
{
    lemma_entries_fit();
    lemma_block_layouts();
    lemma2_to64();
    assert forall|version: int, level: ErrorCorrection, mode: EncodingMode|
        1 <= version <= 40 implies #[trigger] capacity_fits(version, level, mode) by {
        assert(version_fits(version));
        assert(level_fits(version, level));
        assert(entry_fits(version, level, mode));
        assert(block_layout(version, level.index()).well_formed());
    }
}

} // verus!
