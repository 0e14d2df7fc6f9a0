use crate::tables::block::BlockLayout;
use crate::tables::remainder::{lemma_raw_modules, raw_modules, remainder_bits};
use vstd::prelude::*;

verus! {

/// Block layout by version (minus one) and level. The five entries are: the
/// error-correction codewords per block, the number of blocks in the first
/// group, the data codewords per block of the first group, the number of
/// blocks in the second group, the data codewords per block of the second
/// group.
pub const ECC_DATA: [[[u32; 5]; 4]; 40] = [
    [[7, 1, 19, 0, 0], [10, 1, 16, 0, 0], [13, 1, 13, 0, 0], [17, 1, 9, 0, 0]],
    [[10, 1, 34, 0, 0], [16, 1, 28, 0, 0], [22, 1, 22, 0, 0], [28, 1, 16, 0, 0]],
    [[15, 1, 55, 0, 0], [26, 1, 44, 0, 0], [18, 2, 17, 0, 0], [22, 2, 13, 0, 0]],
    [[20, 1, 80, 0, 0], [18, 2, 32, 0, 0], [26, 2, 24, 0, 0], [16, 4, 9, 0, 0]],
    [[26, 1, 108, 0, 0], [24, 2, 43, 0, 0], [18, 2, 15, 2, 16], [22, 2, 11, 2, 12]],
    [[18, 2, 68, 0, 0], [16, 4, 27, 0, 0], [24, 4, 19, 0, 0], [28, 4, 15, 0, 0]],
    [[20, 2, 78, 0, 0], [18, 4, 31, 0, 0], [18, 2, 14, 4, 15], [26, 4, 13, 1, 14]],
    [[24, 2, 97, 0, 0], [22, 2, 38, 2, 39], [22, 4, 18, 2, 19], [26, 4, 14, 2, 15]],
    [[30, 2, 116, 0, 0], [22, 3, 36, 2, 37], [20, 4, 16, 4, 17], [24, 4, 12, 4, 13]],
    [[18, 2, 68, 2, 69], [26, 4, 43, 1, 44], [24, 6, 19, 2, 20], [28, 6, 15, 2, 16]],
    [[20, 4, 81, 0, 0], [30, 1, 50, 4, 51], [28, 4, 22, 4, 23], [24, 3, 12, 8, 13]],
    [[24, 2, 92, 2, 93], [22, 6, 36, 2, 37], [26, 4, 20, 6, 21], [28, 7, 14, 4, 15]],
    [[26, 4, 107, 0, 0], [22, 8, 37, 1, 38], [24, 8, 20, 4, 21], [22, 12, 11, 4, 12]],
    [[30, 3, 115, 1, 116], [24, 4, 40, 5, 41], [20, 11, 16, 5, 17], [24, 11, 12, 5, 13]],
    [[22, 5, 87, 1, 88], [24, 5, 41, 5, 42], [30, 5, 24, 7, 25], [24, 11, 12, 7, 13]],
    [[24, 5, 98, 1, 99], [28, 7, 45, 3, 46], [24, 15, 19, 2, 20], [30, 3, 15, 13, 16]],
    [[28, 1, 107, 5, 108], [28, 10, 46, 1, 47], [28, 1, 22, 15, 23], [28, 2, 14, 17, 15]],
    [[30, 5, 120, 1, 121], [26, 9, 43, 4, 44], [28, 17, 22, 1, 23], [28, 2, 14, 19, 15]],
    [[28, 3, 113, 4, 114], [26, 3, 44, 11, 45], [26, 17, 21, 4, 22], [26, 9, 13, 16, 14]],
    [[28, 3, 107, 5, 108], [26, 3, 41, 13, 42], [30, 15, 24, 5, 25], [28, 15, 15, 10, 16]],
    [[28, 4, 116, 4, 117], [26, 17, 42, 0, 0], [28, 17, 22, 6, 23], [30, 19, 16, 6, 17]],
    [[28, 2, 111, 7, 112], [28, 17, 46, 0, 0], [30, 7, 24, 16, 25], [24, 34, 13, 0, 0]],
    [[30, 4, 121, 5, 122], [28, 4, 47, 14, 48], [30, 11, 24, 14, 25], [30, 16, 15, 14, 16]],
    [[30, 6, 117, 4, 118], [28, 6, 45, 14, 46], [30, 11, 24, 16, 25], [30, 30, 16, 2, 17]],
    [[26, 8, 106, 4, 107], [28, 8, 47, 13, 48], [30, 7, 24, 22, 25], [30, 22, 15, 13, 16]],
    [[28, 10, 114, 2, 115], [28, 19, 46, 4, 47], [28, 28, 22, 6, 23], [30, 33, 16, 4, 17]],
    [[30, 8, 122, 4, 123], [28, 22, 45, 3, 46], [30, 8, 23, 26, 24], [30, 12, 15, 28, 16]],
    [[30, 3, 117, 10, 118], [28, 3, 45, 23, 46], [30, 4, 24, 31, 25], [30, 11, 15, 31, 16]],
    [[30, 7, 116, 7, 117], [28, 21, 45, 7, 46], [30, 1, 23, 37, 24], [30, 19, 15, 26, 16]],
    [[30, 5, 115, 10, 116], [28, 19, 47, 10, 48], [30, 15, 24, 25, 25], [30, 23, 15, 25, 16]],
    [[30, 13, 115, 3, 116], [28, 2, 46, 29, 47], [30, 42, 24, 1, 25], [30, 23, 15, 28, 16]],
    [[30, 17, 115, 0, 0], [28, 10, 46, 23, 47], [30, 10, 24, 35, 25], [30, 19, 15, 35, 16]],
    [[30, 17, 115, 1, 116], [28, 14, 46, 21, 47], [30, 29, 24, 19, 25], [30, 11, 15, 46, 16]],
    [[30, 13, 115, 6, 116], [28, 14, 46, 23, 47], [30, 44, 24, 7, 25], [30, 59, 16, 1, 17]],
    [[30, 12, 121, 7, 122], [28, 12, 47, 26, 48], [30, 39, 24, 14, 25], [30, 22, 15, 41, 16]],
    [[30, 6, 121, 14, 122], [28, 6, 47, 34, 48], [30, 46, 24, 10, 25], [30, 2, 15, 64, 16]],
    [[30, 17, 122, 4, 123], [28, 29, 46, 14, 47], [30, 49, 24, 10, 25], [30, 24, 15, 46, 16]],
    [[30, 4, 122, 18, 123], [28, 13, 46, 32, 47], [30, 48, 24, 14, 25], [30, 42, 15, 32, 16]],
    [[30, 20, 117, 4, 118], [28, 40, 47, 7, 48], [30, 43, 24, 22, 25], [30, 10, 15, 67, 16]],
    [[30, 19, 118, 6, 119], [28, 18, 47, 31, 48], [30, 34, 24, 34, 25], [30, 20, 15, 61, 16]],
];

/// Data codewords of a symbol by version (minus one) and level.
pub const DATA_CODEWORDS: [[u16; 4]; 40] = [
    [19, 16, 13, 9],
    [34, 28, 22, 16],
    [55, 44, 34, 26],
    [80, 64, 48, 36],
    [108, 86, 62, 46],
    [136, 108, 76, 60],
    [156, 124, 88, 66],
    [194, 154, 110, 86],
    [232, 182, 132, 100],
    [274, 216, 154, 122],
    [324, 254, 180, 140],
    [370, 290, 206, 158],
    [428, 334, 244, 180],
    [461, 365, 261, 197],
    [523, 415, 295, 223],
    [589, 453, 325, 253],
    [647, 507, 367, 283],
    [721, 563, 397, 313],
    [795, 627, 445, 341],
    [861, 669, 485, 385],
    [932, 714, 512, 406],
    [1006, 782, 568, 442],
    [1094, 860, 614, 464],
    [1174, 914, 664, 514],
    [1276, 1000, 718, 538],
    [1370, 1062, 754, 596],
    [1468, 1128, 808, 628],
    [1531, 1193, 871, 661],
    [1631, 1267, 911, 701],
    [1735, 1373, 985, 745],
    [1843, 1455, 1033, 793],
    [1955, 1541, 1115, 845],
    [2071, 1631, 1171, 901],
    [2191, 1725, 1231, 961],
    [2306, 1812, 1286, 986],
    [2434, 1914, 1354, 1054],
    [2566, 1992, 1426, 1096],
    [2702, 2102, 1502, 1142],
    [2812, 2216, 1582, 1222],
    [2956, 2334, 1666, 1276],
];

/// The block layout of a version at a level.
#[verifier::opaque]
pub open spec fn block_layout(version: int, level: int) -> BlockLayout {
    let row = ECC_DATA[version - 1][level];
    BlockLayout {
        ecc_count: row[0] as usize,
        blocks1: row[1] as usize,
        len1: row[2] as usize,
        blocks2: row[3] as usize,
        len2: row[4] as usize,
    }
}

/// The block layout of a version at a level.
pub fn get_block_layout(version: usize, level: usize) -> (r: BlockLayout)
    requires
        1 <= version <= 40,
        level < 4,
    ensures
        r == block_layout(version as int, level as int),
{
    reveal(block_layout);
    let row = ECC_DATA[version - 1][level];
    BlockLayout {
        ecc_count: row[0] as usize,
        blocks1: row[1] as usize,
        len1: row[2] as usize,
        blocks2: row[3] as usize,
        len2: row[4] as usize,
    }
}

/// Number of data codewords of a version at a level.
#[verifier::opaque]
pub open spec fn data_codewords(version: int, level: int) -> int {
    DATA_CODEWORDS[version - 1][level] as int
}

spec fn layout_checked(version: int, level: int) -> bool {
    &&& block_layout(version, level).well_formed()
    &&& block_layout(version, level).data_len() == data_codewords(version, level)
    &&& 8 * block_layout(version, level).total_len() + remainder_bits(version) == raw_modules(
        version,
    )
}

spec fn layouts_well_formed(version: int) -> bool {
    &&& layout_checked(version, 0)
    &&& layout_checked(version, 1)
    &&& layout_checked(version, 2)
    &&& layout_checked(version, 3)
}

/// Every row of the block layout table is well formed: among other things
/// the table of generator polynomials has a row for its error-correction
/// codewords. Its blocks hold the data codewords that `DATA_CODEWORDS`
/// lists, and all its codewords together with the remainder bits of the
/// version fill the modules that the fixed patterns leave.
pub proof fn lemma_block_layouts()
    ensures
        forall|version: int, level: int|
            1 <= version <= 40 && 0 <= level < 4 ==> (#[trigger] block_layout(
                version,
                level,
            )).well_formed() && block_layout(version, level).data_len() == data_codewords(
                version,
                level,
            ) && 8 * block_layout(version, level).total_len() + remainder_bits(version)
                == raw_modules(version),
{
    reveal(block_layout);
    reveal(data_codewords);
    lemma_raw_modules();
    assert(layouts_well_formed(1));
    assert(layouts_well_formed(2));
    assert(layouts_well_formed(3));
    assert(layouts_well_formed(4));
    assert(layouts_well_formed(5));
    assert(layouts_well_formed(6));
    assert(layouts_well_formed(7));
    assert(layouts_well_formed(8));
    assert(layouts_well_formed(9));
    assert(layouts_well_formed(10));
    assert(layouts_well_formed(11));
    assert(layouts_well_formed(12));
    assert(layouts_well_formed(13));
    assert(layouts_well_formed(14));
    assert(layouts_well_formed(15));
    assert(layouts_well_formed(16));
    assert(layouts_well_formed(17));
    assert(layouts_well_formed(18));
    assert(layouts_well_formed(19));
    assert(layouts_well_formed(20));
    assert(layouts_well_formed(21));
    assert(layouts_well_formed(22));
    assert(layouts_well_formed(23));
    assert(layouts_well_formed(24));
    assert(layouts_well_formed(25));
    assert(layouts_well_formed(26));
    assert(layouts_well_formed(27));
    assert(layouts_well_formed(28));
    assert(layouts_well_formed(29));
    assert(layouts_well_formed(30));
    assert(layouts_well_formed(31));
    assert(layouts_well_formed(32));
    assert(layouts_well_formed(33));
    assert(layouts_well_formed(34));
    assert(layouts_well_formed(35));
    assert(layouts_well_formed(36));
    assert(layouts_well_formed(37));
    assert(layouts_well_formed(38));
    assert(layouts_well_formed(39));
    assert(layouts_well_formed(40));
}

} // verus!
