use crate::tables::generator::generator_row;
use vstd::prelude::*;

verus! {

/// How the data codewords of one symbol are split into blocks.
#[derive(Clone, Copy, Debug, PartialEq, Eq, Structural)]
pub struct BlockLayout {
    /// Error-correction codewords computed for every block.
    pub ecc_count: usize,
    /// Number of blocks in the first group.
    pub blocks1: usize,
    /// Data codewords in each block of the first group.
    pub len1: usize,
    /// Number of blocks in the second group.
    pub blocks2: usize,
    /// Data codewords in each block of the second group.
    pub len2: usize,
}

impl BlockLayout {
    /// Number of blocks in both groups.
    pub open spec fn block_count(self) -> int {
        self.blocks1 + self.blocks2
    }

    /// Data codewords of the whole symbol.
    pub open spec fn data_len(self) -> int {
        self.blocks1 * self.len1 + self.blocks2 * self.len2
    }

    /// Data and error-correction codewords of the whole symbol.
    pub open spec fn total_len(self) -> int {
        self.data_len() + self.block_count() * self.ecc_count
    }

    /// Length of block `b`, counting through the first group, then the second.
    pub open spec fn block_len(self, b: int) -> int {
        if b < self.blocks1 {
            self.len1 as int
        } else {
            self.len2 as int
        }
    }

    /// Offset of block `b` in the data codewords.
    pub open spec fn block_start(self, b: int) -> int {
        if b < self.blocks1 {
            b * self.len1
        } else {
            self.blocks1 * self.len1 + (b - self.blocks1) * self.len2
        }
    }

    /// Length of the longest block.
    pub open spec fn max_block_len(self) -> int {
        if self.len1 >= self.len2 {
            self.len1 as int
        } else {
            self.len2 as int
        }
    }

    /// What every row of the table satisfies.
    pub open spec fn well_formed(self) -> bool {
        &&& 7 <= self.ecc_count <= 30
        &&& generator_row(self.ecc_count as int).is_some()
        &&& 1 <= self.blocks1
        &&& 1 <= self.len1 <= 123
        &&& self.block_count() <= 81
        &&& (self.blocks2 == 0 ==> self.len2 == 0)
        &&& (self.blocks2 > 0 ==> self.len2 == self.len1 + 1)
        &&& 9 <= self.data_len() <= 2956
    }
}

/// The block layout of a version at a level.
/// Blocks follow one another without gaps and fill the data codewords.
pub proof fn lemma_block_bounds(layout: BlockLayout, b: int)
    requires
        layout.well_formed(),
        0 <= b < layout.block_count(),
    ensures
        layout.block_start(b) >= 0,
        layout.block_len(b) >= 1,
        layout.block_len(b) <= layout.max_block_len(),
        layout.block_start(b) + layout.block_len(b) == layout.block_start(b + 1),
        layout.block_start(b + 1) <= layout.data_len(),
        layout.block_start(0) == 0,
        layout.block_start(layout.block_count()) == layout.data_len(),
        layout.block_count() * layout.ecc_count <= 2430,
{
    let len1 = layout.len1 as int;
    let len2 = layout.len2 as int;
    let blocks1 = layout.blocks1 as int;
    let blocks2 = layout.blocks2 as int;
    assert(b * len1 + len1 == (b + 1) * len1) by (nonlinear_arith);
    assert((b - blocks1) * len2 + len2 == (b + 1 - blocks1) * len2) by (nonlinear_arith);
    assert(b < blocks1 ==> (b + 1) * len1 <= blocks1 * len1) by (nonlinear_arith)
        requires
            len1 >= 0,
    ;
    assert(b >= blocks1 ==> (b + 1 - blocks1) * len2 <= blocks2 * len2) by (nonlinear_arith)
        requires
            len2 >= 0,
            b + 1 - blocks1 <= blocks2,
    ;
    assert(b + 1 == blocks1 ==> (b + 1 - blocks1) * len2 == 0 && (b + 1) * len1 == blocks1 * len1)
        by (nonlinear_arith);
    assert(b == blocks1 ==> (b - blocks1) * len2 == 0) by (nonlinear_arith);
    assert(b >= 0 ==> b * len1 >= 0) by (nonlinear_arith)
        requires
            len1 >= 0,
    ;
    assert(b >= blocks1 ==> (b - blocks1) * len2 >= 0) by (nonlinear_arith)
        requires
            len2 >= 0,
    ;
    assert(blocks1 * len1 >= 0 && blocks2 * len2 >= 0) by (nonlinear_arith)
        requires
            len1 >= 0,
            len2 >= 0,
            blocks1 >= 0,
            blocks2 >= 0,
    ;
    assert(0 * len1 == 0 && (blocks1 + blocks2 - blocks1) * len2 == blocks2 * len2
        && blocks1 * len1 == blocks1 * len1) by (nonlinear_arith);
    assert(layout.block_count() * layout.ecc_count <= 2430) by (nonlinear_arith)
        requires
            0 <= layout.block_count() <= 81,
            0 <= layout.ecc_count <= 30,
    ;
}

} // verus!
