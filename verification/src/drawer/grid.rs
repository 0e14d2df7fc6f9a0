//! The module grid: a square of cells kept row by row.

use vstd::prelude::*;

verus! {

/// A dark module.
pub const DARK: u8 = 0;

/// A light module.
pub const LIGHT: u8 = 255;

/// A module that no pattern has claimed yet.
pub const UNSET: u8 = 128;

/// Side length of the symbol of a version.
pub open spec fn side(version: int) -> int {
    17 + 4 * version
}

/// Whether column `x` and row `y` lie in a grid of a side length.
pub open spec fn inside(size: int, x: int, y: int) -> bool {
    0 <= x < size && 0 <= y < size
}

/// Place of the cell in column `x` and row `y` in a grid kept row by row.
#[verifier::opaque]
pub open spec fn offset(size: int, x: int, y: int) -> int {
    y * size + x
}

/// The cell in column `x` and row `y`.
pub open spec fn at(grid: Seq<u8>, size: int, x: int, y: int) -> u8 {
    grid[offset(size, x, y)]
}

/// The colour that stands for a bit: dark for 1, light for 0.
pub open spec fn color_of(bit: u8) -> u8 {
    if bit == 0 {
        LIGHT
    } else {
        DARK
    }
}

/// The empty grid of a side length.
pub open spec fn blank(size: int) -> Seq<u8> {
    Seq::new((size * size) as nat, |i: int| UNSET)
}

/// Cells inside the grid have places of their own, within its length.
pub proof fn lemma_offset(size: int, x: int, y: int)
    requires
        inside(size, x, y),
    ensures
        0 <= offset(size, x, y) < size * size,
        offset(size, x, y) % size == x,
        offset(size, x, y) / size == y,
        offset(size, x, y) == y * size + x,
{
    reveal(offset);
    assert(0 <= y * size + x < size * size) by (nonlinear_arith)
        requires
            0 <= x < size,
            0 <= y < size,
    ;
    vstd::arithmetic::div_mod::lemma_fundamental_div_mod_converse(y * size + x, size, y, x);
}

/// Every place of the grid belongs to a cell inside it.
pub proof fn lemma_offset_onto(size: int, i: int)
    requires
        size > 0,
        0 <= i < size * size,
    ensures
        inside(size, i % size, i / size),
        offset(size, i % size, i / size) == i,
{
    reveal(offset);
    vstd::arithmetic::div_mod::lemma_fundamental_div_mod(i, size);
    assert(0 <= i / size < size) by (nonlinear_arith)
        requires
            size > 0,
            0 <= i < size * size,
            i == size * (i / size) + i % size,
            0 <= i % size < size,
    ;
    assert(size * (i / size) == (i / size) * size) by (nonlinear_arith);
}

/// Two cells inside the grid with the same place are the same cell.
pub proof fn lemma_offset_injective(size: int, x1: int, y1: int, x2: int, y2: int)
    requires
        inside(size, x1, y1),
        inside(size, x2, y2),
        offset(size, x1, y1) == offset(size, x2, y2),
    ensures
        x1 == x2,
        y1 == y2,
{
    lemma_offset(size, x1, y1);
    lemma_offset(size, x2, y2);
}

/// Grids of the same size that agree on every cell are equal.
pub proof fn lemma_grid_equal(a: Seq<u8>, b: Seq<u8>, size: int)
    requires
        size > 0,
        a.len() == size * size,
        b.len() == size * size,
        forall|x: int, y: int| inside(size, x, y) ==> at(a, size, x, y) == at(b, size, x, y),
    ensures
        a == b,
{
    assert forall|i: int| 0 <= i < a.len() implies a[i] == b[i] by {
        lemma_offset_onto(size, i);
        assert(at(a, size, i % size, i / size) == at(b, size, i % size, i / size));
    }
    assert(a =~= b);
}

/// Every cell of the empty grid is unset.
pub proof fn lemma_blank_at(size: int, x: int, y: int)
    requires
        inside(size, x, y),
    ensures
        at(blank(size), size, x, y) == UNSET,
        blank(size).len() == size * size,
{
    lemma_offset(size, x, y);
}

} // verus!
