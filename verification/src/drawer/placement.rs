//! Where the bits of the codewords go, and the format information.
//!
//! The data is placed along pairs of columns, from the right edge to the
//! left one and skipping column 6. The first pair is walked upwards, the
//! next one downwards, and so on; in every row the right cell comes first.
//! Only cells that are still unset take a bit.

use crate::drawer::grid::{at, color_of, UNSET};
use crate::drawer::qr::{mask_applies, payload_bit};
use crate::tables::format::format_bit;
use vstd::prelude::*;

verus! {

/// Number of pairs of columns in a symbol of an odd side length.
pub open spec fn pair_count(size: int) -> int {
    (size - 1) / 2
}

/// The right column of pair `k`, counted from the right edge.
pub open spec fn pair_column(size: int, k: int) -> int {
    if size - 1 - 2 * k <= 6 {
        size - 2 - 2 * k
    } else {
        size - 1 - 2 * k
    }
}

/// The pair that holds column `x`, which is not column 6.
pub open spec fn pair_of(size: int, x: int) -> int {
    if x > 6 {
        (size - 1 - x) / 2
    } else {
        (size - 2 - x) / 2
    }
}

/// The row that step `r` of pair `k` visits.
pub open spec fn row_at(size: int, k: int, r: int) -> int {
    if k % 2 == 0 {
        size - 1 - r
    } else {
        r
    }
}

/// 1 for an unset cell, 0 for any other.
pub open spec fn free(grid: Seq<u8>, size: int, x: int, y: int) -> int {
    if at(grid, size, x, y) == UNSET {
        1
    } else {
        0
    }
}

/// Number of unset cells in the first `steps` rows that pair `k` visits.
pub open spec fn free_in_steps(grid: Seq<u8>, size: int, k: int, steps: int) -> int
    decreases steps,
{
    if steps <= 0 {
        0
    } else {
        free_in_steps(grid, size, k, steps - 1) + free(
            grid,
            size,
            pair_column(size, k),
            row_at(size, k, steps - 1),
        ) + free(grid, size, pair_column(size, k) - 1, row_at(size, k, steps - 1))
    }
}

/// Number of unset cells in the first `pairs` pairs of columns.
pub open spec fn free_in_pairs(grid: Seq<u8>, size: int, pairs: int) -> int
    decreases pairs,
{
    if pairs <= 0 {
        0
    } else {
        free_in_pairs(grid, size, pairs - 1) + free_in_steps(grid, size, pairs - 1, size)
    }
}

/// Number of unset cells that the walk meets before the cell in column `x`
/// and row `y`.
pub open spec fn rank(grid: Seq<u8>, size: int, x: int, y: int) -> int {
    let k = pair_of(size, x);
    free_in_pairs(grid, size, k) + free_in_steps(grid, size, k, row_at(size, k, y)) + if x
        == pair_column(size, k) {
        0
    } else {
        free(grid, size, pair_column(size, k), y)
    }
}

/// The colour of a data module: that of its bit, inverted where the mask
/// applies.
pub open spec fn placed_color(bit: u8, inverted: bool) -> u8 {
    if (bit != 0) != inverted {
        color_of(1)
    } else {
        color_of(0)
    }
}

/// Whether the walk reaches the cell in column `x` and row `y` within its
/// first `pairs` pairs and the first `steps` rows of the next pair.
pub open spec fn reached(size: int, pairs: int, steps: int, x: int, y: int) -> bool {
    x != 6 && (pair_of(size, x) < pairs || (pair_of(size, x) == pairs && row_at(
        size,
        pairs,
        y,
    ) < steps))
}

/// The grid after the walk has passed its first `pairs` pairs and the first
/// `steps` rows of the next one: every unset cell on the way holds the next
/// bit of the codewords, counted from bit `start`, under the mask.
pub open spec fn data_paint_upto(
    grid: Seq<u8>,
    size: int,
    data: Seq<u8>,
    start: int,
    mask: int,
    pairs: int,
    steps: int,
    x: int,
    y: int,
) -> u8 {
    if reached(size, pairs, steps, x, y) && at(grid, size, x, y) == UNSET {
        placed_color(payload_bit(data, start + rank(grid, size, x, y)), mask_applies(mask, x, y))
    } else {
        at(grid, size, x, y)
    }
}

/// The grid with the data placed: every unset cell outside column 6 holds
/// its bit under the mask.
pub open spec fn data_paint(
    grid: Seq<u8>,
    size: int,
    data: Seq<u8>,
    start: int,
    mask: int,
    x: int,
    y: int,
) -> u8 {
    data_paint_upto(grid, size, data, start, mask, pair_count(size), 0, x, y)
}

/// Where the bits have gone after `count` more of them were asked for.
pub open spec fn advanced(cursor: int, count: int, len: int) -> int {
    if cursor + count < 8 * len {
        cursor + count
    } else {
        8 * len
    }
}

/// Which bit of the format information a cell holds, counted from the most
/// significant one. The first copy runs up column 8 from the lower edge to
/// the lower left finder pattern and then along row 8 to the right edge;
/// the second copy surrounds the upper left finder pattern.
pub open spec fn format_index(size: int, x: int, y: int) -> Option<int> {
    if x == 8 && size - 7 <= y < size {
        Some(size - 1 - y)
    } else if x == 8 && y == 8 {
        Some(7)
    } else if x == 8 && y == 7 {
        Some(8)
    } else if x == 8 && 0 <= y <= 5 {
        Some(14 - y)
    } else if y == 8 && 0 <= x <= 5 {
        Some(x)
    } else if y == 8 && x == 7 {
        Some(6)
    } else if y == 8 && x == size - 8 {
        Some(7)
    } else if y == 8 && size - 7 <= x < size {
        Some(x - size + 15)
    } else {
        None
    }
}

/// The format information of a level and a mask.
pub open spec fn format_paint(size: int, level: int, mask: int, x: int, y: int, old: u8) -> u8 {
    match format_index(size, x, y) {
        Some(i) => color_of(format_bit(level, mask, i)),
        None => old,
    }
}

/// The cell in column `x` and row `y` of a grid with the data placed under
/// a mask and the format information of that mask drawn.
pub open spec fn finished_cell(
    grid: Seq<u8>,
    size: int,
    data: Seq<u8>,
    level: int,
    mask: int,
    x: int,
    y: int,
) -> u8 {
    format_paint(size, level, mask, x, y, data_paint(grid, size, data, 0, mask, x, y))
}

/// A grid with the data placed under a mask and the format information of
/// that mask drawn.
pub open spec fn finished(grid: Seq<u8>, size: int, data: Seq<u8>, level: int, mask: int) -> Seq<
    u8,
> {
    Seq::new(grid.len(), |i: int| finished_cell(grid, size, data, level, mask, i % size, i / size))
}

} // verus!
