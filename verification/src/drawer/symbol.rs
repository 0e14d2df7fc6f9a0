//! The finished symbol: the template of its version, the data under the
//! mask with the least penalty, and the format information of that mask.

use crate::drawer::grid::{at, inside, lemma_offset, side, UNSET};
use crate::drawer::patterns::{template, template_cell, timing_paint};
use crate::drawer::penalty::penalty;
use crate::drawer::placement::{finished, finished_cell, format_index, pair_count, pair_of, reached};
use vstd::prelude::*;

verus! {

/// The penalty of a grid once the data is placed under a mask and the
/// format information of that mask is drawn.
pub open spec fn mask_score(grid: Seq<u8>, size: int, data: Seq<u8>, level: int, mask: int) -> int {
    penalty(finished(grid, size, data, level, mask), size)
}

/// The mask with the least score among the first `count`; of several, the
/// first.
pub open spec fn best_mask_upto(
    grid: Seq<u8>,
    size: int,
    data: Seq<u8>,
    level: int,
    count: int,
) -> int
    decreases count,
{
    if count <= 1 {
        0
    } else {
        let best = best_mask_upto(grid, size, data, level, count - 1);
        if mask_score(grid, size, data, level, count - 1) < mask_score(
            grid,
            size,
            data,
            level,
            best,
        ) {
            count - 1
        } else {
            best
        }
    }
}

/// The mask that a symbol gets: the first of the eight with the least
/// score.
pub open spec fn best_mask(grid: Seq<u8>, size: int, data: Seq<u8>, level: int) -> int {
    best_mask_upto(grid, size, data, level, 8)
}

/// The grid of the symbol of a version and level that carries the
/// codewords `data`.
pub open spec fn symbol(data: Seq<u8>, version: int, level: int) -> Seq<u8> {
    let base = template(version);
    finished(base, side(version), data, level, best_mask(base, side(version), data, level))
}

/// No mask among the first `count` scores less than the best of them, and
/// those before it score more.
pub proof fn lemma_best_mask_upto(grid: Seq<u8>, size: int, data: Seq<u8>, level: int, count: int)
    requires
        1 <= count,
    ensures
        0 <= best_mask_upto(grid, size, data, level, count) < count,
        forall|mask: int|
            0 <= mask < count ==> mask_score(
                grid,
                size,
                data,
                level,
                best_mask_upto(grid, size, data, level, count),
            ) <= #[trigger] mask_score(grid, size, data, level, mask),
        forall|mask: int|
            0 <= mask < best_mask_upto(grid, size, data, level, count) ==> mask_score(
                grid,
                size,
                data,
                level,
                best_mask_upto(grid, size, data, level, count),
            ) < #[trigger] mask_score(grid, size, data, level, mask),
    decreases count,
{
    if count > 1 {
        lemma_best_mask_upto(grid, size, data, level, count - 1);
    }
}

/// The mask of a symbol is one of the eight, none of them scores less, and
/// every mask before it scores more.
pub proof fn lemma_best_mask(grid: Seq<u8>, size: int, data: Seq<u8>, level: int)
    ensures
        0 <= best_mask(grid, size, data, level) < 8,
        forall|mask: int|
            0 <= mask < 8 ==> mask_score(
                grid,
                size,
                data,
                level,
                best_mask(grid, size, data, level),
            ) <= #[trigger] mask_score(grid, size, data, level, mask),
        forall|mask: int|
            0 <= mask < best_mask(grid, size, data, level) ==> mask_score(
                grid,
                size,
                data,
                level,
                best_mask(grid, size, data, level),
            ) < #[trigger] mask_score(grid, size, data, level, mask),
{
    lemma_best_mask_upto(grid, size, data, level, 8);
}

/// The cells of the template grid are those that `template_cell` gives.
pub proof fn lemma_template_at(version: int, x: int, y: int)
    requires
        1 <= version <= 40,
        inside(side(version), x, y),
    ensures
        template(version).len() == side(version) * side(version),
        at(template(version), side(version), x, y) == template_cell(version, x, y),
{
    let size = side(version);
    lemma_offset(size, x, y);
    assert(size * size >= 0) by (nonlinear_arith);
}

/// The cells of a finished grid are those that `finished_cell` gives.
pub proof fn lemma_finished_at(
    grid: Seq<u8>,
    size: int,
    data: Seq<u8>,
    level: int,
    mask: int,
    x: int,
    y: int,
)
    requires
        grid.len() == size * size,
        inside(size, x, y),
    ensures
        finished(grid, size, data, level, mask).len() == grid.len(),
        at(finished(grid, size, data, level, mask), size, x, y) == finished_cell(
            grid,
            size,
            data,
            level,
            mask,
            x,
            y,
        ),
{
    lemma_offset(size, x, y);
}

/// Column 6 of a template holds no unset cell: the timing pattern and what
/// is drawn over it fill it.
pub proof fn lemma_template_column_six(version: int, y: int)
    requires
        1 <= version <= 40,
        0 <= y < side(version),
    ensures
        template_cell(version, 6, y) != UNSET,
{
    let below = crate::drawer::patterns::alignment_paint(version, 6, y, timing_paint(6, y, UNSET));
    assert(timing_paint(6, y, UNSET) != UNSET);
    assert(below != UNSET);
}

/// A finished symbol has no unset cell.
pub proof fn lemma_symbol_complete(data: Seq<u8>, version: int, level: int, x: int, y: int)
    requires
        1 <= version <= 40,
        inside(side(version), x, y),
    ensures
        at(symbol(data, version, level), side(version), x, y) != UNSET,
{
    let base = template(version);
    let size = side(version);
    let mask = best_mask(base, size, data, level);
    lemma_template_at(version, x, y);
    lemma_finished_at(base, size, data, level, mask, x, y);
    if x == 6 {
        lemma_template_column_six(version, y);
    } else {
        assert(0 <= pair_of(size, x) < pair_count(size));
        assert(reached(size, pair_count(size), 0, x, y));
    }
}

/// Whether the cell in column `x` and row `y` holds a bit of the format
/// information.
pub open spec fn is_format_cell(size: int, x: int, y: int) -> bool {
    format_index(size, x, y).is_some()
}

/// The cells of the fixed patterns are in a finished symbol what they are in
/// the template of its version, but for those of the format information,
/// which hold the bits of the level and the mask of the symbol.
pub proof fn lemma_symbol_keeps_template(data: Seq<u8>, version: int, level: int, x: int, y: int)
    requires
        1 <= version <= 40,
        inside(side(version), x, y),
    ensures
        template_cell(version, x, y) != UNSET && !is_format_cell(side(version), x, y) ==> at(
            symbol(data, version, level),
            side(version),
            x,
            y,
        ) == template_cell(version, x, y),
        is_format_cell(side(version), x, y) ==> at(symbol(data, version, level), side(version), x, y)
            == crate::drawer::grid::color_of(
            crate::tables::format::format_bit(
                level,
                best_mask(template(version), side(version), data, level),
                format_index(side(version), x, y).unwrap(),
            ),
        ),
{
    let base = template(version);
    let size = side(version);
    let mask = best_mask(base, size, data, level);
    lemma_template_at(version, x, y);
    lemma_finished_at(base, size, data, level, mask, x, y);
}

} // verus!
