//! The fixed patterns of a symbol, cell by cell.
//!
//! Each pattern is given as a paint: a function from the column, the row
//! and the old colour of a cell to its new colour. The template of a version
//! is what the paints give on an empty grid, one after another.

use crate::drawer::grid::{color_of, side, DARK, LIGHT, UNSET};
use crate::tables::alignment::alignment_positions;
use crate::tables::version::version_bit;
use vstd::prelude::*;

verus! {

/// Colour number `i` of a line that starts dark and changes with every
/// module.
pub open spec fn alternating(i: int) -> u8 {
    if i % 2 == 0 {
        DARK
    } else {
        LIGHT
    }
}

/// The timing patterns: row 6 and column 6.
pub open spec fn timing_paint(x: int, y: int, old: u8) -> u8 {
    if y == 6 {
        alternating(x)
    } else if x == 6 {
        alternating(y)
    } else {
        old
    }
}

/// A finder pattern at the offsets `px` and `py` from its upper left
/// corner: a dark border, a light ring and a dark centre of 3 by 3.
pub open spec fn finder_ring(px: int, py: int) -> u8 {
    if px == 0 || py == 0 || px == 6 || py == 6 || (2 <= px <= 4 && 2 <= py <= 4) {
        DARK
    } else {
        LIGHT
    }
}

/// The square of 8 by 8 modules at (`startx`, `starty`) that holds a finder
/// pattern and, on its two sides towards the middle of the symbol, a light
/// separator.
pub open spec fn finder_paint(size: int, startx: int, starty: int, x: int, y: int, old: u8) -> u8 {
    let lx = x - startx;
    let ly = y - starty;
    if 0 <= lx < 8 && 0 <= ly < 8 {
        let px = if startx > size / 2 {
            lx - 1
        } else {
            lx
        };
        let py = if starty > size / 2 {
            ly - 1
        } else {
            ly
        };
        if 0 <= px < 7 && 0 <= py < 7 {
            finder_ring(px, py)
        } else {
            LIGHT
        }
    } else {
        old
    }
}

/// The finder patterns in three corners: upper left, lower left, upper
/// right.
pub open spec fn finders_paint(size: int, x: int, y: int, old: u8) -> u8 {
    finder_paint(
        size,
        size - 8,
        0,
        x,
        y,
        finder_paint(size, 0, size - 8, x, y, finder_paint(size, 0, 0, x, y, old)),
    )
}

/// Index of the centre coordinate among the first `count` that lies at most
/// 2 from `v`.
pub open spec fn covering(positions: Seq<int>, count: nat, v: int) -> Option<int>
    decreases count,
{
    if count == 0 {
        None
    } else if positions[count - 1] - 2 <= v <= positions[count - 1] + 2 {
        Some(count - 1)
    } else {
        covering(positions, (count - 1) as nat, v)
    }
}

/// An alignment pattern around its centre: a dark border of 5 by 5, a light
/// ring and a dark centre.
pub open spec fn alignment_ring(dx: int, dy: int) -> u8 {
    if (dx == 0 && dy == 0) || dx == -2 || dx == 2 || dy == -2 || dy == 2 {
        DARK
    } else {
        LIGHT
    }
}

/// One alignment pattern with its centre at (`cx`, `cy`).
pub open spec fn stamp_paint(cx: int, cy: int, x: int, y: int, old: u8) -> u8 {
    if cx - 2 <= x <= cx + 2 && cy - 2 <= y <= cy + 2 {
        alignment_ring(x - cx, y - cy)
    } else {
        old
    }
}

/// Whether an alignment pattern may stand at a centre: not where it would
/// meet a finder pattern.
pub open spec fn stamp_allowed(size: int, cx: int, cy: int) -> bool {
    &&& !(cx < 8 && cy < 8)
    &&& !(cx >= size - 8 && cy < 8)
    &&& !(cx < 8 && cy >= size - 8)
}

/// The alignment patterns whose centres lie in the first `rows` rows of
/// centres, and in row `rows` among the first `columns`.
pub open spec fn alignment_paint_upto(
    version: int,
    rows: int,
    columns: int,
    x: int,
    y: int,
    old: u8,
) -> u8 {
    let positions = alignment_positions(version);
    match (covering(positions, positions.len(), x), covering(positions, positions.len(), y)) {
        (Some(i), Some(j)) => if stamp_allowed(side(version), positions[i], positions[j]) && (j
            < rows || (j == rows && i < columns)) {
            alignment_ring(x - positions[i], y - positions[j])
        } else {
            old
        },
        _ => old,
    }
}

/// The alignment patterns of a version: one around every pair of centre
/// coordinates, but for those in the corners of the finder patterns.
pub open spec fn alignment_paint(version: int, x: int, y: int, old: u8) -> u8 {
    alignment_paint_upto(version, alignment_positions(version).len() as int, 0, x, y, old)
}

/// Whether a cell lies in column 8 or row 8 within 8 modules of an edge:
/// the strips along the finder patterns that hold the format information.
pub open spec fn is_format_strip(size: int, x: int, y: int) -> bool {
    ||| x == 8 && (0 <= y < 8 || size - 8 <= y < size)
    ||| y == 8 && (0 <= x < 8 || size - 8 <= x < size)
}

/// The dark module, and the cells kept free for the format information:
/// they are made light where nothing is drawn yet.
pub open spec fn reserve_paint(size: int, x: int, y: int, old: u8) -> u8 {
    if x == 8 && y == size - 8 {
        DARK
    } else if x == 8 && y == 8 {
        LIGHT
    } else if is_format_strip(size, x, y) && old == UNSET {
        LIGHT
    } else {
        old
    }
}

/// The two copies of the version information, from version 7 on: a block
/// of 6 by 3 above the lower left finder pattern, and its mirror image left
/// of the upper right one. The most significant bit stands next to the
/// corner of the finder pattern.
pub open spec fn version_paint(version: int, x: int, y: int, old: u8) -> u8 {
    let size = side(version);
    if version >= 7 && 0 <= x < 6 && size - 11 <= y <= size - 9 {
        color_of(version_bit(version, (5 - x) * 3 + (size - 9 - y)))
    } else if version >= 7 && 0 <= y < 6 && size - 11 <= x <= size - 9 {
        color_of(version_bit(version, (5 - y) * 3 + (size - 9 - x)))
    } else {
        old
    }
}

/// The timing, alignment and finder patterns.
pub open spec fn initial_paint(version: int, x: int, y: int, old: u8) -> u8 {
    finders_paint(side(version), x, y, alignment_paint(version, x, y, timing_paint(x, y, old)))
}

/// The cell in column `x` and row `y` of the template of a version: all
/// fixed patterns on an empty grid. The cells that stay unset are those of
/// the data.
pub open spec fn template_cell(version: int, x: int, y: int) -> u8 {
    version_paint(
        version,
        x,
        y,
        reserve_paint(side(version), x, y, initial_paint(version, x, y, UNSET)),
    )
}

/// The template of a version as a grid.
pub open spec fn template(version: int) -> Seq<u8> {
    let size = side(version);
    Seq::new((size * size) as nat, |i: int| template_cell(version, i % size, i / size))
}

/// Where a coordinate has a centre coordinate at most 2 away, it is the one
/// that `covering` finds.
pub proof fn lemma_covering_found(positions: Seq<int>, count: nat, v: int, i: int)
    requires
        count <= positions.len(),
        0 <= i < count,
        positions[i] - 2 <= v <= positions[i] + 2,
        forall|k: int| 0 <= k < positions.len() - 1 ==> positions[k] + 12 <= #[trigger] positions[k
            + 1],
    ensures
        covering(positions, count, v) == Some(i),
    decreases count,
{
    lemma_positions_apart(positions, i, count - 1);
    if count - 1 != i {
        lemma_covering_found(positions, (count - 1) as nat, v, i);
    }
}

/// Centre coordinates grow by 12 or more from one to the next.
pub proof fn lemma_positions_apart(positions: Seq<int>, i: int, j: int)
    requires
        0 <= i <= j < positions.len(),
        forall|k: int| 0 <= k < positions.len() - 1 ==> positions[k] + 12 <= #[trigger] positions[k
            + 1],
    ensures
        positions[i] + 12 * (j - i) <= positions[j],
    decreases j - i,
{
    if i < j {
        lemma_positions_apart(positions, i, j - 1);
        assert(positions[j - 1] + 12 <= positions[j - 1 + 1]);
    }
}

/// What `covering` finds is a centre coordinate at most 2 away.
pub proof fn lemma_covering_near(positions: Seq<int>, count: nat, v: int)
    ensures
        match covering(positions, count, v) {
            Some(i) => 0 <= i < count && positions[i] - 2 <= v <= positions[i] + 2,
            None => forall|k: int|
                0 <= k < count ==> !((#[trigger] positions[k]) - 2 <= v <= positions[k] + 2),
        },
    decreases count,
{
    if count > 0 {
        lemma_covering_near(positions, (count - 1) as nat, v);
    }
}

} // verus!
