//! Why a template has the room that its version is known for: counted
//! column by column, the cells that no fixed pattern claims are those that
//! `column_room` gives.

use crate::drawer::grid::{at, inside, side, UNSET};
use crate::drawer::landmarks::lemma_centres;
use crate::drawer::patterns::{covering, template, template_cell};
use crate::drawer::placement::{free, free_in_pairs, free_in_steps, pair_column, pair_count, row_at};
use crate::drawer::room::{
    band_rows, centre, centre_allowed, centre_count, centre_near, column_room, lower_rows,
    room_in_pairs, upper_rows,
};
use crate::drawer::symbol::lemma_template_at;
use crate::tables::alignment::alignment_positions;
use vstd::prelude::*;

verus! {

/// Whether the finder, format, timing or version patterns claim the cell in
/// column `x`, which is not column 6, and row `y`.
pub open spec fn claimed(version: int, x: int, y: int) -> bool {
    let size = side(version);
    ||| y == 6
    ||| x < 9 && y < 9
    ||| x < 9 && y >= size - 8
    ||| x >= size - 8 && y < 9
    ||| version >= 7 && x < 6 && size - 11 <= y <= size - 9
    ||| version >= 7 && y < 6 && size - 11 <= x <= size - 9
}

/// Whether an alignment pattern covers the cell in column `x` and row `y`.
pub open spec fn aligned(version: int, x: int, y: int) -> bool {
    let i = centre_near(version, centre_count(version), x);
    let j = centre_near(version, centre_count(version), y);
    i >= 0 && j >= 0 && centre_allowed(side(version), centre(version, i), centre(version, j))
}

/// 1 where no fixed pattern claims a cell outside column 6, else 0.
pub open spec fn open_at(version: int, x: int, y: int) -> int {
    if !claimed(version, x, y) && !aligned(version, x, y) {
        1
    } else {
        0
    }
}

/// Number of cells in the first `rows` rows of column `x` that no fixed
/// pattern claims.
pub open spec fn open_in_column(version: int, x: int, rows: int) -> int
    decreases rows,
{
    if rows <= 0 {
        0
    } else {
        open_in_column(version, x, rows - 1) + open_at(version, x, rows - 1)
    }
}

/// The part of `lo` to `hi` (not included) that lies below `y`.
pub open spec fn below(lo: int, hi: int, y: int) -> int {
    if y <= lo {
        0
    } else if y >= hi {
        hi - lo
    } else {
        y - lo
    }
}

/// Number of rows below `y` that the finder, format, timing and version
/// patterns claim in column `x`.
pub open spec fn claimed_below(version: int, x: int, y: int) -> int {
    let size = side(version);
    let upper = upper_rows(version, x);
    (if upper == 1 {
        below(6, 7, y)
    } else {
        below(0, upper, y)
    }) + below(size - lower_rows(version, x), size, y)
}

/// Number of rows below `y`, row 6 left out, that the alignment patterns
/// around the first `count` centres of the column of centres at `cx` take.
pub open spec fn bands_below(version: int, cx: int, count: int, y: int) -> int
    decreases count,
{
    if count <= 0 {
        0
    } else {
        let cy = centre(version, count - 1);
        bands_below(version, cx, count - 1, y) + if centre_allowed(side(version), cx, cy) {
            below(cy - 2, cy + 3, y) - if cy == 6 && y > 6 {
                1int
            } else {
                0int
            }
        } else {
            0int
        }
    }
}

/// The centre coordinates of a version, by either name.
proof fn lemma_centre_names(version: int)
    requires
        1 <= version <= 40,
    ensures
        alignment_positions(version).len() == centre_count(version),
        forall|k: int|
            0 <= k < centre_count(version) ==> #[trigger] alignment_positions(version)[k] == centre(
                version,
                k,
            ),
        forall|k: int|
            0 <= k < centre_count(version) - 1 ==> centre(version, k) + 12 <= #[trigger] centre(
                version,
                k + 1,
            ),
        forall|k: int|
            0 <= k < centre_count(version) ==> {
                let c = #[trigger] centre(version, k);
                &&& c == 6 || 18 <= c
                &&& c == side(version) - 7 || c <= side(version) - 19
                &&& 6 <= c <= side(version) - 7
            },
{
    reveal(alignment_positions);
    lemma_centres(version);
    let p = alignment_positions(version);
    assert forall|k: int| 0 <= k < centre_count(version) - 1 implies centre(version, k) + 12
        <= #[trigger] centre(version, k + 1) by {
        assert(p[k] + 12 <= p[k + 1]);
    }
    assert forall|k: int| 0 <= k < centre_count(version) implies {
        let c = #[trigger] centre(version, k);
        &&& c == 6 || 18 <= c
        &&& c == side(version) - 7 || c <= side(version) - 19
        &&& 6 <= c <= side(version) - 7
    } by {
        assert(p[k] == centre(version, k));
    }
}

/// Centre coordinates grow by 12 or more from one to the next.
proof fn lemma_centres_apart(version: int, i: int, j: int)
    requires
        1 <= version <= 40,
        0 <= i <= j < centre_count(version),
    ensures
        centre(version, i) + 12 * (j - i) <= centre(version, j),
    decreases j - i,
{
    lemma_centre_names(version);
    if i < j {
        lemma_centres_apart(version, i, j - 1);
        assert(centre(version, j - 1) + 12 <= centre(version, j - 1 + 1));
    }
}

/// What `centre_near` finds, and that it finds what `covering` finds.
proof fn lemma_centre_near(version: int, count: int, v: int)
    requires
        1 <= version <= 40,
        0 <= count <= centre_count(version),
    ensures
        -1 <= centre_near(version, count, v) < count,
        centre_near(version, count, v) >= 0 ==> centre(version, centre_near(version, count, v)) - 2
            <= v <= centre(version, centre_near(version, count, v)) + 2,
        centre_near(version, count, v) < 0 ==> forall|k: int|
            0 <= k < count ==> !((#[trigger] centre(version, k)) - 2 <= v <= centre(version, k) + 2),
        covering(alignment_positions(version), count as nat, v) == if centre_near(
            version,
            count,
            v,
        ) >= 0 {
            Some(centre_near(version, count, v))
        } else {
            None::<int>
        },
    decreases count,
{
    lemma_centre_names(version);
    if count > 0 {
        lemma_centre_near(version, count - 1, v);
        assert(alignment_positions(version)[count - 1] == centre(version, count - 1));
    }
}

/// A coordinate that lies at most 2 from a centre coordinate has that one
/// as the centre near it.
proof fn lemma_centre_found(version: int, count: int, v: int, k: int)
    requires
        1 <= version <= 40,
        0 <= k < count <= centre_count(version),
        centre(version, k) - 2 <= v <= centre(version, k) + 2,
    ensures
        centre_near(version, count, v) == k,
    decreases count,
{
    lemma_centres_apart(version, k, count - 1);
    if count - 1 != k {
        lemma_centre_found(version, count - 1, v, k);
    }
}

/// A cell of the template outside column 6 is unset exactly where no fixed
/// pattern claims it.
proof fn lemma_open_cell(version: int, x: int, y: int)
    requires
        1 <= version <= 40,
        inside(side(version), x, y),
        x != 6,
    ensures
        (template_cell(version, x, y) == UNSET) == (open_at(version, x, y) == 1),
{
    lemma_centre_names(version);
    lemma_centre_near(version, centre_count(version), x);
    lemma_centre_near(version, centre_count(version), y);
    let i = centre_near(version, centre_count(version), x);
    let j = centre_near(version, centre_count(version), y);
    if i >= 0 {
        assert(alignment_positions(version)[i] == centre(version, i));
    }
    if j >= 0 {
        assert(alignment_positions(version)[j] == centre(version, j));
    }
}

/// The rows that the alignment patterns take grow by one with every row
/// that an alignment pattern covers, but for row 6.
proof fn lemma_bands_step(version: int, cx: int, count: int, y: int)
    requires
        1 <= version <= 40,
        0 <= count <= centre_count(version),
        0 <= y,
    ensures
        bands_below(version, cx, count, y + 1) - bands_below(version, cx, count, y) == if y != 6
            && centre_near(version, count, y) >= 0 && centre_allowed(
            side(version),
            cx,
            centre(version, centre_near(version, count, y)),
        ) {
            1int
        } else {
            0int
        },
        bands_below(version, cx, count, 0) == 0,
    decreases count,
{
    lemma_centre_names(version);
    if count > 0 {
        lemma_bands_step(version, cx, count - 1, y);
        lemma_centre_near(version, count - 1, y);
        let cy = centre(version, count - 1);
        if cy - 2 <= y <= cy + 2 {
            let before = centre_near(version, count - 1, y);
            if before >= 0 {
                lemma_centres_apart(version, before, count - 1);
            }
        }
    }
}

/// All rows that the alignment patterns of a column of centres take.
proof fn lemma_bands_all(version: int, cx: int, count: int)
    requires
        1 <= version <= 40,
        0 <= count <= centre_count(version),
    ensures
        bands_below(version, cx, count, side(version)) == band_rows(version, cx, count),
    decreases count,
{
    lemma_centre_names(version);
    if count > 0 {
        lemma_bands_all(version, cx, count - 1);
        let cy = centre(version, count - 1);
        assert(6 <= cy <= side(version) - 7);
    }
}

/// The alignment patterns that cover column `x` and the rows they take
/// below `y`.
pub open spec fn column_bands_below(version: int, x: int, y: int) -> int {
    let near = centre_near(version, centre_count(version), x);
    if near >= 0 {
        bands_below(version, centre(version, near), centre_count(version), y)
    } else {
        0
    }
}

/// Number of open cells in the first rows of a column.
proof fn lemma_open_in_column(version: int, x: int, rows: int)
    requires
        1 <= version <= 40,
        0 <= x < side(version),
        x != 6,
        0 <= rows <= side(version),
    ensures
        open_in_column(version, x, rows) == rows - claimed_below(version, x, rows)
            - column_bands_below(version, x, rows),
    decreases rows,
{
    let count = centre_count(version);
    let near = centre_near(version, count, x);
    lemma_centre_names(version);
    lemma_centre_near(version, count, x);
    if rows == 0 {
        if near >= 0 {
            lemma_bands_step(version, centre(version, near), count, 0);
        }
    } else {
        let y = rows - 1;
        lemma_open_in_column(version, x, y);
        lemma_centre_near(version, count, y);
        if near >= 0 {
            lemma_bands_step(version, centre(version, near), count, y);
        }
    }
}

/// A column of the template outside column 6 has the room that
/// `column_room` gives.
proof fn lemma_column_room(version: int, x: int)
    requires
        1 <= version <= 40,
        0 <= x < side(version),
        x != 6,
    ensures
        open_in_column(version, x, side(version)) == column_room(version, x),
{
    let count = centre_count(version);
    let near = centre_near(version, count, x);
    lemma_open_in_column(version, x, side(version));
    lemma_centre_near(version, count, x);
    if near >= 0 {
        lemma_bands_all(version, centre(version, near), count);
    }
}

/// The unset cells in the first rows that a pair of columns visits, from
/// the open cells of its two columns.
proof fn lemma_pair_steps(version: int, k: int, steps: int)
    requires
        1 <= version <= 40,
        0 <= k < pair_count(side(version)),
        0 <= steps <= side(version),
    ensures
        free_in_steps(template(version), side(version), k, steps) == if k % 2 == 0 {
            open_in_column(version, pair_column(side(version), k), side(version))
                - open_in_column(version, pair_column(side(version), k), side(version) - steps)
                + open_in_column(version, pair_column(side(version), k) - 1, side(version))
                - open_in_column(version, pair_column(side(version), k) - 1, side(version) - steps)
        } else {
            open_in_column(version, pair_column(side(version), k), steps) + open_in_column(
                version,
                pair_column(side(version), k) - 1,
                steps,
            )
        },
    decreases steps,
{
    let size = side(version);
    let c = pair_column(size, k);
    if steps > 0 {
        lemma_pair_steps(version, k, steps - 1);
        let y = row_at(size, k, steps - 1);
        lemma_template_at(version, c, y);
        lemma_template_at(version, c - 1, y);
        lemma_open_cell(version, c, y);
        lemma_open_cell(version, c - 1, y);
        assert(free(template(version), size, c, y) == open_at(version, c, y));
        assert(free(template(version), size, c - 1, y) == open_at(version, c - 1, y));
    }
}

/// The unset cells in the first pairs of columns of a template.
proof fn lemma_pairs_room(version: int, pairs: int)
    requires
        1 <= version <= 40,
        0 <= pairs <= pair_count(side(version)),
    ensures
        free_in_pairs(template(version), side(version), pairs) == room_in_pairs(version, pairs),
    decreases pairs,
{
    if pairs > 0 {
        let size = side(version);
        let c = pair_column(size, pairs - 1);
        lemma_pairs_room(version, pairs - 1);
        lemma_pair_steps(version, pairs - 1, size);
        lemma_column_room(version, c);
        lemma_column_room(version, c - 1);
    }
}

/// The template of a version leaves as many modules to the data as
/// `room` counts column by column.
pub proof fn lemma_template_open(version: int)
    requires
        1 <= version <= 40,
    ensures
        free_in_pairs(template(version), side(version), pair_count(side(version)))
            == crate::drawer::room::room(version),
{
    lemma_pairs_room(version, pair_count(side(version)));
}

/// The template of a version leaves exactly the modules that the codewords
/// of the version and its remainder bits take: eight for every data and
/// error-correction codeword at any level, and the remainder bits.
pub proof fn lemma_template_room(version: int, level: int)
    requires
        1 <= version <= 40,
        0 <= level < 4,
    ensures
        free_in_pairs(template(version), side(version), pair_count(side(version))) == 8
            * crate::tables::layout::block_layout(version, level).total_len()
            + crate::tables::remainder::remainder_bits(version),
{
    lemma_template_open(version);
    crate::drawer::room::lemma_room(version);
    crate::tables::layout::lemma_block_layouts();
    let layout = crate::tables::layout::block_layout(version, level);
    assert(layout.well_formed());
    assert(crate::drawer::room::room(version) == crate::tables::remainder::raw_modules(version));
    assert(8 * layout.total_len() + crate::tables::remainder::remainder_bits(version)
        == crate::tables::remainder::raw_modules(version));
}

} // verus!
