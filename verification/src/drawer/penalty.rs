//! The penalty of a grid: how much it looks like something a reader could
//! mistake.

use crate::drawer::grid::{at, DARK, LIGHT};
use vstd::prelude::*;

verus! {

/// Module `i` of a line of the grid: of row `line` where `across` holds, of
/// column `line` where it does not.
pub open spec fn line_cell(grid: Seq<u8>, size: int, across: bool, line: int, i: int) -> u8 {
    if across {
        at(grid, size, i, line)
    } else {
        at(grid, size, line, i)
    }
}

/// Length of the run of modules of one colour that ends at module `i` of a
/// line.
pub open spec fn run_length(grid: Seq<u8>, size: int, across: bool, line: int, i: int) -> int
    decreases i,
{
    if i > 0 && line_cell(grid, size, across, line, i) == line_cell(
        grid,
        size,
        across,
        line,
        i - 1,
    ) {
        run_length(grid, size, across, line, i - 1) + 1
    } else {
        1
    }
}

/// Penalty of a run: 3 for a run of 5 modules, and 1 more for every module
/// beyond.
pub open spec fn run_score(length: int) -> int {
    if length >= 5 {
        3 + (length - 5)
    } else {
        0
    }
}

/// Whether a run ends at module `i` of a line.
pub open spec fn run_ends(grid: Seq<u8>, size: int, across: bool, line: int, i: int) -> bool {
    i + 1 >= size || line_cell(grid, size, across, line, i) != line_cell(
        grid,
        size,
        across,
        line,
        i + 1,
    )
}

/// Penalty of the runs that end within the first `count` modules of a
/// line.
pub open spec fn line_runs(grid: Seq<u8>, size: int, across: bool, line: int, count: int) -> int
    decreases count,
{
    if count <= 0 {
        0
    } else {
        line_runs(grid, size, across, line, count - 1) + if run_ends(
            grid,
            size,
            across,
            line,
            count - 1,
        ) {
            run_score(run_length(grid, size, across, line, count - 1))
        } else {
            0
        }
    }
}

/// Penalty of the runs in the first `lines` rows and columns.
pub open spec fn runs_upto(grid: Seq<u8>, size: int, lines: int) -> int
    decreases lines,
{
    if lines <= 0 {
        0
    } else {
        runs_upto(grid, size, lines - 1) + line_runs(grid, size, true, lines - 1, size)
            + line_runs(grid, size, false, lines - 1, size)
    }
}

/// Penalty of all runs of 5 or more modules of one colour in a row or a
/// column.
pub open spec fn run_penalty(grid: Seq<u8>, size: int) -> int {
    runs_upto(grid, size, size)
}

/// 3 where the square of 2 by 2 modules with its upper left corner at
/// (`x`, `y`) lies in the grid and has one colour.
pub open spec fn block_score(grid: Seq<u8>, size: int, x: int, y: int) -> int {
    if x + 1 < size && y + 1 < size && at(grid, size, x, y) == at(grid, size, x + 1, y) && at(
        grid,
        size,
        x,
        y,
    ) == at(grid, size, x, y + 1) && at(grid, size, x, y) == at(grid, size, x + 1, y + 1) {
        3
    } else {
        0
    }
}

/// Penalty of the squares whose upper left corner lies among the first
/// `count` cells of row `y`.
pub open spec fn blocks_in_row(grid: Seq<u8>, size: int, y: int, count: int) -> int
    decreases count,
{
    if count <= 0 {
        0
    } else {
        blocks_in_row(grid, size, y, count - 1) + block_score(grid, size, count - 1, y)
    }
}

/// Penalty of the squares whose upper left corner lies in the first `rows`
/// rows.
pub open spec fn blocks_upto(grid: Seq<u8>, size: int, rows: int) -> int
    decreases rows,
{
    if rows <= 0 {
        0
    } else {
        blocks_upto(grid, size, rows - 1) + blocks_in_row(grid, size, rows - 1, size)
    }
}

/// Penalty of all squares of 2 by 2 modules of one colour; squares that
/// overlap count each.
pub open spec fn block_penalty(grid: Seq<u8>, size: int) -> int {
    blocks_upto(grid, size, size)
}

/// Module `position` of a line, light beyond both ends of the line.
pub open spec fn sample(grid: Seq<u8>, size: int, across: bool, line: int, position: int) -> u8 {
    if 0 <= position < size {
        line_cell(grid, size, across, line, position)
    } else {
        LIGHT
    }
}

/// The core of a finder pattern with four light modules behind it, after a
/// light module: light, dark, light, three dark, light, dark, four light.
pub open spec fn trailing_pattern(i: int) -> u8 {
    if i == 1 || i == 3 || i == 4 || i == 5 || i == 7 {
        DARK
    } else {
        LIGHT
    }
}

/// The core of a finder pattern with four light modules before it, and a
/// light module behind: four light, dark, light, three dark, light, dark,
/// light.
pub open spec fn leading_pattern(i: int) -> u8 {
    if i == 4 || i == 6 || i == 7 || i == 8 || i == 10 {
        DARK
    } else {
        LIGHT
    }
}

/// Module `i` of the window of 12 modules number `offset` of a line: the
/// window that ends at module `offset`.
pub open spec fn window_cell(
    grid: Seq<u8>,
    size: int,
    across: bool,
    line: int,
    offset: int,
    i: int,
) -> u8 {
    sample(grid, size, across, line, offset - 11 + i)
}

/// Whether window `offset` of a line holds the core of a finder pattern
/// with four light modules behind it.
pub open spec fn window_trails(grid: Seq<u8>, size: int, across: bool, line: int, offset: int) -> bool {
    forall|i: int|
        0 <= i < 12 ==> #[trigger] window_cell(grid, size, across, line, offset, i)
            == trailing_pattern(i)
}

/// Whether window `offset` of a line holds the core of a finder pattern
/// with four light modules before it.
pub open spec fn window_leads(grid: Seq<u8>, size: int, across: bool, line: int, offset: int) -> bool {
    forall|i: int|
        0 <= i < 12 ==> #[trigger] window_cell(grid, size, across, line, offset, i)
            == leading_pattern(i)
}

/// 40 where window `offset` of a line looks like a finder pattern.
pub open spec fn window_score(grid: Seq<u8>, size: int, across: bool, line: int, offset: int) -> int {
    if window_trails(grid, size, across, line, offset) || window_leads(
        grid,
        size,
        across,
        line,
        offset,
    ) {
        40
    } else {
        0
    }
}

/// Penalty of the first `count` windows of a line.
pub open spec fn windows_in_line(
    grid: Seq<u8>,
    size: int,
    across: bool,
    line: int,
    count: int,
) -> int
    decreases count,
{
    if count <= 0 {
        0
    } else {
        windows_in_line(grid, size, across, line, count - 1) + window_score(
            grid,
            size,
            across,
            line,
            count - 1,
        )
    }
}

/// Penalty of the windows in the first `lines` rows and columns.
pub open spec fn windows_upto(grid: Seq<u8>, size: int, lines: int) -> int
    decreases lines,
{
    if lines <= 0 {
        0
    } else {
        windows_upto(grid, size, lines - 1) + windows_in_line(grid, size, true, lines - 1, size + 22)
            + windows_in_line(grid, size, false, lines - 1, size + 22)
    }
}

/// Penalty of all windows of 12 modules in a row or a column that look like
/// a finder pattern. The windows start 11 modules before a line and end 11
/// modules behind it; what lies beyond the line counts as light.
pub open spec fn finder_penalty(grid: Seq<u8>, size: int) -> int {
    windows_upto(grid, size, size)
}

/// Number of dark modules among the first `count` cells.
pub open spec fn dark_count(grid: Seq<u8>, count: int) -> int
    decreases count,
{
    if count <= 0 {
        0
    } else {
        dark_count(grid, count - 1) + if grid[count - 1] == DARK {
            1int
        } else {
            0int
        }
    }
}

/// How far two numbers are apart.
pub open spec fn distance(a: int, b: int) -> int {
    if a >= b {
        a - b
    } else {
        b - a
    }
}

/// Penalty for the share of dark modules: the share in percent is taken
/// down to a multiple of 5; of that and the next multiple the one nearer to
/// 50 counts with 10 for every 5 it is away.
pub open spec fn ratio_penalty(grid: Seq<u8>) -> int {
    let dark = dark_count(grid, grid.len() as int);
    let previous = (dark * 20 / (grid.len() as int)) * 5;
    let near = if distance(previous, 50) <= distance(previous + 5, 50) {
        distance(previous, 50)
    } else {
        distance(previous + 5, 50)
    };
    10 * near / 5
}

/// The penalty of a grid: the sum of the four.
pub open spec fn penalty(grid: Seq<u8>, size: int) -> int {
    run_penalty(grid, size) + ratio_penalty(grid) + block_penalty(grid, size) + finder_penalty(
        grid,
        size,
    )
}

/// A run that ends at module `i` has between 1 and `i + 1` modules.
pub proof fn lemma_run_length_bounds(grid: Seq<u8>, size: int, across: bool, line: int, i: int)
    requires
        0 <= i,
    ensures
        1 <= run_length(grid, size, across, line, i) <= i + 1,
    decreases i,
{
    if i > 0 {
        lemma_run_length_bounds(grid, size, across, line, i - 1);
    }
}

/// Runs that have ended and the run that is going on share the modules of
/// the line so far.
pub proof fn lemma_line_runs_bounds(grid: Seq<u8>, size: int, across: bool, line: int, count: int)
    requires
        0 <= count <= size,
    ensures
        0 <= line_runs(grid, size, across, line, count),
        line_runs(grid, size, across, line, count) + if count > 0 && !run_ends(
            grid,
            size,
            across,
            line,
            count - 1,
        ) {
            run_length(grid, size, across, line, count - 1)
        } else {
            0
        } <= count,
    decreases count,
{
    if count > 0 {
        lemma_line_runs_bounds(grid, size, across, line, count - 1);
        lemma_run_length_bounds(grid, size, across, line, count - 1);
        if count > 1 {
            lemma_run_length_bounds(grid, size, across, line, count - 2);
        }
    }
}

/// The runs in the first rows and columns cost no more than these have
/// modules.
pub proof fn lemma_runs_bounds(grid: Seq<u8>, size: int, lines: int)
    requires
        0 <= lines,
        0 <= size,
    ensures
        0 <= runs_upto(grid, size, lines) <= 2 * size * lines,
    decreases lines,
{
    if lines > 0 {
        lemma_runs_bounds(grid, size, lines - 1);
        lemma_line_runs_bounds(grid, size, true, lines - 1, size);
        lemma_line_runs_bounds(grid, size, false, lines - 1, size);
        assert(2 * size * (lines - 1) + 2 * size == 2 * size * lines) by (nonlinear_arith);
    } else {
        assert(2 * size * lines == 0) by (nonlinear_arith)
            requires
                lines == 0,
        ;
    }
}

/// The squares of a row cost no more than 3 for each of its cells.
pub proof fn lemma_blocks_in_row_bounds(grid: Seq<u8>, size: int, y: int, count: int)
    requires
        0 <= count,
    ensures
        0 <= blocks_in_row(grid, size, y, count) <= 3 * count,
    decreases count,
{
    if count > 0 {
        lemma_blocks_in_row_bounds(grid, size, y, count - 1);
    }
}

/// The squares of the first rows cost no more than 3 for each of their
/// cells.
pub proof fn lemma_blocks_bounds(grid: Seq<u8>, size: int, rows: int)
    requires
        0 <= rows,
        0 <= size,
    ensures
        0 <= blocks_upto(grid, size, rows) <= 3 * size * rows,
    decreases rows,
{
    if rows > 0 {
        lemma_blocks_bounds(grid, size, rows - 1);
        lemma_blocks_in_row_bounds(grid, size, rows - 1, size);
        assert(3 * size * (rows - 1) + 3 * size == 3 * size * rows) by (nonlinear_arith);
    } else {
        assert(3 * size * rows == 0) by (nonlinear_arith)
            requires
                rows == 0,
        ;
    }
}

/// The windows of a line cost no more than 40 each.
pub proof fn lemma_windows_in_line_bounds(
    grid: Seq<u8>,
    size: int,
    across: bool,
    line: int,
    count: int,
)
    requires
        0 <= count,
    ensures
        0 <= windows_in_line(grid, size, across, line, count) <= 40 * count,
    decreases count,
{
    if count > 0 {
        lemma_windows_in_line_bounds(grid, size, across, line, count - 1);
    }
}

/// The windows of the first rows and columns cost no more than 80 for each
/// place of a row.
pub proof fn lemma_windows_bounds(grid: Seq<u8>, size: int, lines: int)
    requires
        0 <= lines,
        0 <= size,
    ensures
        0 <= windows_upto(grid, size, lines) <= 80 * (size + 22) * lines,
    decreases lines,
{
    if lines > 0 {
        lemma_windows_bounds(grid, size, lines - 1);
        lemma_windows_in_line_bounds(grid, size, true, lines - 1, size + 22);
        lemma_windows_in_line_bounds(grid, size, false, lines - 1, size + 22);
        assert(80 * (size + 22) * (lines - 1) + 80 * (size + 22) == 80 * (size + 22) * lines)
            by (nonlinear_arith);
    } else {
        assert(80 * (size + 22) * lines == 0) by (nonlinear_arith)
            requires
                lines == 0,
        ;
    }
}

} // verus!
