//! Computing the penalty of the grid of a symbol.

use crate::drawer::penalty::{
    block_penalty, blocks_in_row, blocks_upto, dark_count, finder_penalty, leading_pattern,
    lemma_blocks_bounds, lemma_line_runs_bounds, lemma_run_length_bounds, lemma_runs_bounds,
    lemma_windows_bounds, line_cell, line_runs, penalty, ratio_penalty, run_ends, run_length,
    run_penalty, runs_upto, trailing_pattern, window_cell, window_score, windows_in_line,
    windows_upto,
};
use crate::drawer::qr::QR;
use vstd::prelude::*;

verus! {

/// Length of the run that is going on after `count` modules of a line.
spec fn pending(grid: Seq<u8>, size: int, across: bool, line: int, count: int) -> int {
    if count > 0 && !run_ends(grid, size, across, line, count - 1) {
        run_length(grid, size, across, line, count - 1)
    } else {
        0
    }
}

impl QR {
    /// Module `i` of row `line` where `across` holds, of column `line` where
    /// it does not.
    fn get_line_module(&self, across: bool, line: usize, i: usize) -> (color: u8)
        requires
            self.well_formed(),
            line < self.size,
            i < self.size,
        ensures
            color == line_cell(self.matrix@, self.size as int, across, line as int, i as int),
    {
        if across {
            self.get_module(i, line)
        } else {
            self.get_module(line, i)
        }
    }

    /// Adds to a penalty what module `x` of a line brings: the score of the
    /// run that ends there, if one does.
    fn count_run(&self, across: bool, line: usize, x: usize, streak: &mut u32, total: &mut u32)
        requires
            self.well_formed(),
            line < self.size,
            x < self.size,
            *old(streak) == pending(
                self.matrix@,
                self.size as int,
                across,
                line as int,
                x as int,
            ),
            *old(total) <= 1000000,
        ensures
            *final(streak) == pending(self.matrix@, self.size as int, across, line as int, x + 1),
            *final(total) == *old(total) + line_runs(
                self.matrix@,
                self.size as int,
                across,
                line as int,
                x + 1,
            ) - line_runs(self.matrix@, self.size as int, across, line as int, x as int),
    {
        proof {
            lemma_run_length_bounds(self.matrix@, self.size as int, across, line as int, x as int);
            if x > 0 {
                lemma_run_length_bounds(self.matrix@, self.size as int, across, line as int, x - 1);
            }
        }
        *streak += 1;
        let same: bool = x + 1 < self.size && self.get_line_module(across, line, x)
            == self.get_line_module(across, line, x + 1);
        if !same {
            if *streak >= 5 {
                *total += 3 + (*streak - 5);
            }
            *streak = 0;
        }
    }

    /// The penalty of the runs: every run of 5 or more modules of one colour
    /// in a row or a column counts 3, and 1 more for every module beyond
    /// the fifth.
    pub fn get_run_penalty(&self) -> (penalty: u32)
        requires
            self.well_formed(),
        ensures
            penalty == run_penalty(self.matrix@, self.size as int),
    {
        let size: usize = self.size;
        let mut penalty: u32 = 0;
        let mut y: usize = 0;
        while y < size
            invariant
                y <= size,
                size == self.size,
                self.well_formed(),
                penalty == runs_upto(self.matrix@, size as int, y as int),
                penalty <= 354 * y,
            decreases size - y,
        {
            let mut x_streak: u32 = 0;
            let mut y_streak: u32 = 0;
            let ghost base = penalty;
            let mut x: usize = 0;
            while x < size
                invariant
                    x <= size,
                    y < size,
                    size == self.size,
                    self.well_formed(),
                    base <= 354 * y,
                    x_streak == pending(self.matrix@, size as int, true, y as int, x as int),
                    y_streak == pending(self.matrix@, size as int, false, y as int, x as int),
                    penalty == base + line_runs(self.matrix@, size as int, true, y as int, x as int)
                        + line_runs(self.matrix@, size as int, false, y as int, x as int),
                    penalty <= base + 2 * x,
                decreases size - x,
            {
                proof {
                    lemma_line_runs_bounds(self.matrix@, size as int, true, y as int, x as int);
                    lemma_line_runs_bounds(self.matrix@, size as int, false, y as int, x as int);
                    lemma_line_runs_bounds(self.matrix@, size as int, true, y as int, x + 1);
                    lemma_line_runs_bounds(self.matrix@, size as int, false, y as int, x + 1);
                }
                self.count_run(true, y, x, &mut x_streak, &mut penalty);
                self.count_run(false, y, x, &mut y_streak, &mut penalty);
                x += 1;
            }
            y += 1;
        }
        penalty
    }

    /// The penalty of the blocks: every square of 2 by 2 modules of one
    /// colour counts 3.
    pub fn get_block_penalty(&self) -> (penalty: u32)
        requires
            self.well_formed(),
        ensures
            penalty == block_penalty(self.matrix@, self.size as int),
    {
        let size: usize = self.size;
        let mut penalty: u32 = 0;
        let mut y: usize = 0;
        while y < size
            invariant
                y <= size,
                size == self.size,
                self.well_formed(),
                penalty == blocks_upto(self.matrix@, size as int, y as int),
                penalty <= 531 * y,
            decreases size - y,
        {
            let ghost base = penalty;
            let mut x: usize = 0;
            while x < size
                invariant
                    x <= size,
                    y < size,
                    size == self.size,
                    self.well_formed(),
                    base <= 531 * y,
                    penalty == base + blocks_in_row(self.matrix@, size as int, y as int, x as int),
                    penalty <= base + 3 * x,
                decreases size - x,
            {
                let in_bounds: bool = x + 1 < size && y + 1 < size;
                if in_bounds {
                    let a: u8 = self.get_module(x, y);
                    let b: u8 = self.get_module(x + 1, y);
                    let c: u8 = self.get_module(x, y + 1);
                    let d: u8 = self.get_module(x + 1, y + 1);
                    if a == b && b == c && c == d {
                        penalty += 3;
                    }
                }
                x += 1;
            }
            y += 1;
        }
        penalty
    }

    /// Whether window `offset` of a line looks like a finder pattern.
    fn window_matches(&self, across: bool, line: usize, offset: usize) -> (matches: bool)
        requires
            self.well_formed(),
            line < self.size,
            offset < self.size + 22,
        ensures
            matches == (window_score(
                self.matrix@,
                self.size as int,
                across,
                line as int,
                offset as int,
            ) == 40),
    {
        let size: usize = self.size;
        let mut trails: bool = true;
        let mut leads: bool = true;
        let mut i: usize = 0;
        while i < 12
            invariant
                i <= 12,
                size == self.size,
                self.well_formed(),
                line < size,
                offset < size + 22,
                trails == (forall|k: int|
                    0 <= k < i ==> #[trigger] window_cell(
                        self.matrix@,
                        size as int,
                        across,
                        line as int,
                        offset as int,
                        k,
                    ) == trailing_pattern(k)),
                leads == (forall|k: int|
                    0 <= k < i ==> #[trigger] window_cell(
                        self.matrix@,
                        size as int,
                        across,
                        line as int,
                        offset as int,
                        k,
                    ) == leading_pattern(k)),
            decreases 12 - i,
        {
            let position: usize = offset + i;
            let color: u8 = if position >= 11 && position - 11 < size {
                self.get_line_module(across, line, position - 11)
            } else {
                255
            };
            assert(color == window_cell(
                self.matrix@,
                size as int,
                across,
                line as int,
                offset as int,
                i as int,
            ));
            let trailing: u8 = if i == 1 || i == 3 || i == 4 || i == 5 || i == 7 {
                0
            } else {
                255
            };
            let leading: u8 = if i == 4 || i == 6 || i == 7 || i == 8 || i == 10 {
                0
            } else {
                255
            };
            if color != trailing {
                trails = false;
            }
            if color != leading {
                leads = false;
            }
            i += 1;
        }
        trails || leads
    }

    /// The penalty of the finder look-alikes: every window of 12 modules in
    /// a row or a column that holds the core of a finder pattern next to
    /// four light modules counts 40.
    pub fn get_finder_penalty(&self) -> (penalty: u32)
        requires
            self.well_formed(),
        ensures
            penalty == finder_penalty(self.matrix@, self.size as int),
    {
        let size: usize = self.size;
        let mut penalty: u32 = 0;
        let mut y: usize = 0;
        while y < size
            invariant
                y <= size,
                size == self.size,
                self.well_formed(),
                penalty == windows_upto(self.matrix@, size as int, y as int),
                penalty <= 15920 * y,
            decreases size - y,
        {
            let ghost base = penalty;
            let mut offset: usize = 0;
            while offset < size + 22
                invariant
                    offset <= size + 22,
                    y < size,
                    size == self.size,
                    self.well_formed(),
                    base <= 15920 * y,
                    penalty == base + windows_in_line(
                        self.matrix@,
                        size as int,
                        true,
                        y as int,
                        offset as int,
                    ) + windows_in_line(self.matrix@, size as int, false, y as int, offset as int),
                    penalty <= base + 80 * offset,
                decreases size + 22 - offset,
            {
                if self.window_matches(true, y, offset) {
                    penalty += 40;
                }
                if self.window_matches(false, y, offset) {
                    penalty += 40;
                }
                offset += 1;
            }
            y += 1;
        }
        penalty
    }

    /// The penalty of the share of dark modules: 10 for every 5 percent
    /// that the share, taken to the nearer of the two multiples of 5 around
    /// it, is away from 50 percent.
    pub fn get_ratio_penalty(&self) -> (penalty: u32)
        requires
            self.well_formed(),
        ensures
            penalty == ratio_penalty(self.matrix@),
            penalty <= 100,
    {
        let total: usize = self.matrix.len();
        proof {
            assert(441 <= self.size * self.size <= 31329) by (nonlinear_arith)
                requires
                    21 <= self.size <= 177,
            ;
        }
        let mut dark: usize = 0;
        let mut i: usize = 0;
        while i < total
            invariant
                i <= total,
                total == self.matrix@.len(),
                dark == dark_count(self.matrix@, i as int),
                dark <= i,
            decreases total - i,
        {
            if self.matrix[i] == 0 {
                dark += 1;
            }
            i += 1;
        }
        assert(0 <= (dark * 20) as int / (total as int) <= 20) by (nonlinear_arith)
            requires
                0 <= dark <= total,
                total > 0,
        ;
        let previous: usize = dark * 20 / total * 5;
        let next: usize = previous + 5;
        let from_previous: usize = if previous >= 50 {
            previous - 50
        } else {
            50 - previous
        };
        let from_next: usize = if next >= 50 {
            next - 50
        } else {
            50 - next
        };
        let near: usize = if from_previous <= from_next {
            from_previous
        } else {
            from_next
        };
        (10 * near / 5) as u32
    }

    /// The penalty of the grid: the sum of the four penalties.
    pub fn get_penalty(&self) -> (total: u32)
        requires
            self.well_formed(),
        ensures
            total == penalty(self.matrix@, self.size as int),
            total < 3000000,
    {
        proof {
            let size = self.size as int;
            lemma_runs_bounds(self.matrix@, size, size);
            lemma_blocks_bounds(self.matrix@, size, size);
            lemma_windows_bounds(self.matrix@, size, size);
            assert(2 * size * size <= 62658 && 3 * size * size <= 93987 && 80 * (size + 22) * size
                <= 2817840) by (nonlinear_arith)
                requires
                    0 <= size <= 177,
            ;
        }
        let runs: u32 = self.get_run_penalty();
        let ratio: u32 = self.get_ratio_penalty();
        let blocks: u32 = self.get_block_penalty();
        let finders: u32 = self.get_finder_penalty();
        runs + ratio + blocks + finders
    }
}

} // verus!
