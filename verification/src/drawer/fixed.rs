//! Drawing the fixed patterns.

use crate::drawer::grid::{at, color_of, inside, side, DARK, LIGHT, UNSET};
use crate::drawer::patterns::{
    alignment_paint, alignment_paint_upto, alignment_ring, alternating, finder_paint, finder_ring,
    initial_paint, lemma_covering_found, lemma_covering_near, reserve_paint, stamp_paint,
    version_paint,
};
use crate::drawer::qr::QR;
use crate::tables::alignment::{
    alignment_positions, as_ints, get_alignment_pattern_locations, lemma_alignment_positions,
    lemma_no_alignment,
};
use crate::tables::version::{get_version_bitstring, version_bit};
use vstd::prelude::*;

verus! {

/// The first `count` cells of the two separators of a finder square.
spec fn separators_upto(
    startx: int,
    starty: int,
    sx: int,
    sy: int,
    count: int,
    x: int,
    y: int,
    old: u8,
) -> u8 {
    if (y == starty + sy && startx <= x < startx + count) || (x == startx + sx && starty <= y
        < starty + count) {
        LIGHT
    } else {
        old
    }
}

/// The first `rows` rows of a finder pattern with its corner at (`ox`,
/// `oy`), and the first `columns` cells of the next row.
spec fn finder_upto(ox: int, oy: int, rows: int, columns: int, x: int, y: int, old: u8) -> u8 {
    let px = x - ox;
    let py = y - oy;
    if 0 <= px < 7 && 0 <= py < 7 && (py < rows || (py == rows && px < columns)) {
        finder_ring(px, py)
    } else {
        old
    }
}

/// The first `rows` rows of an alignment pattern around (`cx`, `cy`), and
/// the first `columns` cells of the next row.
spec fn stamp_upto(cx: int, cy: int, rows: int, columns: int, x: int, y: int, old: u8) -> u8 {
    let dx = x - cx;
    let dy = y - cy;
    if -2 <= dx <= 2 && -2 <= dy <= 2 && (dy + 2 < rows || (dy + 2 == rows && dx + 2 < columns)) {
        alignment_ring(dx, dy)
    } else {
        old
    }
}

/// The first `count` cells of both timing patterns.
spec fn timing_upto(count: int, x: int, y: int, old: u8) -> u8 {
    if y == 6 && 0 <= x < count {
        alternating(x)
    } else if x == 6 && 0 <= y < count {
        alternating(y)
    } else {
        old
    }
}

/// The dark module, the cell at (8, 8) and the cells kept free for the
/// format information of the first `count` steps along the four strips.
spec fn reserve_upto(size: int, count: int, x: int, y: int, old: u8) -> u8 {
    if x == 8 && y == size - 8 {
        DARK
    } else if x == 8 && y == 8 {
        LIGHT
    } else if old == UNSET && ((x == 8 && (0 <= y < count || size - count <= y < size)) || (y == 8
        && (0 <= x < count || size - count <= x < size))) {
        LIGHT
    } else {
        old
    }
}

/// The cells of both copies of the version information that hold the first
/// `count` bits.
spec fn version_upto(version: int, count: int, x: int, y: int, old: u8) -> u8 {
    let size = side(version);
    if 0 <= x < 6 && size - 11 <= y <= size - 9 && (5 - x) * 3 + (size - 9 - y) < count {
        color_of(version_bit(version, (5 - x) * 3 + (size - 9 - y)))
    } else if 0 <= y < 6 && size - 11 <= x <= size - 9 && (5 - y) * 3 + (size - 9 - x) < count {
        color_of(version_bit(version, (5 - y) * 3 + (size - 9 - x)))
    } else {
        old
    }
}

impl QR {
    /// Draws the finder pattern of the square of 8 by 8 modules at
    /// (`startx`, `starty`), with its separators on the sides that face the
    /// middle of the symbol.
    pub fn draw_finder_pattern(&mut self, startx: usize, starty: usize)
        requires
            old(self).well_formed(),
            startx + 8 <= old(self).size,
            starty + 8 <= old(self).size,
        ensures
            final(self).painted_from(
                old(self),
                |x: int, y: int, c: u8|
                    finder_paint(old(self).size as int, startx as int, starty as int, x, y, c),
            ),
    {
        let is_right: bool = startx > self.size / 2;
        let is_bottom: bool = starty > self.size / 2;
        let separator_x: usize = if is_right {
            0
        } else {
            7
        };
        let separator_y: usize = if is_bottom {
            0
        } else {
            7
        };
        let mut i: usize = 0;
        while i < 8
            invariant
                i <= 8,
                startx + 8 <= self.size,
                starty + 8 <= self.size,
                separator_x < 8,
                separator_y < 8,
                self.painted_from(
                    old(self),
                    |x: int, y: int, c: u8|
                        separators_upto(
                            startx as int,
                            starty as int,
                            separator_x as int,
                            separator_y as int,
                            i as int,
                            x,
                            y,
                            c,
                        ),
                ),
            decreases 8 - i,
        {
            self.set_module(startx + i, starty + separator_y, 255);
            self.set_module(startx + separator_x, starty + i, 255);
            i += 1;
        }
        let ghost lined = *self;
        let offset_x: usize = if is_right {
            startx + 1
        } else {
            startx
        };
        let offset_y: usize = if is_bottom {
            starty + 1
        } else {
            starty
        };
        let mut y: usize = 0;
        while y < 7
            invariant
                y <= 7,
                offset_x + 7 <= self.size,
                offset_y + 7 <= self.size,
                lined.well_formed(),
                self.painted_from(
                    &lined,
                    |a: int, b: int, c: u8|
                        finder_upto(offset_x as int, offset_y as int, y as int, 0, a, b, c),
                ),
            decreases 7 - y,
        {
            let mut x: usize = 0;
            while x < 7
                invariant
                    x <= 7,
                    y < 7,
                    offset_x + 7 <= self.size,
                    offset_y + 7 <= self.size,
                    lined.well_formed(),
                    self.painted_from(
                        &lined,
                        |a: int, b: int, c: u8|
                            finder_upto(
                                offset_x as int,
                                offset_y as int,
                                y as int,
                                x as int,
                                a,
                                b,
                                c,
                            ),
                    ),
                decreases 7 - x,
            {
                let is_border: bool = x == 0 || y == 0 || x == 6 || y == 6;
                let is_inner: bool = x >= 2 && x <= 4 && y >= 2 && y <= 4;
                let color: u8 = if is_border || is_inner {
                    0
                } else {
                    255
                };
                self.set_module(offset_x + x, offset_y + y, color);
                x += 1;
            }
            y += 1;
        }
    }

    /// Draws one alignment pattern around the centre (`cx`, `cy`).
    pub fn draw_alignment_pattern(&mut self, cx: usize, cy: usize)
        requires
            old(self).well_formed(),
            2 <= cx,
            cx + 2 < old(self).size,
            2 <= cy,
            cy + 2 < old(self).size,
        ensures
            final(self).painted_from(
                old(self),
                |x: int, y: int, c: u8| stamp_paint(cx as int, cy as int, x, y, c),
            ),
    {
        let mut i: usize = 0;
        while i < 5
            invariant
                i <= 5,
                2 <= cx,
                cx + 2 < self.size,
                2 <= cy,
                cy + 2 < self.size,
                self.painted_from(
                    old(self),
                    |x: int, y: int, c: u8| stamp_upto(cx as int, cy as int, i as int, 0, x, y, c),
                ),
            decreases 5 - i,
        {
            let mut j: usize = 0;
            while j < 5
                invariant
                    j <= 5,
                    i < 5,
                    2 <= cx,
                    cx + 2 < self.size,
                    2 <= cy,
                    cy + 2 < self.size,
                    self.painted_from(
                        old(self),
                        |x: int, y: int, c: u8|
                            stamp_upto(cx as int, cy as int, i as int, j as int, x, y, c),
                    ),
                decreases 5 - j,
            {
                let x: usize = (cx - 2) + j;
                let y: usize = (cy - 2) + i;
                let is_center: bool = x == cx && y == cy;
                let is_border: bool = i == 0 || i == 4 || j == 0 || j == 4;
                self.set_module(
                    x,
                    y,
                    if is_border || is_center {
                        0
                    } else {
                        255
                    },
                );
                j += 1;
            }
            i += 1;
        }
    }

    /// Draws the alignment patterns of the version: one around every pair
    /// of centre coordinates, but for those in the corners of the finder
    /// patterns.
    pub fn draw_alignment_patterns(&mut self)
        requires
            old(self).well_formed(),
        ensures
            final(self).painted_from(
                old(self),
                |x: int, y: int, c: u8| alignment_paint(old(self).version as int, x, y, c),
            ),
    {
        let alignment_positions = get_alignment_pattern_locations(self.version);
        let ghost version = self.version as int;
        let ghost positions = crate::tables::alignment::alignment_positions(version);
        let count: usize = alignment_positions.len();
        proof {
            assert(as_ints(alignment_positions@).len() == count);
            if version >= 2 {
                lemma_alignment_positions(version);
            } else {
                lemma_no_alignment(version);
            }
            assert forall|x: int, y: int, c: u8|
                alignment_paint_upto(version, 0, 0, x, y, c) == c by {
                lemma_covering_near(positions, positions.len(), x);
                lemma_covering_near(positions, positions.len(), y);
            }
        }
        let mut a: usize = 0;
        while a < count
            invariant
                a <= count,
                version == self.version,
                positions == crate::tables::alignment::alignment_positions(version),
                as_ints(alignment_positions@) == positions,
                count == positions.len(),
                count == 0 || (2 <= version <= 40 && count == version / 7 + 2 && positions[0] == 6
                    && positions[count - 1] == 4 * version + 10),
                forall|k: int|
                    0 <= k < positions.len() - 1 ==> positions[k] + 12 <= #[trigger] positions[k
                        + 1],
                self.painted_from(
                    old(self),
                    |x: int, y: int, c: u8| alignment_paint_upto(version, a as int, 0, x, y, c),
                ),
            decreases count - a,
        {
            let mut b: usize = 0;
            while b < count
                invariant
                    b <= count,
                    a < count,
                    version == self.version,
                    positions == crate::tables::alignment::alignment_positions(version),
                    as_ints(alignment_positions@) == positions,
                    count == positions.len(),
                    2 <= version <= 40 && count == version / 7 + 2 && positions[0] == 6
                        && positions[count - 1] == 4 * version + 10,
                    forall|k: int|
                        0 <= k < positions.len() - 1 ==> positions[k] + 12
                            <= #[trigger] positions[k + 1],
                    self.painted_from(
                        old(self),
                        |x: int, y: int, c: u8|
                            alignment_paint_upto(version, a as int, b as int, x, y, c),
                    ),
                decreases count - b,
            {
                let cx: usize = alignment_positions[b];
                let cy: usize = alignment_positions[a];
                proof {
                    assert(cx == as_ints(alignment_positions@)[b as int]);
                    assert(cy == as_ints(alignment_positions@)[a as int]);
                    crate::drawer::patterns::lemma_positions_apart(positions, 0, b as int);
                    crate::drawer::patterns::lemma_positions_apart(positions, 0, a as int);
                    crate::drawer::patterns::lemma_positions_apart(positions, b as int, count - 1);
                    crate::drawer::patterns::lemma_positions_apart(positions, a as int, count - 1);
                }
                let in_top_left: bool = cx < 8 && cy < 8;
                let in_top_right: bool = cx >= self.size - 8 && cy < 8;
                let in_bottom_left: bool = cx < 8 && cy >= self.size - 8;
                let ghost before = *self;
                if !(in_top_left || in_top_right || in_bottom_left) {
                    self.draw_alignment_pattern(cx, cy);
                }
                proof {
                    assert forall|x: int, y: int| inside(self.size as int, x, y) implies #[trigger] at(
                        self.matrix@,
                        self.size as int,
                        x,
                        y,
                    ) == alignment_paint_upto(
                        version,
                        a as int,
                        b + 1,
                        x,
                        y,
                        at(old(self).matrix@, old(self).size as int, x, y),
                    ) by {
                        let c = at(old(self).matrix@, old(self).size as int, x, y);
                        assert(at(before.matrix@, before.size as int, x, y) == alignment_paint_upto(
                            version,
                            a as int,
                            b as int,
                            x,
                            y,
                            c,
                        ));
                        lemma_covering_near(positions, positions.len(), x);
                        lemma_covering_near(positions, positions.len(), y);
                        if cx - 2 <= x <= cx + 2 {
                            lemma_covering_found(positions, positions.len(), x, b as int);
                        }
                        if cy - 2 <= y <= cy + 2 {
                            lemma_covering_found(positions, positions.len(), y, a as int);
                        }
                    }
                }
                b += 1;
            }
            proof {
                assert forall|x: int, y: int, c: u8|
                    alignment_paint_upto(version, a as int, count as int, x, y, c)
                        == alignment_paint_upto(version, a + 1, 0, x, y, c) by {
                    lemma_covering_near(positions, positions.len(), x);
                    lemma_covering_near(positions, positions.len(), y);
                }
            }
            a += 1;
        }
    }

    /// Draws the timing patterns along row 6 and column 6, then the
    /// alignment patterns, then the finder patterns in the upper left, the
    /// lower left and the upper right corner.
    pub fn draw_initial_patterns(&mut self)
        requires
            old(self).well_formed(),
        ensures
            final(self).painted_from(
                old(self),
                |x: int, y: int, c: u8| initial_paint(old(self).version as int, x, y, c),
            ),
    {
        let mut i: usize = 0;
        while i < self.size
            invariant
                i <= self.size,
                self.painted_from(old(self), |x: int, y: int, c: u8| timing_upto(i as int, x, y, c)),
            decreases self.size - i,
        {
            let color: u8 = if i % 2 == 0 {
                0
            } else {
                255
            };
            self.set_module(i, 6, color);
            self.set_module(6, i, color);
            i += 1;
        }
        self.draw_alignment_patterns();
        self.draw_finder_pattern(0, 0);
        let size: usize = self.size;
        self.draw_finder_pattern(0, size - 8);
        self.draw_finder_pattern(size - 8, 0);
    }

    /// Draws the dark module and makes the cells of the format information
    /// light where they are still free, so that no data is placed there.
    pub fn draw_dummy_format_areas(&mut self)
        requires
            old(self).well_formed(),
        ensures
            final(self).painted_from(
                old(self),
                |x: int, y: int, c: u8| reserve_paint(old(self).size as int, x, y, c),
            ),
    {
        let size: usize = self.size;
        self.set_module(8, 4 * self.version + 9, 0);
        self.set_module(8, 8, 255);
        let mut i: usize = 0;
        while i < 8
            invariant
                i <= 8,
                size == self.size,
                self.painted_from(
                    old(self),
                    |x: int, y: int, c: u8| reserve_upto(size as int, i as int, x, y, c),
                ),
            decreases 8 - i,
        {
            let pos: usize = size - i - 1;
            if self.get_module(8, pos) == 128 {
                self.set_module(8, pos, 255);
            }
            if self.get_module(pos, 8) == 128 {
                self.set_module(pos, 8, 255);
            }
            if self.get_module(i, 8) == 128 {
                self.set_module(i, 8, 255);
            }
            if self.get_module(8, i) == 128 {
                self.set_module(8, i, 255);
            }
            i += 1;
        }
    }

    /// Draws both copies of the version information. Versions below 7 have
    /// none.
    pub fn draw_version_info(&mut self)
        requires
            old(self).well_formed(),
        ensures
            final(self).painted_from(
                old(self),
                |x: int, y: int, c: u8| version_paint(old(self).version as int, x, y, c),
            ),
    {
        if self.version < 7 {
            return ;
        }
        let bitstring = get_version_bitstring(self.version);
        let size: usize = self.size;
        let ghost version = self.version as int;
        let mut index: usize = 0;
        let mut x: usize = 0;
        while x < 6
            invariant
                x <= 6,
                index == 3 * x,
                size == self.size,
                version == self.version,
                7 <= version <= 40,
                bitstring@.len() == 18,
                forall|i: int| 0 <= i < 18 ==> bitstring@[i] == version_bit(version, i),
                self.painted_from(
                    old(self),
                    |a: int, b: int, c: u8| version_upto(version, index as int, a, b, c),
                ),
            decreases 6 - x,
        {
            let mut y: usize = 0;
            while y < 3
                invariant
                    y <= 3,
                    x < 6,
                    index == 3 * x + y,
                    size == self.size,
                    version == self.version,
                    7 <= version <= 40,
                    bitstring@.len() == 18,
                    forall|i: int| 0 <= i < 18 ==> bitstring@[i] == version_bit(version, i),
                    self.painted_from(
                        old(self),
                        |a: int, b: int, c: u8| version_upto(version, index as int, a, b, c),
                    ),
                decreases 3 - y,
            {
                let color: u8 = if bitstring[index] == 0 {
                    255
                } else {
                    0
                };
                self.set_module(5 - x, size - 9 - y, color);
                self.set_module(size - 9 - y, 5 - x, color);
                index += 1;
                y += 1;
            }
            x += 1;
        }
    }
}

} // verus!
