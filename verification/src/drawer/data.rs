//! Placing the data under a mask and drawing the format information.

use crate::drawer::grid::{at, color_of, inside, UNSET};
use crate::drawer::placement::{
    advanced, data_paint, data_paint_upto, format_index, format_paint, free, free_in_pairs,
    free_in_steps, pair_column, pair_count, placed_color, rank,
};
use crate::drawer::qr::{mask_applies, payload_bit, QR};
use crate::tables::format::{format_bit, get_format_bits};
use vstd::prelude::*;

verus! {

/// The format information in the cells that hold its first `count` bits,
/// and in the cell right of the gap in row 8.
spec fn format_upto(
    size: int,
    level: int,
    mask: int,
    count: int,
    x: int,
    y: int,
    old: u8,
) -> u8 {
    match format_index(size, x, y) {
        Some(i) => if i < count || (y == 8 && x == size - 8) {
            color_of(format_bit(level, mask, i))
        } else {
            old
        },
        None => old,
    }
}

impl QR {
    /// Gives an unset cell the next bit of the codewords under a mask.
    /// Any other cell stays as it is.
    fn place_bit(&mut self, x: usize, y: usize, mask_index: usize)
        requires
            old(self).well_formed(),
            x < old(self).size,
            y < old(self).size,
        ensures
            final(self).well_formed(),
            final(self).same_plan(old(self)),
            final(self).cursor() == advanced(
                old(self).cursor(),
                free(old(self).matrix@, old(self).size as int, x as int, y as int),
                old(self).data@.len() as int,
            ),
            forall|a: int, b: int|
                inside(final(self).size as int, a, b) ==> #[trigger] at(
                    final(self).matrix@,
                    final(self).size as int,
                    a,
                    b,
                ) == if a == x && b == y && at(old(self).matrix@, old(self).size as int, a, b)
                    == UNSET {
                    placed_color(
                        payload_bit(old(self).data@, old(self).cursor()),
                        mask_applies(mask_index as int, a, b),
                    )
                } else {
                    at(old(self).matrix@, old(self).size as int, a, b)
                },
    {
        if self.get_module(x, y) == 128 {
            let mask: u8 = self.get_mask_rule(x, y, mask_index);
            let raw: u8 = self.get_next_bit();
            let bit: u8 = raw ^ mask;
            assert(bit == 0 <==> raw == mask) by (bit_vector)
                requires
                    bit == raw ^ mask,
            ;
            let color: u8 = self.get_color(bit);
            self.set_module(x, y, color);
        }
    }

    /// Places the bits of the codewords in the unset cells, inverted where
    /// the mask applies: along pairs of columns from the right edge to the
    /// left one and past column 6, upwards in the first pair, downwards in
    /// the next and so on, in every row the right cell first. Cells left
    /// over after the last codeword take the bit 0.
    pub fn draw_and_mask_data_bits(&mut self, mask_index: usize)
        requires
            old(self).well_formed(),
        ensures
            final(self).well_formed(),
            final(self).same_plan(old(self)),
            final(self).cursor() == advanced(
                old(self).cursor(),
                free_in_pairs(
                    old(self).matrix@,
                    old(self).size as int,
                    pair_count(old(self).size as int),
                ),
                old(self).data@.len() as int,
            ),
            forall|x: int, y: int|
                inside(final(self).size as int, x, y) ==> #[trigger] at(
                    final(self).matrix@,
                    final(self).size as int,
                    x,
                    y,
                ) == data_paint(
                    old(self).matrix@,
                    old(self).size as int,
                    old(self).data@,
                    old(self).cursor(),
                    mask_index as int,
                    x,
                    y,
                ),
    {
        let size: usize = self.size;
        let pairs: usize = (size - 1) / 2;
        let ghost grid = self.matrix@;
        let ghost start = self.cursor();
        let ghost len = self.data@.len() as int;
        let mut k: usize = 0;
        while k < pairs
            invariant
                k <= pairs,
                size == self.size,
                pairs == pair_count(size as int),
                size % 2 == 1,
                size >= 21,
                self.well_formed(),
                self.same_plan(old(self)),
                grid == old(self).matrix@,
                start == old(self).cursor(),
                len == self.data@.len(),
                0 <= start <= 8 * len,
                free_in_pairs(grid, size as int, k as int) >= 0,
                self.cursor() == advanced(start, free_in_pairs(grid, size as int, k as int), len),
                forall|x: int, y: int|
                    inside(size as int, x, y) ==> #[trigger] at(self.matrix@, size as int, x, y)
                        == data_paint_upto(
                        grid,
                        size as int,
                        self.data@,
                        start,
                        mask_index as int,
                        k as int,
                        0,
                        x,
                        y,
                    ),
            decreases pairs - k,
        {
            let right: usize = if size - 1 - 2 * k <= 6 {
                size - 2 - 2 * k
            } else {
                size - 1 - 2 * k
            };
            let mut r: usize = 0;
            while r < size
                invariant
                    r <= size,
                    k < pairs,
                    size == self.size,
                    pairs == pair_count(size as int),
                    size % 2 == 1,
                    size >= 21,
                    right == pair_column(size as int, k as int),
                    1 <= right < size,
                    self.well_formed(),
                    self.same_plan(old(self)),
                    grid == old(self).matrix@,
                    start == old(self).cursor(),
                    len == self.data@.len(),
                    0 <= start <= 8 * len,
                    free_in_pairs(grid, size as int, k as int) >= 0,
                    free_in_steps(grid, size as int, k as int, r as int) >= 0,
                    self.cursor() == advanced(
                        start,
                        free_in_pairs(grid, size as int, k as int) + free_in_steps(
                            grid,
                            size as int,
                            k as int,
                            r as int,
                        ),
                        len,
                    ),
                    forall|x: int, y: int|
                        inside(size as int, x, y) ==> #[trigger] at(self.matrix@, size as int, x, y)
                            == data_paint_upto(
                            grid,
                            size as int,
                            self.data@,
                            start,
                            mask_index as int,
                            k as int,
                            r as int,
                            x,
                            y,
                        ),
                decreases size - r,
            {
                let y: usize = if k % 2 == 0 {
                    size - 1 - r
                } else {
                    r
                };
                let ghost before = *self;
                self.place_bit(right, y, mask_index);
                let ghost between = *self;
                self.place_bit(right - 1, y, mask_index);
                proof {
                    let done = free_in_pairs(grid, size as int, k as int) + free_in_steps(
                        grid,
                        size as int,
                        k as int,
                        r as int,
                    );
                    assert(at(before.matrix@, size as int, right as int, y as int) == at(
                        grid,
                        size as int,
                        right as int,
                        y as int,
                    ));
                    assert(at(between.matrix@, size as int, right - 1, y as int) == at(
                        grid,
                        size as int,
                        right - 1,
                        y as int,
                    ));
                    assert(at(before.matrix@, size as int, right - 1, y as int) == at(
                        grid,
                        size as int,
                        right - 1,
                        y as int,
                    ));
                    assert(rank(grid, size as int, right as int, y as int) == done);
                    assert(rank(grid, size as int, right - 1, y as int) == done + free(
                        grid,
                        size as int,
                        right as int,
                        y as int,
                    ));
                    assert(payload_bit(self.data@, before.cursor()) == payload_bit(
                        self.data@,
                        start + done,
                    ));
                    assert(payload_bit(self.data@, between.cursor()) == payload_bit(
                        self.data@,
                        start + done + free(grid, size as int, right as int, y as int),
                    ));
                    assert forall|a: int, b: int| inside(size as int, a, b) implies #[trigger] at(
                        self.matrix@,
                        size as int,
                        a,
                        b,
                    ) == data_paint_upto(
                        grid,
                        size as int,
                        self.data@,
                        start,
                        mask_index as int,
                        k as int,
                        r + 1,
                        a,
                        b,
                    ) by {
                        assert(at(between.matrix@, size as int, a, b) == if a == right && b == y
                            && at(before.matrix@, size as int, a, b) == UNSET {
                            placed_color(
                                payload_bit(self.data@, before.cursor()),
                                mask_applies(mask_index as int, a, b),
                            )
                        } else {
                            at(before.matrix@, size as int, a, b)
                        });
                        assert(at(before.matrix@, size as int, a, b) == data_paint_upto(
                            grid,
                            size as int,
                            self.data@,
                            start,
                            mask_index as int,
                            k as int,
                            r as int,
                            a,
                            b,
                        ));
                    }
                }
                r += 1;
            }
            proof {
                assert forall|x: int, y: int| inside(size as int, x, y) implies #[trigger] at(
                    self.matrix@,
                    size as int,
                    x,
                    y,
                ) == data_paint_upto(
                    grid,
                    size as int,
                    self.data@,
                    start,
                    mask_index as int,
                    k + 1,
                    0,
                    x,
                    y,
                ) by {
                    assert(at(self.matrix@, size as int, x, y) == data_paint_upto(
                        grid,
                        size as int,
                        self.data@,
                        start,
                        mask_index as int,
                        k as int,
                        size as int,
                        x,
                        y,
                    ));
                }
            }
            k += 1;
        }
    }

    /// Draws both copies of the format information of the level of the
    /// symbol and a mask.
    pub fn draw_format_info(&mut self, mask_index: usize)
        requires
            old(self).well_formed(),
            mask_index < 8,
        ensures
            final(self).painted_from(
                old(self),
                |x: int, y: int, c: u8|
                    format_paint(
                        old(self).size as int,
                        old(self).level.index(),
                        mask_index as int,
                        x,
                        y,
                        c,
                    ),
            ),
    {
        let size: usize = self.size;
        let bits = get_format_bits(self.level.to_index(), mask_index);
        let ghost level = self.level.index();
        let color: u8 = self.get_color(bits[7]);
        self.set_module(size - 8, 8, color);
        let mut i: usize = 0;
        while i < 15
            invariant
                i <= 15,
                size == self.size,
                level == self.level.index(),
                bits@.len() == 15,
                forall|k: int| 0 <= k < 15 ==> bits@[k] == format_bit(level, mask_index as int, k),
                self.painted_from(
                    old(self),
                    |x: int, y: int, c: u8|
                        format_upto(size as int, level, mask_index as int, i as int, x, y, c),
                ),
            decreases 15 - i,
        {
            let y: usize = if i <= 6 {
                size - 1 - i
            } else if i == 7 {
                8
            } else if i == 8 {
                7
            } else {
                14 - i
            };
            let x: usize = if i <= 5 {
                i
            } else if i == 6 {
                7
            } else if i == 7 {
                8
            } else {
                size - 15 + i
            };
            let color: u8 = self.get_color(bits[i]);
            self.set_module(8, y, color);
            self.set_module(x, 8, color);
            i += 1;
        }
    }
}

} // verus!
