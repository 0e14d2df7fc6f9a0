//! Building a symbol: the choice of the mask, and the whole way from an
//! input to its grid.

use crate::drawer::grid::{at, blank, inside, lemma_blank_at, lemma_grid_equal, side, UNSET};
use crate::drawer::patterns::template;
use crate::drawer::penalty::penalty;
use crate::drawer::placement::{advanced, finished, free_in_pairs, pair_count};
use crate::drawer::qr::QR;
use crate::drawer::symbol::{
    best_mask, best_mask_upto, lemma_finished_at, lemma_template_at, mask_score, symbol,
};
use crate::encoder::interleave::{codewords_of, interleave_codewords};
use crate::encoder::mode::{ErrorCorrection, QrError};
use crate::encoder::stream::{encode_text, prepare, version_of};
use crate::text::text_of;
use vstd::prelude::*;

verus! {

/// An empty grid of a side length.
fn blank_grid(size: usize) -> (grid: Vec<u8>)
    requires
        size <= 177,
    ensures
        grid@ == blank(size as int),
        grid@.len() == size * size,
{
    assert(size * size <= 31329) by (nonlinear_arith)
        requires
            size <= 177,
    ;
    let count: usize = size * size;
    let mut grid: Vec<u8> = Vec::new();
    let mut i: usize = 0;
    while i < count
        invariant
            i <= count,
            grid@.len() == i,
            forall|k: int| 0 <= k < i ==> grid@[k] == UNSET,
        decreases count - i,
    {
        grid.push(128);
        i += 1;
    }
    assert(grid@ =~= blank(size as int));
    grid
}

impl QR {
    /// Places the data under one mask and draws the format information of
    /// that mask, on the grid `base`.
    fn draw_masked(&mut self, base: &Vec<u8>, mask_index: usize)
        requires
            old(self).well_formed(),
            base@.len() == old(self).size * old(self).size,
            mask_index < 8,
        ensures
            final(self).well_formed(),
            final(self).same_plan(old(self)),
            final(self).matrix@ == finished(
                base@,
                old(self).size as int,
                old(self).data@,
                old(self).level.index(),
                mask_index as int,
            ),
            final(self).cursor() == advanced(
                0,
                free_in_pairs(base@, old(self).size as int, pair_count(old(self).size as int)),
                old(self).data@.len() as int,
            ),
    {
        self.reset(base);
        self.draw_and_mask_data_bits(mask_index);
        self.draw_format_info(mask_index);
        proof {
            let size = self.size as int;
            let target = finished(base@, size, self.data@, self.level.index(), mask_index as int);
            assert forall|x: int, y: int| inside(size, x, y) implies at(self.matrix@, size, x, y)
                == at(target, size, x, y) by {
                lemma_finished_at(
                    base@,
                    size,
                    self.data@,
                    self.level.index(),
                    mask_index as int,
                    x,
                    y,
                );
            }
            lemma_grid_equal(self.matrix@, target, size);
        }
    }

    /// Places the data under the mask that gives the least penalty, and
    /// draws the format information of that mask: each of the eight masks
    /// is tried on the grid as it stands, and of several with the least
    /// penalty the first is taken.
    pub fn draw_data(&mut self)
        requires
            old(self).well_formed(),
        ensures
            final(self).well_formed(),
            final(self).same_plan(old(self)),
            final(self).matrix@ == finished(
                old(self).matrix@,
                old(self).size as int,
                old(self).data@,
                old(self).level.index(),
                best_mask(
                    old(self).matrix@,
                    old(self).size as int,
                    old(self).data@,
                    old(self).level.index(),
                ),
            ),
            final(self).cursor() == advanced(
                0,
                free_in_pairs(
                    old(self).matrix@,
                    old(self).size as int,
                    pair_count(old(self).size as int),
                ),
                old(self).data@.len() as int,
            ),
    {
        let mut matrix_copy: Vec<u8> = Vec::new();
        let mut n: usize = 0;
        while n < self.matrix.len()
            invariant
                n <= self.matrix@.len(),
                self.matrix == old(self).matrix,
                matrix_copy@ == self.matrix@.take(n as int),
            decreases self.matrix@.len() - n,
        {
            matrix_copy.push(self.matrix[n]);
            n += 1;
            assert(matrix_copy@ =~= self.matrix@.take(n as int));
        }
        assert(matrix_copy@ =~= old(self).matrix@);

        let ghost size = self.size as int;
        let ghost level = self.level.index();
        let ghost data = self.data@;
        let mut min: u32 = u32::MAX;
        let mut mask_to_use: usize = 0;
        let mut i: usize = 0;
        while i < 8
            invariant
                i <= 8,
                self.well_formed(),
                self.same_plan(old(self)),
                size == self.size,
                level == self.level.index(),
                data == self.data@,
                matrix_copy@ == old(self).matrix@,
                matrix_copy@.len() == self.size * self.size,
                mask_to_use < 8,
                i == 0 ==> min == u32::MAX && mask_to_use == 0,
                i > 0 ==> mask_to_use == best_mask_upto(matrix_copy@, size, data, level, i as int)
                    && min == mask_score(matrix_copy@, size, data, level, mask_to_use as int),
            decreases 8 - i,
        {
            self.draw_masked(&matrix_copy, i);
            let score: u32 = self.get_penalty();
            if score < min {
                min = score;
                mask_to_use = i;
            }
            i += 1;
        }
        self.draw_masked(&matrix_copy, mask_to_use);
    }

    /// Makes the symbol for an input at a level: the smallest version that
    /// holds the input, the fixed patterns of that version, the codewords
    /// under the mask with the least penalty and the format information.
    /// Every bit of the codewords is placed. `CapacityExceeded` where no
    /// version holds the input.
    pub fn create(input: &str, level: ErrorCorrection) -> (r: Result<QR, QrError>)
        ensures
            match version_of(input@, level) {
                Some(version) => r.is_ok() && r.unwrap().well_formed() && r.unwrap().version
                    == version && r.unwrap().size == side(version) && r.unwrap().level == level
                    && r.unwrap().data@ == codewords_of(text_of(input@), input@.len(), version, level)
                    && r.unwrap().matrix@ == symbol(
                    codewords_of(text_of(input@), input@.len(), version, level),
                    version,
                    level.index(),
                ) && r.unwrap().cursor() == 8 * r.unwrap().data@.len(),
                None => match r {
                    Ok(_) => false,
                    Err(e) => e == QrError::CapacityExceeded,
                },
            },
    {
        match prepare(input, level) {
            Ok((count, version)) => {
                let encoded = encode_text(input.as_bytes(), count, version, level);
                let data = interleave_codewords(&encoded, level, version);
                let size: usize = 21 + (version - 1) * 4;
                let mut qr = QR {
                    byte_index: 0,
                    bit_index: 0,
                    data,
                    matrix: blank_grid(size),
                    version,
                    size,
                    level,
                };
                let ghost empty = qr;
                qr.draw_initial_patterns();
                qr.draw_dummy_format_areas();
                qr.draw_version_info();
                proof {
                    let target = template(version as int);
                    assert forall|x: int, y: int| inside(size as int, x, y) implies at(
                        qr.matrix@,
                        size as int,
                        x,
                        y,
                    ) == at(target, size as int, x, y) by {
                        lemma_blank_at(size as int, x, y);
                        lemma_template_at(version as int, x, y);
                        assert(at(empty.matrix@, size as int, x, y) == UNSET);
                    }
                    lemma_template_at(version as int, 0, 0);
                    lemma_grid_equal(qr.matrix@, target, size as int);
                }
                proof {
                    crate::drawer::room_proof::lemma_template_room(
                        version as int,
                        level.index(),
                    );
                }
                qr.draw_data();
                Ok(qr)
            },
            Err(e) => Err(e),
        }
    }
}

} // verus!
