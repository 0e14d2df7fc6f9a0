//! The symbol under construction and the primitives that the drawing
//! phases share.

use crate::drawer::grid::{at, color_of, inside, lemma_offset, lemma_offset_injective, offset, side};
use crate::encoder::mode::ErrorCorrection;
use vstd::arithmetic::div_mod::{lemma_add_mod_noop, lemma_mul_mod_noop_general};
use vstd::prelude::*;

verus! {

/// A symbol: its module grid, row by row, and what is needed to fill it.
/// In the grid 0 is a dark module, 255 a light one, and 128 marks a module
/// that is still free for data.
#[derive(Debug)]
pub struct QR {
    /// Number of modules along one side.
    pub size: usize,
    /// The modules, row by row.
    pub matrix: Vec<u8>,
    pub version: usize,
    pub level: ErrorCorrection,
    /// The codewords of the symbol in their final order.
    pub data: Vec<u8>,
    /// The codeword that holds the next bit to place.
    pub byte_index: usize,
    /// Position of the next bit in its codeword, counted from the most
    /// significant bit.
    pub bit_index: usize,
}

/// Bit `position` of the codewords, counted from the most significant bit
/// of the first; 0 after the last codeword.
pub open spec fn payload_bit(data: Seq<u8>, position: int) -> u8 {
    if 0 <= position < 8 * data.len() {
        (data[position / 8] >> ((7 - position % 8) as u8)) & 1
    } else {
        0
    }
}

/// Whether mask pattern `mask` inverts the module in column `x` and row `y`.
pub open spec fn mask_applies(mask: int, x: int, y: int) -> bool {
    if mask == 0 {
        (x + y) % 2 == 0
    } else if mask == 1 {
        y % 2 == 0
    } else if mask == 2 {
        x % 3 == 0
    } else if mask == 3 {
        (x + y) % 3 == 0
    } else if mask == 4 {
        (y / 2 + x / 3) % 2 == 0
    } else if mask == 5 {
        (x * y) % 2 + (x * y) % 3 == 0
    } else if mask == 6 {
        ((x * y) % 2 + (x * y) % 3) % 2 == 0
    } else if mask == 7 {
        ((x + y) % 2 + (x * y) % 3) % 2 == 0
    } else {
        false
    }
}

impl QR {
    /// Whether the symbol is well formed: its version is one of the 40, its
    /// side length and its grid are those of the version, and its cursor
    /// lies within the codewords.
    pub open spec fn well_formed(&self) -> bool {
        &&& 1 <= self.version <= 40
        &&& self.size == side(self.version as int)
        &&& self.matrix@.len() == self.size * self.size
        &&& self.bit_index < 8
        &&& self.byte_index <= self.data@.len()
        &&& (self.byte_index == self.data@.len() ==> self.bit_index == 0)
    }

    /// Number of bits of the codewords that have been handed out.
    pub open spec fn cursor(&self) -> int {
        8 * self.byte_index + self.bit_index
    }

    /// Whether two symbols differ in their grid at most.
    pub open spec fn same_plan(&self, other: &QR) -> bool {
        &&& self.size == other.size
        &&& self.version == other.version
        &&& self.level == other.level
        &&& self.data == other.data
    }

    /// Whether two symbols differ in their grid and their cursor at most.
    pub open spec fn same_cursor(&self, other: &QR) -> bool {
        &&& self.byte_index == other.byte_index
        &&& self.bit_index == other.bit_index
    }

    /// Whether this symbol is `before` with every cell repainted and nothing
    /// else changed.
    pub open spec fn painted_from(&self, before: &QR, paint: spec_fn(int, int, u8) -> u8) -> bool {
        &&& self.well_formed()
        &&& self.same_plan(before)
        &&& self.same_cursor(before)
        &&& forall|x: int, y: int|
            inside(self.size as int, x, y) ==> #[trigger] at(self.matrix@, self.size as int, x, y)
                == paint(x, y, at(before.matrix@, before.size as int, x, y))
    }

    /// Whether the symbol is well formed: its version is one of the 40, its
    /// side length and its grid are those of the version, and its cursor
    /// lies within the codewords.
    pub fn is_well_formed(&self) -> (ok: bool)
        ensures
            ok == self.well_formed(),
    {
        if !(1 <= self.version && self.version <= 40) {
            return false;
        }
        if self.size != 17 + 4 * self.version {
            return false;
        }
        assert(self.size * self.size <= 31329) by (nonlinear_arith)
            requires
                self.size <= 177,
        ;
        self.matrix.len() == self.size * self.size && self.bit_index < 8 && self.byte_index
            <= self.data.len() && (self.byte_index != self.data.len() || self.bit_index == 0)
    }

    /// Puts the grid back to a copy taken earlier, and the cursor to the
    /// first bit.
    pub fn reset(&mut self, matrix_copy: &Vec<u8>)
        requires
            old(self).well_formed(),
            matrix_copy@.len() == old(self).size * old(self).size,
        ensures
            final(self).well_formed(),
            final(self).same_plan(old(self)),
            final(self).matrix@ == matrix_copy@,
            final(self).cursor() == 0,
    {
        let mut copy: Vec<u8> = Vec::new();
        let mut i: usize = 0;
        while i < matrix_copy.len()
            invariant
                i <= matrix_copy.len(),
                copy@ == matrix_copy@.take(i as int),
            decreases matrix_copy.len() - i,
        {
            copy.push(matrix_copy[i]);
            i += 1;
            assert(copy@ =~= matrix_copy@.take(i as int));
        }
        assert(matrix_copy@.take(i as int) =~= matrix_copy@);
        self.matrix = copy;
        self.byte_index = 0;
        self.bit_index = 0;
    }

    /// Gives the module in column `x` and row `y` a colour.
    pub fn set_module(&mut self, x: usize, y: usize, color: u8)
        requires
            old(self).well_formed(),
            x < old(self).size,
            y < old(self).size,
        ensures
            final(self).well_formed(),
            final(self).same_plan(old(self)),
            final(self).same_cursor(old(self)),
            forall|a: int, b: int|
                inside(final(self).size as int, a, b) ==> #[trigger] at(
                    final(self).matrix@,
                    final(self).size as int,
                    a,
                    b,
                ) == if a == x && b == y {
                    color
                } else {
                    at(old(self).matrix@, old(self).size as int, a, b)
                },
    {
        let ghost before = self.matrix@;
        let size: usize = self.size;
        proof {
            lemma_offset(size as int, x as int, y as int);
            assert(0 <= y * size <= 176 * 177) by (nonlinear_arith)
                requires
                    0 <= y < size,
                    size <= 177,
            ;
        }
        self.matrix.set(y * size + x, color);
        proof {
            assert forall|a: int, b: int| inside(size as int, a, b) implies #[trigger] at(
                self.matrix@,
                size as int,
                a,
                b,
            ) == if a == x && b == y {
                color
            } else {
                at(before, size as int, a, b)
            } by {
                lemma_offset(size as int, a, b);
                if offset(size as int, a, b) == offset(size as int, x as int, y as int) {
                    lemma_offset_injective(size as int, a, b, x as int, y as int);
                }
            }
        }
    }

    /// The colour of the module in column `x` and row `y`.
    pub fn get_module(&self, x: usize, y: usize) -> (color: u8)
        requires
            self.well_formed(),
            x < self.size,
            y < self.size,
        ensures
            color == at(self.matrix@, self.size as int, x as int, y as int),
    {
        let size: usize = self.size;
        proof {
            lemma_offset(size as int, x as int, y as int);
            assert(0 <= y * size <= 176 * 177) by (nonlinear_arith)
                requires
                    0 <= y < size,
                    size <= 177,
            ;
        }
        self.matrix[y * size + x]
    }

    /// The colour that stands for a bit: light for 0, dark for anything
    /// else.
    pub fn get_color(&self, bit: u8) -> (color: u8)
        ensures
            color == color_of(bit),
    {
        if bit == 0 {
            return 255;
        }
        0
    }

    /// Hands out the next bit of the codewords, most significant bit of a
    /// codeword first; 0 once the codewords are used up.
    pub fn get_next_bit(&mut self) -> (bit: u8)
        requires
            old(self).well_formed(),
        ensures
            final(self).well_formed(),
            final(self).same_plan(old(self)),
            final(self).matrix == old(self).matrix,
            bit == payload_bit(old(self).data@, old(self).cursor()),
            bit <= 1,
            final(self).cursor() == if old(self).cursor() < 8 * old(self).data@.len() {
                old(self).cursor() + 1
            } else {
                old(self).cursor()
            },
    {
        if self.byte_index >= self.data.len() {
            return 0;
        }
        let byte: u8 = self.data[self.byte_index];
        let shift: u8 = (7 - self.bit_index) as u8;
        let bit: u8 = (byte >> shift) & 1;
        assert(bit <= 1) by (bit_vector)
            requires
                bit == (byte >> shift) & 1,
        ;
        self.bit_index += 1;
        if self.bit_index == 8 {
            self.byte_index += 1;
            self.bit_index = 0;
        }
        bit
    }

    /// 1 where mask pattern `mask_index` inverts the module in column `x`
    /// and row `y`, else 0. There are the patterns 0 to 7; any other number
    /// inverts nothing.
    pub fn get_mask_rule(&self, x: usize, y: usize, mask_index: usize) -> (rule: u8)
        ensures
            rule == if mask_applies(mask_index as int, x as int, y as int) {
                1u8
            } else {
                0u8
            },
    {
        let x2: usize = x % 2;
        let y2: usize = y % 2;
        let x3: usize = x % 3;
        let y3: usize = y % 3;
        proof {
            lemma_add_mod_noop(x as int, y as int, 2);
            lemma_add_mod_noop(x as int, y as int, 3);
            lemma_mul_mod_noop_general(x as int, y as int, 2);
            lemma_mul_mod_noop_general(x as int, y as int, 3);
            assert(x2 * y2 <= 1 && x3 * y3 <= 4) by (nonlinear_arith)
                requires
                    x2 <= 1,
                    y2 <= 1,
                    x3 <= 2,
                    y3 <= 2,
            ;
        }
        let sum2: usize = (x2 + y2) % 2;
        let sum3: usize = (x3 + y3) % 3;
        let product2: usize = (x2 * y2) % 2;
        let product3: usize = (x3 * y3) % 3;
        let applies: bool = match mask_index {
            0 => sum2 == 0,
            1 => y2 == 0,
            2 => x3 == 0,
            3 => sum3 == 0,
            4 => (y / 2 % 2 + x / 3 % 2) % 2 == 0,
            5 => product2 + product3 == 0,
            6 => (product2 + product3) % 2 == 0,
            7 => (sum2 + product3) % 2 == 0,
            _ => false,
        };
        proof {
            lemma_add_mod_noop(y as int / 2, x as int / 3, 2);
        }
        if applies {
            1
        } else {
            0
        }
    }
}

} // verus!
