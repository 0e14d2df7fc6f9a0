use std::collections::VecDeque;
use vstd::prelude::*;

verus! {

/// Coefficients of the generator polynomials, as exponents of 2, highest
/// power first and without the leading coefficient. One row per supported
/// degree, in increasing order of degree, filled up with zeros.
pub const GENERATOR_EXPONENTS: [[u8; 30]; 13] = [
    [87, 229, 146, 149, 238, 102, 21, 0, 0, 0, 0, 0, 0, 0, 0, 0, 0, 0, 0, 0, 0, 0, 0, 0, 0, 0, 0, 0, 0, 0],
    [251, 67, 46, 61, 118, 70, 64, 94, 32, 45, 0, 0, 0, 0, 0, 0, 0, 0, 0, 0, 0, 0, 0, 0, 0, 0, 0, 0, 0, 0],
    [74, 152, 176, 100, 86, 100, 106, 104, 130, 218, 206, 140, 78, 0, 0, 0, 0, 0, 0, 0, 0, 0, 0, 0, 0, 0, 0, 0, 0, 0],
    [8, 183, 61, 91, 202, 37, 51, 58, 58, 237, 140, 124, 5, 99, 105, 0, 0, 0, 0, 0, 0, 0, 0, 0, 0, 0, 0, 0, 0, 0],
    [120, 104, 107, 109, 102, 161, 76, 3, 91, 191, 147, 169, 182, 194, 225, 120, 0, 0, 0, 0, 0, 0, 0, 0, 0, 0, 0, 0, 0, 0],
    [43, 139, 206, 78, 43, 239, 123, 206, 214, 147, 24, 99, 150, 39, 243, 163, 136, 0, 0, 0, 0, 0, 0, 0, 0, 0, 0, 0, 0, 0],
    [215, 234, 158, 94, 184, 97, 118, 170, 79, 187, 152, 148, 252, 179, 5, 98, 96, 153, 0, 0, 0, 0, 0, 0, 0, 0, 0, 0, 0, 0],
    [17, 60, 79, 50, 61, 163, 26, 187, 202, 180, 221, 225, 83, 239, 156, 164, 212, 212, 188, 190, 0, 0, 0, 0, 0, 0, 0, 0, 0, 0],
    [210, 171, 247, 242, 93, 230, 14, 109, 221, 53, 200, 74, 8, 172, 98, 80, 219, 134, 160, 105, 165, 231, 0, 0, 0, 0, 0, 0, 0, 0],
    [229, 121, 135, 48, 211, 117, 251, 126, 159, 180, 169, 152, 192, 226, 228, 218, 111, 0, 117, 232, 87, 96, 227, 21, 0, 0, 0, 0, 0, 0],
    [173, 125, 158, 2, 103, 182, 118, 17, 145, 201, 111, 28, 165, 53, 161, 21, 245, 142, 13, 102, 48, 227, 153, 145, 218, 70, 0, 0, 0, 0],
    [168, 223, 200, 104, 224, 234, 108, 180, 110, 190, 195, 147, 205, 27, 232, 201, 21, 43, 245, 87, 42, 195, 212, 119, 242, 37, 9, 123, 0, 0],
    [41, 173, 145, 152, 216, 31, 179, 182, 50, 48, 110, 86, 239, 96, 222, 125, 42, 173, 226, 193, 224, 130, 156, 37, 251, 216, 238, 40, 192, 180],
];

/// The row of `GENERATOR_EXPONENTS` that holds the polynomial of degree
/// `count`, where the table has one.
pub open spec fn generator_row(count: int) -> Option<int> {
    if count == 7 {
        Some(0int)
    } else if count == 10 {
        Some(1int)
    } else if count == 13 {
        Some(2int)
    } else if count == 15 {
        Some(3int)
    } else if count == 16 {
        Some(4int)
    } else if count == 17 {
        Some(5int)
    } else if count == 18 {
        Some(6int)
    } else if count == 20 {
        Some(7int)
    } else if count == 22 {
        Some(8int)
    } else if count == 24 {
        Some(9int)
    } else if count == 26 {
        Some(10int)
    } else if count == 28 {
        Some(11int)
    } else if count == 30 {
        Some(12int)
    } else {
        None
    }
}

/// The row of the table for `count` error-correction codewords, cut to
/// its `count` entries; empty where the table has no such row.
pub open spec fn generator_exponents(count: int) -> Seq<u8> {
    match generator_row(count) {
        Some(row) => Seq::new(count as nat, |i: int| GENERATOR_EXPONENTS[row][i]),
        None => Seq::empty(),
    }
}

fn find_generator_row(count: usize) -> (r: Option<usize>)
    ensures
        match r {
            Some(row) => generator_row(count as int) == Some(row as int),
            None => generator_row(count as int).is_none(),
        },
{
    match count {
        7 => Some(0usize),
        10 => Some(1usize),
        13 => Some(2usize),
        15 => Some(3usize),
        16 => Some(4usize),
        17 => Some(5usize),
        18 => Some(6usize),
        20 => Some(7usize),
        22 => Some(8usize),
        24 => Some(9usize),
        26 => Some(10usize),
        28 => Some(11usize),
        30 => Some(12usize),
        _ => None,
    }
}

/// The generator polynomial for `count` error-correction codewords, as
/// exponents of 2, highest power first and without the leading coefficient.
/// Empty where no block layout uses `count`.
pub fn get_generator_polynomial(count: usize) -> (r: VecDeque<u8>)
    ensures
        r@ == generator_exponents(count as int),
{
    let mut result: VecDeque<u8> = VecDeque::new();
    match find_generator_row(count) {
        Some(row) => {
            let mut i: usize = 0;
            while i < count
                invariant
                    i <= count <= 30,
                    row < 13,
                    generator_row(count as int) == Some(row as int),
                    result@ == Seq::new(i as nat, |k: int| GENERATOR_EXPONENTS[row as int][k]),
                decreases count - i,
            {
                result.push_back(GENERATOR_EXPONENTS[row][i]);
                i += 1;
                assert(result@ =~= Seq::new(
                    i as nat,
                    |k: int| GENERATOR_EXPONENTS[row as int][k],
                ));
            }
        },
        None => {},
    }
    result
}

} // verus!
