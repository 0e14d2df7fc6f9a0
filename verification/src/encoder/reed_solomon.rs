//! Arithmetic in GF(256) and Reed-Solomon error correction.
//!
//! The field is the polynomials over GF(2) modulo x^8 + x^4 + x^3 + x^2 + 1;
//! a byte holds the coefficients, bit `i` that of x to the `i`. Sums are
//! exclusive or. The element x, the byte 2, generates the nonzero elements.

use crate::encoder::mode::ErrorCorrection;
use crate::tables::layout::{block_layout, get_block_layout, lemma_block_layouts};
use vstd::prelude::*;

verus! {

/// The product of `z` and x.
pub open spec fn gf_double(z: u8) -> u8 {
    if z & 0x80 != 0 {
        (z << 1) ^ 0x1D
    } else {
        z << 1
    }
}

/// The product of `x` and the polynomial that the `count` highest bits of
/// `y` spell.
pub open spec fn gf_mul_high(x: u8, y: u8, count: nat) -> u8
    decreases count,
{
    if count == 0 {
        0
    } else {
        let rest = gf_double(gf_mul_high(x, y, (count - 1) as nat));
        if (y >> ((8 - count) as u8)) & 1 == 1 {
            rest ^ x
        } else {
            rest
        }
    }
}

/// The product of two elements of GF(256).
pub open spec fn gf_mul(x: u8, y: u8) -> u8 {
    gf_mul_high(x, y, 8)
}

/// The element 2 to the power `k`.
pub open spec fn gf_pow2(k: nat) -> u8
    decreases k,
{
    if k == 0 {
        1
    } else {
        gf_mul(gf_pow2((k - 1) as nat), 2)
    }
}

/// Multiplies two elements of GF(256).
pub fn galois_multiply(x: u8, y: u8) -> (z: u8)
    ensures
        z == gf_mul(x, y),
{
    let mut z: u8 = 0;
    let mut i: u8 = 8;
    while i > 0
        invariant
            i <= 8,
            z == gf_mul_high(x, y, (8 - i) as nat),
        decreases i,
    {
        i -= 1;
        z = if z & 0x80 != 0 {
            (z << 1) ^ 0x1D
        } else {
            z << 1
        };
        if (y >> i) & 1 == 1 {
            z ^= x;
        }
    }
    z
}

/// A polynomial times x plus `root`. Polynomials are kept in a fixed number
/// of coefficients, the highest power first; the coefficient that leaves at
/// the front is dropped.
pub open spec fn times_linear(p: Seq<u8>, root: u8) -> Seq<u8> {
    Seq::new(
        p.len(),
        |j: int|
            if j + 1 < p.len() {
                gf_mul(p[j], root) ^ p[j + 1]
            } else {
                gf_mul(p[j], root)
            },
    )
}

/// The product of x plus 2 to the `i` for `i` below `factors`, in `degree`
/// coefficients.
pub open spec fn generator_upto(degree: nat, factors: nat) -> Seq<u8>
    decreases factors,
{
    if factors == 0 {
        Seq::new(degree, |j: int| if j == degree - 1 { 1u8 } else { 0u8 })
    } else {
        times_linear(generator_upto(degree, (factors - 1) as nat), gf_pow2((factors - 1) as nat))
    }
}

/// The generator polynomial of `degree` error-correction codewords: the
/// product of x plus 2 to the `i` for `i` below `degree`. Its coefficients
/// from that of x to the `degree - 1` down to the constant; the leading
/// coefficient, which is 1, is left out.
pub open spec fn generator(degree: nat) -> Seq<u8> {
    generator_upto(degree, degree)
}

/// The growing generator polynomial keeps its number of coefficients.
pub proof fn lemma_generator_len(degree: nat, factors: nat)
    ensures
        generator_upto(degree, factors).len() == degree,
    decreases factors,
{
    if factors > 0 {
        lemma_generator_len(degree, (factors - 1) as nat);
    }
}

/// Computes the generator polynomial for `degree` error-correction
/// codewords.
pub fn compute_generator_polynomial(degree: usize) -> (result: Vec<u8>)
    requires
        degree >= 1,
    ensures
        result@ == generator(degree as nat),
        result@.len() == degree,
{
    let mut result: Vec<u8> = Vec::new();
    let mut n: usize = 0;
    while n < degree
        invariant
            n <= degree,
            result@.len() == n,
            forall|j: int| 0 <= j < n ==> result@[j] == if j == degree - 1 { 1u8 } else { 0u8 },
        decreases degree - n,
    {
        result.push(if n == degree - 1 { 1 } else { 0 });
        n += 1;
    }
    assert(result@ =~= generator_upto(degree as nat, 0));

    let mut root: u8 = 1;
    let mut k: usize = 0;
    while k < degree
        invariant
            k <= degree,
            result@ == generator_upto(degree as nat, k as nat),
            result@.len() == degree,
            root == gf_pow2(k as nat),
        decreases degree - k,
    {
        let ghost before = result@;
        let mut j: usize = 0;
        while j < degree
            invariant
                j <= degree,
                before.len() == degree,
                result@.len() == degree,
                forall|t: int| 0 <= t < j ==> result@[t] == times_linear(before, root)[t],
                forall|t: int| j <= t < degree ==> result@[t] == before[t],
            decreases degree - j,
        {
            let mut c: u8 = galois_multiply(result[j], root);
            if j + 1 < degree {
                c ^= result[j + 1];
            }
            result.set(j, c);
            j += 1;
        }
        assert(result@ =~= times_linear(before, root));
        root = galois_multiply(root, 2);
        k += 1;
    }
    result
}

/// The remainder after one more codeword `byte` of the message: the old
/// remainder moves up by one power, and the generator times what left at the
/// front plus `byte` is added.
pub open spec fn remainder_step(state: Seq<u8>, divisor: Seq<u8>, byte: u8) -> Seq<u8> {
    let factor = byte ^ state[0];
    Seq::new(
        state.len(),
        |i: int|
            if i + 1 < state.len() {
                state[i + 1] ^ gf_mul(divisor[i], factor)
            } else {
                gf_mul(divisor[i], factor)
            },
    )
}

/// The remainder of the message polynomial, times x to the degree of the
/// divisor, on division by the divisor. The message holds the coefficients
/// from the highest power down; the divisor is given without its leading
/// coefficient 1.
pub open spec fn remainder(message: Seq<u8>, divisor: Seq<u8>) -> Seq<u8>
    decreases message.len(),
{
    if message.len() == 0 {
        Seq::new(divisor.len(), |i: int| 0u8)
    } else {
        remainder_step(remainder(message.drop_last(), divisor), divisor, message.last())
    }
}

/// The error-correction codewords of a block of data codewords.
pub open spec fn error_correction_of(block: Seq<u8>, count: nat) -> Seq<u8> {
    remainder(block, generator(count))
}

/// A remainder has as many coefficients as the divisor.
pub proof fn lemma_remainder_len(message: Seq<u8>, divisor: Seq<u8>)
    ensures
        remainder(message, divisor).len() == divisor.len(),
    decreases message.len(),
{
    if message.len() > 0 {
        lemma_remainder_len(message.drop_last(), divisor);
    }
}

/// The remainder of a message on division by a polynomial given without its
/// leading coefficient.
pub fn divide(message: &[u8], divisor: &Vec<u8>) -> (result: Vec<u8>)
    requires
        divisor@.len() >= 1,
    ensures
        result@ == remainder(message@, divisor@),
        result@.len() == divisor@.len(),
{
    let count: usize = divisor.len();
    let mut result: Vec<u8> = Vec::new();
    let mut n: usize = 0;
    while n < count
        invariant
            n <= count,
            result@.len() == n,
            forall|j: int| 0 <= j < n ==> result@[j] == 0u8,
        decreases count - n,
    {
        result.push(0);
        n += 1;
    }
    assert(message@.take(0) =~= Seq::<u8>::empty());
    assert(result@ =~= remainder(message@.take(0), divisor@));

    let mut k: usize = 0;
    while k < message.len()
        invariant
            k <= message.len(),
            count == divisor@.len(),
            count >= 1,
            result@.len() == count,
            result@ == remainder(message@.take(k as int), divisor@),
        decreases message.len() - k,
    {
        let ghost before = result@;
        let factor: u8 = message[k] ^ result.remove(0);
        result.push(0);
        let mut i: usize = 0;
        while i < count
            invariant
                i <= count,
                count == divisor@.len(),
                before.len() == count,
                result@.len() == count,
                factor == message@[k as int] ^ before[0],
                forall|t: int|
                    0 <= t < i ==> result@[t] == remainder_step(
                        before,
                        divisor@,
                        message@[k as int],
                    )[t],
                forall|t: int| i <= t < count - 1 ==> result@[t] == before[t + 1],
                i < count ==> result@[count - 1] == 0u8,
            decreases count - i,
        {
            let product: u8 = galois_multiply(divisor[i], factor);
            let c: u8 = result[i] ^ product;
            assert(0u8 ^ product == product) by (bit_vector);
            result.set(i, c);
            i += 1;
        }
        proof {
            assert(message@.take(k + 1).drop_last() =~= message@.take(k as int));
            assert(message@.take(k + 1).last() == message@[k as int]);
            assert(result@ =~= remainder_step(before, divisor@, message@[k as int]));
        }
        k += 1;
    }
    assert(message@.take(k as int) =~= message@);
    result
}

/// Number of error-correction codewords per block of a version at a level.
pub open spec fn ecc_count(version: int, level: ErrorCorrection) -> nat {
    block_layout(version, level.index()).ecc_count as nat
}

/// The error-correction codewords of one block of data codewords: the
/// remainder of the block, as a polynomial over GF(256) times x to the
/// number of error-correction codewords, on division by the generator
/// polynomial of that degree.
pub fn generate_error_correction_codes(
    data: &Vec<u8>,
    level: ErrorCorrection,
    version: usize,
) -> (codes: Vec<u8>)
    requires
        1 <= version <= 40,
    ensures
        codes@ == error_correction_of(data@, ecc_count(version as int, level)),
        codes@.len() == ecc_count(version as int, level),
{
    proof {
        lemma_block_layouts();
        assert(block_layout(version as int, level.index()).well_formed());
    }
    let count: usize = get_block_layout(version, level.to_index()).ecc_count;
    let divisor = compute_generator_polynomial(count);
    divide(data.as_slice(), &divisor)
}

} // verus!
