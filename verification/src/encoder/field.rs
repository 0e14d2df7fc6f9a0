//! Laws of the arithmetic in GF(256): with exclusive or as the sum and
//! `gf_mul` as the product, the bytes form a commutative ring.

use crate::encoder::reed_solomon::{gf_double, gf_mul, gf_mul_high};
use vstd::prelude::*;

verus! {

/// Exclusive or is commutative and associative, 0 is its unit, and every
/// byte is its own inverse and that of no other byte.
pub proof fn lemma_xor(a: u8, b: u8, c: u8)
    by (bit_vector)
    ensures
        a ^ b == b ^ a,
        (a ^ b) ^ c == a ^ (b ^ c),
        a ^ a == 0,
        a ^ 0 == a,
        0 ^ a == a,
        a ^ b == 0 ==> a == b,
{
}

proof fn lemma_double_bits(a: u8, b: u8)
    by (bit_vector)
    ensures
        (if (a ^ b) & 0x80 != 0 {
            ((a ^ b) << 1) ^ 0x1D
        } else {
            (a ^ b) << 1
        }) == (if a & 0x80 != 0 {
            (a << 1) ^ 0x1D
        } else {
            a << 1
        }) ^ (if b & 0x80 != 0 {
            (b << 1) ^ 0x1D
        } else {
            b << 1
        }),
        (if 0u8 & 0x80 != 0 {
            (0u8 << 1) ^ 0x1D
        } else {
            0u8 << 1
        }) == 0,
{
}

/// Doubling goes through sums, and the double of 0 is 0.
pub proof fn lemma_double_linear(a: u8, b: u8)
    ensures
        gf_double(a ^ b) == gf_double(a) ^ gf_double(b),
        gf_double(0) == 0,
{
    lemma_double_bits(a, b);
}

/// A product with 0 on the left is 0.
pub proof fn lemma_mul_high_zero_left(y: u8, count: nat)
    ensures
        gf_mul_high(0, y, count) == 0,
    decreases count,
{
    if count > 0 {
        lemma_mul_high_zero_left(y, (count - 1) as nat);
        lemma_double_linear(0, 0);
        lemma_xor(0, 0, 0);
    }
}

/// Products go through sums on the left.
pub proof fn lemma_mul_high_linear_left(a: u8, b: u8, y: u8, count: nat)
    ensures
        gf_mul_high(a ^ b, y, count) == gf_mul_high(a, y, count) ^ gf_mul_high(b, y, count),
    decreases count,
{
    if count == 0 {
        lemma_xor(0, 0, 0);
    } else {
        let n = (count - 1) as nat;
        lemma_mul_high_linear_left(a, b, y, n);
        let p = gf_mul_high(a, y, n);
        let q = gf_mul_high(b, y, n);
        lemma_double_linear(p, q);
        let dp = gf_double(p);
        let dq = gf_double(q);
        // (dp ^ dq) ^ (a ^ b) == (dp ^ a) ^ (dq ^ b)
        lemma_xor(dp, dq, a ^ b);
        lemma_xor(dq, a, b);
        lemma_xor(a, dq, b);
        lemma_xor(dp, a, dq ^ b);
    }
}

/// Doubling the left factor doubles the product.
pub proof fn lemma_mul_high_double_left(x: u8, y: u8, count: nat)
    ensures
        gf_mul_high(gf_double(x), y, count) == gf_double(gf_mul_high(x, y, count)),
    decreases count,
{
    if count == 0 {
        lemma_double_linear(0, 0);
    } else {
        let n = (count - 1) as nat;
        lemma_mul_high_double_left(x, y, n);
        lemma_double_linear(gf_double(gf_mul_high(x, y, n)), x);
    }
}

proof fn lemma_shift_bits(y: u8, k: u8)
    by (bit_vector)
    requires
        k < 7,
    ensures
        (y >> (k + 1)) & 0x80 == 0,
        ((y >> (k + 1)) << 1) ^ 1 == (y >> k) || ((y >> (k + 1)) << 1) == (y >> k),
        (y >> k) & 1 == 1 ==> ((y >> (k + 1)) << 1) ^ 1 == (y >> k),
        (y >> k) & 1 != 1 ==> ((y >> (k + 1)) << 1) == (y >> k),
        (y >> 7) == 1 || (y >> 7) == 0,
        (y >> 7) & 1 == 1 <==> (y >> 7) == 1,
        y >> 0 == y,
{
}

/// The `count` highest bits of a byte, as a number.
pub open spec fn high_bits(y: u8, count: nat) -> u8 {
    if count == 0 {
        0
    } else {
        y >> ((8 - count) as u8)
    }
}

/// The highest bits of a byte, one more at a time.
proof fn lemma_high_bits_step(y: u8, count: nat)
    requires
        1 <= count <= 8,
    ensures
        high_bits(y, count) == if (y >> ((8 - count) as u8)) & 1 == 1 {
            gf_double(high_bits(y, (count - 1) as nat)) ^ 1
        } else {
            gf_double(high_bits(y, (count - 1) as nat))
        },
        high_bits(y, 8) == y,
{
    lemma_shift_bits(y, 0);
    if count == 1 {
        lemma_double_linear(0, 0);
        lemma_xor(1, 0, 0);
    } else {
        let k = (8 - count) as u8;
        lemma_shift_bits(y, k);
    }
}

/// 1 is the unit of the product on the right.
pub proof fn lemma_mul_one_right(x: u8)
    ensures
        gf_mul(x, 1) == x,
{
    assert((1u8 >> 7u8) & 1 != 1 && (1u8 >> 6u8) & 1 != 1 && (1u8 >> 5u8) & 1 != 1 && (1u8 >> 4u8)
        & 1 != 1 && (1u8 >> 3u8) & 1 != 1 && (1u8 >> 2u8) & 1 != 1 && (1u8 >> 1u8) & 1 != 1 && (1u8
        >> 0u8) & 1 == 1) by (bit_vector);
    lemma_double_linear(0, 0);
    lemma_xor(x, 0, 0);
    assert(gf_mul_high(x, 1, 7) == 0) by {
        reveal_with_fuel(gf_mul_high, 8);
    }
}

/// The product of a factor and the highest bits of a byte, computed from
/// either side.
proof fn lemma_mul_high_swap(x: u8, y: u8, count: nat)
    requires
        count <= 8,
    ensures
        gf_mul_high(x, y, count) == gf_mul(high_bits(y, count), x),
    decreases count,
{
    if count == 0 {
        lemma_mul_high_zero_left(x, 8);
    } else {
        let n = (count - 1) as nat;
        lemma_mul_high_swap(x, y, n);
        lemma_high_bits_step(y, count);
        let top = high_bits(y, n);
        // gf_double(gf_mul(top, x)) == gf_mul(gf_double(top), x)
        lemma_mul_high_double_left(top, x, 8);
        if (y >> ((8 - count) as u8)) & 1 == 1 {
            // gf_mul(gf_double(top) ^ 1, x) == gf_mul(gf_double(top), x) ^ gf_mul(1, x)
            lemma_mul_high_linear_left(gf_double(top), 1, x, 8);
            lemma_mul_one_left(x);
        }
    }
}

/// 1 is the unit of the product on the left.
pub proof fn lemma_mul_one_left(x: u8)
    ensures
        gf_mul(1, x) == x,
{
    lemma_mul_high_one(x, 8);
    lemma_shift_bits(x, 0);
}

proof fn lemma_mul_high_one(y: u8, count: nat)
    requires
        count <= 8,
    ensures
        gf_mul_high(1, y, count) == high_bits(y, count),
    decreases count,
{
    if count > 0 {
        lemma_mul_high_one(y, (count - 1) as nat);
        lemma_high_bits_step(y, count);
    }
}

/// The product is commutative.
pub proof fn lemma_mul_commutative(x: u8, y: u8)
    ensures
        gf_mul(x, y) == gf_mul(y, x),
{
    lemma_mul_high_swap(x, y, 8);
    lemma_shift_bits(y, 0);
}

/// A product with 0 is 0.
pub proof fn lemma_mul_zero(x: u8)
    ensures
        gf_mul(0, x) == 0,
        gf_mul(x, 0) == 0,
{
    lemma_mul_high_zero_left(x, 8);
    lemma_mul_commutative(x, 0);
}

/// The product goes through sums.
pub proof fn lemma_mul_distributive(x: u8, a: u8, b: u8)
    ensures
        gf_mul(x, a ^ b) == gf_mul(x, a) ^ gf_mul(x, b),
        gf_mul(a ^ b, x) == gf_mul(a, x) ^ gf_mul(b, x),
{
    lemma_mul_high_linear_left(a, b, x, 8);
    lemma_mul_commutative(x, a ^ b);
    lemma_mul_commutative(x, a);
    lemma_mul_commutative(x, b);
}

/// Doubling either factor doubles the product.
pub proof fn lemma_mul_double(x: u8, y: u8)
    ensures
        gf_mul(gf_double(x), y) == gf_double(gf_mul(x, y)),
        gf_mul(x, gf_double(y)) == gf_double(gf_mul(x, y)),
{
    lemma_mul_high_double_left(x, y, 8);
    lemma_mul_high_double_left(y, x, 8);
    lemma_mul_commutative(x, gf_double(y));
    lemma_mul_commutative(x, y);
}

proof fn lemma_mul_high_associative(x: u8, y: u8, z: u8, count: nat)
    requires
        count <= 8,
    ensures
        gf_mul_high(gf_mul(x, y), z, count) == gf_mul(x, gf_mul_high(y, z, count)),
    decreases count,
{
    if count == 0 {
        lemma_mul_zero(x);
    } else {
        let n = (count - 1) as nat;
        lemma_mul_high_associative(x, y, z, n);
        let p = gf_mul_high(y, z, n);
        lemma_mul_double(x, p);
        if (z >> ((8 - count) as u8)) & 1 == 1 {
            lemma_mul_distributive(x, gf_double(p), y);
        }
    }
}

/// The product is associative.
pub proof fn lemma_mul_associative(x: u8, y: u8, z: u8)
    ensures
        gf_mul(gf_mul(x, y), z) == gf_mul(x, gf_mul(y, z)),
{
    lemma_mul_high_associative(x, y, z, 8);
}

} // verus!
