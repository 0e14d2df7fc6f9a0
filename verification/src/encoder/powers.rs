//! Powers of the generator element 2 of GF(256).

use crate::encoder::field::{lemma_mul_associative, lemma_mul_double, lemma_mul_one_right};
use crate::encoder::reed_solomon::{gf_double, gf_mul, gf_pow2};
use vstd::prelude::*;

verus! {

/// The product with 2 is the double.
pub proof fn lemma_mul_two(x: u8)
    ensures
        gf_mul(x, 2) == gf_double(x),
{
    assert(gf_double(1) == 2) by (bit_vector);
    lemma_mul_double(x, 1);
    lemma_mul_one_right(x);
}

/// Powers of 2 multiply by adding their exponents.
pub proof fn lemma_power_sum(a: nat, b: nat)
    ensures
        gf_mul(gf_pow2(a), gf_pow2(b)) == gf_pow2(a + b),
    decreases b,
{
    if b == 0 {
        lemma_mul_one_right(gf_pow2(a));
    } else {
        lemma_power_sum(a, (b - 1) as nat);
        lemma_mul_associative(gf_pow2(a), gf_pow2((b - 1) as nat), 2);
    }
}

/// Where 2 to the power 255 is 1, the powers of 2 repeat after 255.
pub proof fn lemma_power_period(k: nat)
    requires
        gf_pow2(255) == 1,
    ensures
        gf_pow2(k) == gf_pow2(k % 255),
    decreases k,
{
    if k >= 255 {
        let before = (k - 255) as nat;
        lemma_power_period(before);
        lemma_power_sum(before, 255);
        lemma_mul_one_right(gf_pow2(before));
        assert(before + 255 == k);
        assert(before % 255 == k % 255);
    }
}

} // verus!
