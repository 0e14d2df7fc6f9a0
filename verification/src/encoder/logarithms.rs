//! The tables of powers and logarithms, and the product by logarithms.
//!
//! Every byte but 0 is a power of the generator element 2, and the powers
//! repeat after 255. So the product of two bytes that are not 0 is the power
//! whose exponent is the sum of their logarithms, taken modulo 255.

use crate::encoder::powers::{lemma_mul_two, lemma_power_period, lemma_power_sum};
use crate::encoder::reed_solomon::{gf_double, gf_mul, gf_pow2};
use crate::tables::galois::{GALOIS_EXPONENTS, GALOIS_VALUES};
use vstd::prelude::*;

verus! {

/// The double of a byte, by arithmetic: twice the byte, and beyond 255
/// that less 256 with the bits 0, 2, 3 and 4 inverted.
spec fn double_value(z: int) -> int {
    if z < 128 {
        2 * z
    } else {
        let x = 2 * z - 256;
        x + 1 + (if (x / 4) % 2 == 1 {
            -4int
        } else {
            4int
        }) + (if (x / 8) % 2 == 1 {
            -8int
        } else {
            8int
        }) + (if (x / 16) % 2 == 1 {
            -16int
        } else {
            16int
        })
    }
}

proof fn lemma_double_value(z: u8)
    by (bit_vector)
    ensures
        gf_double(z) == double_value(z as int),
{
}

/// Whether an entry of the table of powers is the double of the entry
/// before it.
spec fn step(i: int) -> bool {
    GALOIS_EXPONENTS[i + 1] == double_value(GALOIS_EXPONENTS[i] as int)
}

spec fn steps_from(i: int) -> bool {
    step(i) && step(i + 1) && step(i + 2) && step(i + 3) && step(i + 4)
}

/// Whether the table of logarithms gives the exponent `i` back for the
/// power with that exponent.
spec fn inverse(i: int) -> bool {
    &&& GALOIS_EXPONENTS[i] != 0
    &&& GALOIS_VALUES[GALOIS_EXPONENTS[i] as int] == i
}

spec fn inverse_from(i: int) -> bool {
    inverse(i) && inverse(i + 1) && inverse(i + 2) && inverse(i + 3) && inverse(i + 4)
}

/// Whether the table of logarithms gives for a byte the place where the
/// byte stands in the table of powers.
spec fn placed(v: int) -> bool {
    &&& GALOIS_VALUES[v] < 255
    &&& GALOIS_EXPONENTS[GALOIS_VALUES[v] as int] == v
}

spec fn placed_from(v: int) -> bool {
    placed(v) && placed(v + 1) && placed(v + 2) && placed(v + 3) && placed(v + 4)
}

proof fn lemma_steps()
    ensures
        GALOIS_EXPONENTS[0] == 1,
        GALOIS_EXPONENTS[255] == 1,
        forall|i: int| 0 <= i < 255 ==> #[trigger] step(i),
{
    assert(steps_from(0));
    assert(steps_from(5));
    assert(steps_from(10));
    assert(steps_from(15));
    assert(steps_from(20));
    assert(steps_from(25));
    assert(steps_from(30));
    assert(steps_from(35));
    assert(steps_from(40));
    assert(steps_from(45));
    assert(steps_from(50));
    assert(steps_from(55));
    assert(steps_from(60));
    assert(steps_from(65));
    assert(steps_from(70));
    assert(steps_from(75));
    assert(steps_from(80));
    assert(steps_from(85));
    assert(steps_from(90));
    assert(steps_from(95));
    assert(steps_from(100));
    assert(steps_from(105));
    assert(steps_from(110));
    assert(steps_from(115));
    assert(steps_from(120));
    assert(steps_from(125));
    assert(steps_from(130));
    assert(steps_from(135));
    assert(steps_from(140));
    assert(steps_from(145));
    assert(steps_from(150));
    assert(steps_from(155));
    assert(steps_from(160));
    assert(steps_from(165));
    assert(steps_from(170));
    assert(steps_from(175));
    assert(steps_from(180));
    assert(steps_from(185));
    assert(steps_from(190));
    assert(steps_from(195));
    assert(steps_from(200));
    assert(steps_from(205));
    assert(steps_from(210));
    assert(steps_from(215));
    assert(steps_from(220));
    assert(steps_from(225));
    assert(steps_from(230));
    assert(steps_from(235));
    assert(steps_from(240));
    assert(steps_from(245));
    assert(steps_from(250));
    assert forall|i: int| 0 <= i < 255 implies #[trigger] step(i) by {
        assert(steps_from(i / 5 * 5));
    }
}

proof fn lemma_inverses()
    ensures
        forall|i: int| 0 <= i < 255 ==> #[trigger] inverse(i),
{
    assert(inverse_from(0));
    assert(inverse_from(5));
    assert(inverse_from(10));
    assert(inverse_from(15));
    assert(inverse_from(20));
    assert(inverse_from(25));
    assert(inverse_from(30));
    assert(inverse_from(35));
    assert(inverse_from(40));
    assert(inverse_from(45));
    assert(inverse_from(50));
    assert(inverse_from(55));
    assert(inverse_from(60));
    assert(inverse_from(65));
    assert(inverse_from(70));
    assert(inverse_from(75));
    assert(inverse_from(80));
    assert(inverse_from(85));
    assert(inverse_from(90));
    assert(inverse_from(95));
    assert(inverse_from(100));
    assert(inverse_from(105));
    assert(inverse_from(110));
    assert(inverse_from(115));
    assert(inverse_from(120));
    assert(inverse_from(125));
    assert(inverse_from(130));
    assert(inverse_from(135));
    assert(inverse_from(140));
    assert(inverse_from(145));
    assert(inverse_from(150));
    assert(inverse_from(155));
    assert(inverse_from(160));
    assert(inverse_from(165));
    assert(inverse_from(170));
    assert(inverse_from(175));
    assert(inverse_from(180));
    assert(inverse_from(185));
    assert(inverse_from(190));
    assert(inverse_from(195));
    assert(inverse_from(200));
    assert(inverse_from(205));
    assert(inverse_from(210));
    assert(inverse_from(215));
    assert(inverse_from(220));
    assert(inverse_from(225));
    assert(inverse_from(230));
    assert(inverse_from(235));
    assert(inverse_from(240));
    assert(inverse_from(245));
    assert(inverse_from(250));
    assert forall|i: int| 0 <= i < 255 implies #[trigger] inverse(i) by {
        assert(inverse_from(i / 5 * 5));
    }
}

proof fn lemma_places()
    ensures
        forall|v: int| 1 <= v <= 255 ==> #[trigger] placed(v),
{
    assert(placed_from(1));
    assert(placed_from(6));
    assert(placed_from(11));
    assert(placed_from(16));
    assert(placed_from(21));
    assert(placed_from(26));
    assert(placed_from(31));
    assert(placed_from(36));
    assert(placed_from(41));
    assert(placed_from(46));
    assert(placed_from(51));
    assert(placed_from(56));
    assert(placed_from(61));
    assert(placed_from(66));
    assert(placed_from(71));
    assert(placed_from(76));
    assert(placed_from(81));
    assert(placed_from(86));
    assert(placed_from(91));
    assert(placed_from(96));
    assert(placed_from(101));
    assert(placed_from(106));
    assert(placed_from(111));
    assert(placed_from(116));
    assert(placed_from(121));
    assert(placed_from(126));
    assert(placed_from(131));
    assert(placed_from(136));
    assert(placed_from(141));
    assert(placed_from(146));
    assert(placed_from(151));
    assert(placed_from(156));
    assert(placed_from(161));
    assert(placed_from(166));
    assert(placed_from(171));
    assert(placed_from(176));
    assert(placed_from(181));
    assert(placed_from(186));
    assert(placed_from(191));
    assert(placed_from(196));
    assert(placed_from(201));
    assert(placed_from(206));
    assert(placed_from(211));
    assert(placed_from(216));
    assert(placed_from(221));
    assert(placed_from(226));
    assert(placed_from(231));
    assert(placed_from(236));
    assert(placed_from(241));
    assert(placed_from(246));
    assert(placed_from(251));
    assert forall|v: int| 1 <= v <= 255 implies #[trigger] placed(v) by {
        assert(placed_from((v - 1) / 5 * 5 + 1));
    }
}

proof fn lemma_powers_upto(count: nat)
    requires
        count <= 255,
    ensures
        GALOIS_EXPONENTS[count as int] == gf_pow2(count),
    decreases count,
{
    lemma_steps();
    if count > 0 {
        lemma_powers_upto((count - 1) as nat);
        assert(step(count - 1));
        lemma_double_value(gf_pow2((count - 1) as nat));
        lemma_mul_two(gf_pow2((count - 1) as nat));
    }
}

/// Entry `i` of the table of powers is 2 to the power `i`.
pub proof fn lemma_powers(i: int)
    requires
        0 <= i <= 255,
    ensures
        GALOIS_EXPONENTS[i] == gf_pow2(i as nat),
{
    lemma_powers_upto(i as nat);
}

/// 2 to the power 255 is 1.
pub proof fn lemma_full_cycle()
    ensures
        gf_pow2(255) == 1,
{
    lemma_powers(255);
    lemma_steps();
}

/// Every byte but 0 is the power of 2 whose exponent the table of
/// logarithms gives, and the table gives an exponent below 255.
pub proof fn lemma_logarithm(x: u8)
    requires
        x != 0,
    ensures
        GALOIS_VALUES[x as int] < 255,
        gf_pow2(GALOIS_VALUES[x as int] as nat) == x,
{
    lemma_places();
    assert(placed(x as int));
    lemma_powers(GALOIS_VALUES[x as int] as int);
}

/// The table of logarithms gives the exponent of every power of 2 below
/// 255.
pub proof fn lemma_logarithm_of_power(i: nat)
    requires
        i < 255,
    ensures
        gf_pow2(i) != 0,
        GALOIS_VALUES[gf_pow2(i) as int] == i,
{
    lemma_inverses();
    assert(inverse(i as int));
    lemma_powers(i as int);
}

/// Different exponents below 255 give different powers of 2.
pub proof fn lemma_powers_differ(i: nat, j: nat)
    requires
        i < 255,
        j < 255,
        i != j,
    ensures
        gf_pow2(i) != gf_pow2(j),
{
    lemma_logarithm_of_power(i);
    lemma_logarithm_of_power(j);
}

/// A product is 0 only where a factor is 0.
pub proof fn lemma_no_zero_divisors(x: u8, y: u8)
    requires
        gf_mul(x, y) == 0,
    ensures
        x == 0 || y == 0,
{
    if x != 0 && y != 0 {
        lemma_mul_by_logarithms(x, y);
        lemma_logarithm(x);
        lemma_logarithm(y);
        let k = ((GALOIS_VALUES[x as int] + GALOIS_VALUES[y as int]) % 255) as nat;
        lemma_powers(k as int);
        lemma_logarithm_of_power(k);
    }
}

/// The product of two bytes that are not 0 is the power of 2 whose exponent
/// is the sum of their logarithms modulo 255.
pub proof fn lemma_mul_by_logarithms(x: u8, y: u8)
    requires
        x != 0,
        y != 0,
    ensures
        gf_mul(x, y) == GALOIS_EXPONENTS[(GALOIS_VALUES[x as int] + GALOIS_VALUES[y as int])
            % 255],
{
    let a = GALOIS_VALUES[x as int] as nat;
    let b = GALOIS_VALUES[y as int] as nat;
    lemma_logarithm(x);
    lemma_logarithm(y);
    lemma_power_sum(a, b);
    lemma_full_cycle();
    lemma_power_period(a + b);
    lemma_powers(((a + b) % 255) as int);
}

} // verus!
