//! The table of generator polynomials holds the generator polynomials.
//!
//! A row of the table and the generator polynomial of its degree have the
//! same values at as many places as they have coefficients, so they are the
//! same polynomial.

use crate::encoder::codeword::{eval, eval_upto, gf_pow, lemma_generator_roots};
use crate::encoder::field::{
    lemma_mul_associative, lemma_mul_commutative, lemma_mul_distributive, lemma_mul_zero,
    lemma_xor,
};
use crate::encoder::logarithms::{lemma_no_zero_divisors, lemma_powers, lemma_powers_differ};
use crate::encoder::reed_solomon::{generator, gf_mul, gf_pow2, lemma_generator_len};
use crate::tables::galois::GALOIS_EXPONENTS;
use crate::tables::generator::{generator_exponents, generator_row, GENERATOR_EXPONENTS};
use vstd::prelude::*;

verus! {

/// Coefficient `i` of a row of the table, as a byte.
pub open spec fn table_coefficient(row: int, i: int) -> u8 {
    GALOIS_EXPONENTS[GENERATOR_EXPONENTS[row][i] as int]
}

/// The value at `r` of the polynomial of the first `count` coefficients of
/// a row of the table.
pub open spec fn table_value(row: int, r: u8, count: int) -> u8
    decreases count,
{
    if count <= 0 {
        0
    } else {
        gf_mul(table_value(row, r, count - 1), r) ^ table_coefficient(row, count - 1)
    }
}

/// Whether the polynomial of a row, with its leading term, has root number
/// `j` of the generator polynomial as a root.
pub open spec fn root_checked(row: int, count: int, j: int) -> bool {
    table_value(row, GALOIS_EXPONENTS[j], count) == gf_pow(GALOIS_EXPONENTS[j], count as nat)
}

/// Whether the polynomial of a row has the first `roots` roots of the
/// generator polynomial as roots.
pub open spec fn roots_checked(row: int, count: int, roots: int) -> bool
    decreases roots,
{
    if roots <= 0 {
        true
    } else {
        roots_checked(row, count, roots - 1) && root_checked(row, count, roots - 1)
    }
}

/// Every row of the table has the roots of the generator polynomial of its
/// degree.
proof fn lemma_rows_checked()
    ensures
        roots_checked(0, 7, 7),
        roots_checked(1, 10, 10),
        roots_checked(2, 13, 13),
        roots_checked(3, 15, 15),
        roots_checked(4, 16, 16),
        roots_checked(5, 17, 17),
        roots_checked(6, 18, 18),
        roots_checked(7, 20, 20),
        roots_checked(8, 22, 22),
        roots_checked(9, 24, 24),
        roots_checked(10, 26, 26),
        roots_checked(11, 28, 28),
        roots_checked(12, 30, 30),
{
    assert(roots_checked(0, 7, 7) && roots_checked(1, 10, 10) && roots_checked(2, 13, 13)
        && roots_checked(3, 15, 15) && roots_checked(4, 16, 16) && roots_checked(5, 17, 17))
        by (bit_vector);
    assert(roots_checked(6, 18, 18) && roots_checked(7, 20, 20) && roots_checked(8, 22, 22)
        && roots_checked(9, 24, 24)) by (bit_vector);
    assert(roots_checked(10, 26, 26) && roots_checked(11, 28, 28) && roots_checked(12, 30, 30))
        by (bit_vector);
}

proof fn lemma_root_checked(row: int, count: int, roots: int, j: int)
    requires
        roots_checked(row, count, roots),
        0 <= j < roots,
    ensures
        root_checked(row, count, j),
    decreases roots,
{
    if j < roots - 1 {
        lemma_root_checked(row, count, roots - 1, j);
    }
}

/// The coefficients of a row of the table, as bytes.
pub open spec fn table_polynomial(row: int, count: nat) -> Seq<u8> {
    Seq::new(count, |i: int| table_coefficient(row, i))
}

proof fn lemma_table_value(row: int, count: nat, r: u8, k: nat)
    requires
        k <= count,
    ensures
        eval_upto(table_polynomial(row, count), r, k) == table_value(row, r, k as int),
    decreases k,
{
    if k > 0 {
        lemma_table_value(row, count, r, (k - 1) as nat);
    }
}

/// The polynomial whose coefficients are the sums of those of two others.
pub open spec fn sum(a: Seq<u8>, b: Seq<u8>) -> Seq<u8> {
    Seq::new(a.len(), |i: int| a[i] ^ b[i])
}

/// The value of a sum is the sum of the values.
proof fn lemma_sum_value(a: Seq<u8>, b: Seq<u8>, r: u8, k: nat)
    requires
        a.len() == b.len(),
        k <= a.len(),
    ensures
        eval_upto(sum(a, b), r, k) == eval_upto(a, r, k) ^ eval_upto(b, r, k),
    decreases k,
{
    if k == 0 {
        lemma_xor(0, 0, 0);
    } else {
        let n = (k - 1) as nat;
        lemma_sum_value(a, b, r, n);
        let x = eval_upto(a, r, n);
        let y = eval_upto(b, r, n);
        lemma_mul_distributive(r, x, y);
        let xr = gf_mul(x, r);
        let yr = gf_mul(y, r);
        let p = a[n as int];
        let q = b[n as int];
        // (xr ^ yr) ^ (p ^ q) == (xr ^ p) ^ (yr ^ q)
        lemma_xor(xr, yr, p ^ q);
        lemma_xor(yr, p, q);
        lemma_xor(p, yr, q);
        lemma_xor(xr, p, yr ^ q);
    }
}

/// The quotient of a polynomial on division by x plus `r`: its
/// coefficients are the values at `r` of the leading parts of the
/// polynomial.
pub open spec fn quotient(p: Seq<u8>, r: u8) -> Seq<u8> {
    Seq::new((p.len() - 1) as nat, |i: int| eval_upto(p, r, (i + 1) as nat))
}

/// A polynomial is its quotient times x plus `r`, plus its value at `r`.
proof fn lemma_division(p: Seq<u8>, r: u8, s: u8, k: nat)
    requires
        1 <= k <= p.len(),
    ensures
        eval_upto(p, s, k) == gf_mul(eval_upto(quotient(p, r), s, (k - 1) as nat), s ^ r)
            ^ eval_upto(p, r, k),
    decreases k,
{
    let q = quotient(p, r);
    if k == 1 {
        reveal_with_fuel(eval_upto, 2);
        lemma_mul_zero(s);
        lemma_mul_zero(r);
        lemma_mul_zero(s ^ r);
        lemma_xor(p[0], 0, 0);
    } else {
        let n = (k - 1) as nat;
        lemma_division(p, r, s, n);
        let low = eval_upto(q, s, (n - 1) as nat);
        let d = s ^ r;
        let c = q[n - 1];
        assert(c == eval_upto(p, r, n));
        let coefficient = p[n as int];
        // left side: (low * d ^ c) * s ^ coefficient
        let ld = gf_mul(low, d);
        lemma_mul_distributive(s, ld, c);
        let lds = gf_mul(ld, s);
        let cs = gf_mul(c, s);
        assert(eval_upto(p, s, k) == (lds ^ cs) ^ coefficient);
        // right side: (low * s ^ c) * d ^ (c * r ^ coefficient)
        let ls = gf_mul(low, s);
        lemma_mul_distributive(d, ls, c);
        let lsd = gf_mul(ls, d);
        let cd = gf_mul(c, d);
        lemma_mul_distributive(c, s, r);
        let cr = gf_mul(c, r);
        assert(cd == cs ^ cr);
        lemma_mul_associative(low, d, s);
        lemma_mul_associative(low, s, d);
        lemma_mul_commutative(d, s);
        assert(lds == lsd);
        assert(eval_upto(q, s, n) == ls ^ c);
        assert(eval_upto(p, r, k) == cr ^ coefficient);
        // (lsd ^ (cs ^ cr)) ^ (cr ^ coefficient) == (lsd ^ cs) ^ coefficient
        lemma_xor(lsd, cs ^ cr, cr ^ coefficient);
        lemma_xor(cs, cr, cr ^ coefficient);
        lemma_xor(cr, cr, coefficient);
        lemma_xor(coefficient, 0, 0);
        lemma_xor(lsd, cs, coefficient);
    }
}

/// Whether no byte stands twice among the roots.
pub open spec fn distinct(roots: Seq<u8>) -> bool {
    forall|i: int, j: int| 0 <= i < j < roots.len() ==> roots[i] != roots[j]
}

/// A polynomial that has as many different roots as it has coefficients is
/// zero.
proof fn lemma_zero_polynomial(p: Seq<u8>, roots: Seq<u8>)
    requires
        p.len() == roots.len(),
        distinct(roots),
        forall|j: int| 0 <= j < roots.len() ==> eval(p, #[trigger] roots[j]) == 0,
    ensures
        forall|i: int| 0 <= i < p.len() ==> p[i] == 0,
    decreases p.len(),
{
    if p.len() > 0 {
        let r = roots[0];
        let q = quotient(p, r);
        let rest = roots.drop_first();
        let n = p.len();
        assert forall|j: int| 0 <= j < rest.len() implies eval(q, #[trigger] rest[j]) == 0 by {
            let s = rest[j];
            assert(s == roots[j + 1]);
            assert(eval(p, roots[j + 1]) == 0);
            assert(eval(p, roots[0]) == 0);
            lemma_division(p, r, s, n);
            let v = gf_mul(eval(q, s), s ^ r);
            lemma_xor(v, 0, 0);
            lemma_no_zero_divisors(eval(q, s), s ^ r);
            lemma_xor(s, r, 0);
        }
        assert(distinct(rest)) by {
            assert forall|i: int, j: int| 0 <= i < j < rest.len() implies rest[i] != rest[j] by {
                assert(rest[i] == roots[i + 1] && rest[j] == roots[j + 1]);
            }
        }
        lemma_zero_polynomial(q, rest);
        assert(eval(p, roots[0]) == 0);
        assert forall|i: int| 0 <= i < n implies p[i] == 0 by {
            // the values of the leading parts before and behind coefficient i
            let before = eval_upto(p, r, i as nat);
            let behind = eval_upto(p, r, (i + 1) as nat);
            if i > 0 {
                assert(q[i - 1] == before);
            }
            if i + 1 < n {
                assert(q[i] == behind);
            }
            assert(before == 0 && behind == 0);
            lemma_mul_zero(r);
            lemma_xor(p[i], 0, 0);
        }
    }
}

/// The roots of the generator polynomial of a degree.
pub open spec fn generator_roots(degree: nat) -> Seq<u8> {
    Seq::new(degree, |j: int| gf_pow2(j as nat))
}

proof fn lemma_row(row: int, degree: nat)
    requires
        1 <= degree <= 30,
        roots_checked(row, degree as int, degree as int),
    ensures
        forall|i: int| 0 <= i < degree ==> generator(degree)[i] == table_coefficient(row, i),
{
    let g = generator(degree);
    let t = table_polynomial(row, degree);
    let d = sum(g, t);
    let roots = generator_roots(degree);
    lemma_generator_len(degree, degree);
    assert forall|j: int| 0 <= j < roots.len() implies eval(d, #[trigger] roots[j]) == 0 by {
        let r = gf_pow2(j as nat);
        lemma_generator_roots(degree, j as nat);
        lemma_root_checked(row, degree as int, degree as int, j);
        lemma_powers(j);
        lemma_table_value(row, degree, r, degree);
        lemma_sum_value(g, t, r, degree);
        lemma_xor(eval(g, r), 0, 0);
    }
    assert(distinct(roots)) by {
        assert forall|i: int, j: int| 0 <= i < j < roots.len() implies roots[i] != roots[j] by {
            lemma_powers_differ(i as nat, j as nat);
        }
    }
    lemma_zero_polynomial(d, roots);
    assert forall|i: int| 0 <= i < degree implies g[i] == table_coefficient(row, i) by {
        assert(d[i] == 0);
        lemma_xor(g[i], t[i], 0);
    }
}

/// The table of generator polynomials holds, for every degree that it
/// lists, the logarithms of the coefficients of the generator polynomial of
/// that degree.
pub proof fn lemma_generator_table(count: int, i: int)
    requires
        generator_row(count).is_some(),
        0 <= i < count,
    ensures
        generator_exponents(count).len() == count,
        generator(count as nat)[i] == gf_pow2(generator_exponents(count)[i] as nat),
{
    lemma_rows_checked();
    let row = generator_row(count).unwrap();
    lemma_row(row, count as nat);
    let exponent = GENERATOR_EXPONENTS[row][i];
    assert(generator_exponents(count)[i] == exponent);
    assert(generator(count as nat)[i] == table_coefficient(row, i));
    lemma_powers(exponent as int);
}

} // verus!
