//! The roots of a block: read as a polynomial over GF(256), a block of data
//! codewords with its error-correction codewords has the powers 2^0, 2^1,
//! ... of the generator element as roots, one for each error-correction
//! codeword.

use crate::encoder::field::{
    lemma_mul_associative, lemma_mul_commutative, lemma_mul_distributive, lemma_mul_one_left,
    lemma_mul_one_right, lemma_mul_zero, lemma_xor,
};
use crate::encoder::reed_solomon::{
    error_correction_of, generator, generator_upto, gf_mul, gf_pow2, lemma_generator_len,
    lemma_remainder_len, remainder, remainder_step, times_linear,
};
use vstd::prelude::*;

verus! {

/// `r` to the power `k`.
pub open spec fn gf_pow(r: u8, k: nat) -> u8
    decreases k,
{
    if k == 0 {
        1
    } else {
        gf_mul(gf_pow(r, (k - 1) as nat), r)
    }
}

/// The value at `r` of the polynomial whose coefficients are the first
/// `count` of `p`, from the highest power down.
pub open spec fn eval_upto(p: Seq<u8>, r: u8, count: nat) -> u8
    decreases count,
{
    if count == 0 {
        0
    } else {
        gf_mul(eval_upto(p, r, (count - 1) as nat), r) ^ p[count - 1]
    }
}

/// The value at `r` of the polynomial with the coefficients `p`, from the
/// highest power down.
pub open spec fn eval(p: Seq<u8>, r: u8) -> u8 {
    eval_upto(p, r, p.len())
}

/// A sum of three in another order.
proof fn lemma_xor_swap(a: u8, b: u8, c: u8)
    ensures
        (a ^ b) ^ c == (a ^ c) ^ b,
        (a ^ b) ^ b == a,
        a ^ (b ^ c) == (a ^ b) ^ c,
{
    lemma_xor(a, b, c);
    lemma_xor(b, c, 0);
    lemma_xor(a, c, b);
    lemma_xor(a, b, b);
}

/// Polynomials that agree in their first coefficients agree in the value
/// of those.
proof fn lemma_eval_agree(p: Seq<u8>, q: Seq<u8>, r: u8, count: nat)
    requires
        forall|j: int| 0 <= j < count ==> p[j] == q[j],
    ensures
        eval_upto(p, r, count) == eval_upto(q, r, count),
    decreases count,
{
    if count > 0 {
        lemma_eval_agree(p, q, r, (count - 1) as nat);
    }
}

/// The value of a polynomial, split into its leading term and the rest.
proof fn lemma_eval_leading(s: Seq<u8>, r: u8, count: nat)
    requires
        1 <= count <= s.len(),
    ensures
        eval_upto(s, r, count) == gf_mul(s[0], gf_pow(r, (count - 1) as nat)) ^ eval_upto(
            s.drop_first(),
            r,
            (count - 1) as nat,
        ),
    decreases count,
{
    let rest = s.drop_first();
    if count == 1 {
        reveal_with_fuel(eval_upto, 2);
        lemma_mul_zero(r);
        lemma_mul_one_right(s[0]);
        lemma_xor(s[0], 0, 0);
    } else {
        let k = (count - 1) as nat;
        lemma_eval_leading(s, r, k);
        let lead = gf_mul(s[0], gf_pow(r, (k - 1) as nat));
        let tail = eval_upto(rest, r, (k - 1) as nat);
        assert(eval_upto(s, r, k) == lead ^ tail);
        lemma_mul_distributive(r, lead, tail);
        lemma_mul_associative(s[0], gf_pow(r, (k - 1) as nat), r);
        assert(gf_mul(lead, r) == gf_mul(s[0], gf_pow(r, k)));
        assert(rest[k - 1] == s[k as int]);
        lemma_xor(gf_mul(lead, r), gf_mul(tail, r), s[k as int]);
    }
}

/// The value of two polynomials written one after the other.
pub proof fn lemma_eval_concat(a: Seq<u8>, b: Seq<u8>, r: u8, count: nat)
    requires
        count <= b.len(),
    ensures
        eval_upto(a + b, r, a.len() + count) == gf_mul(eval(a, r), gf_pow(r, count)) ^ eval_upto(
            b,
            r,
            count,
        ),
    decreases count,
{
    if count == 0 {
        lemma_eval_agree(a + b, a, r, a.len());
        lemma_mul_one_right(eval(a, r));
        lemma_xor(eval(a, r), 0, 0);
    } else {
        let k = (count - 1) as nat;
        lemma_eval_concat(a, b, r, k);
        let high = gf_mul(eval(a, r), gf_pow(r, k));
        let low = eval_upto(b, r, k);
        lemma_mul_distributive(r, high, low);
        lemma_mul_associative(eval(a, r), gf_pow(r, k), r);
        assert((a + b)[a.len() + count - 1] == b[count - 1]);
        lemma_xor(gf_mul(high, r), gf_mul(low, r), b[count - 1]);
    }
}

/// The polynomial `s`, moved up by one power and without the term that
/// leaves at the front, plus `f` times the polynomial `d`.
pub open spec fn shifted_sum(s: Seq<u8>, d: Seq<u8>, f: u8) -> Seq<u8> {
    Seq::new(
        s.len(),
        |i: int|
            if i + 1 < s.len() {
                s[i + 1] ^ gf_mul(d[i], f)
            } else {
                gf_mul(d[i], f)
            },
    )
}

proof fn lemma_shifted_sum_prefix(s: Seq<u8>, d: Seq<u8>, f: u8, r: u8, count: nat)
    requires
        s.len() == d.len(),
        count + 1 <= s.len(),
    ensures
        eval_upto(shifted_sum(s, d, f), r, count) == eval_upto(s.drop_first(), r, count) ^ gf_mul(
            f,
            eval_upto(d, r, count),
        ),
    decreases count,
{
    if count == 0 {
        lemma_mul_zero(f);
        lemma_xor(0, 0, 0);
    } else {
        let k = (count - 1) as nat;
        lemma_shifted_sum_prefix(s, d, f, r, k);
        let a = eval_upto(s.drop_first(), r, k);
        let b = eval_upto(d, r, k);
        let fb = gf_mul(f, b);
        // value so far, times r
        lemma_mul_distributive(r, a, fb);
        lemma_mul_associative(f, b, r);
        let ar = gf_mul(a, r);
        let fbr = gf_mul(f, gf_mul(b, r));
        assert(gf_mul(a ^ fb, r) == ar ^ fbr);
        // the next coefficient
        let sk = s[count as int];
        let fd = gf_mul(d[k as int], f);
        assert(shifted_sum(s, d, f)[k as int] == sk ^ fd);
        assert(s.drop_first()[k as int] == sk);
        lemma_mul_commutative(d[k as int], f);
        lemma_mul_distributive(f, gf_mul(b, r), d[k as int]);
        // (ar ^ fbr) ^ (sk ^ fd) == (ar ^ sk) ^ (fbr ^ fd)
        lemma_xor(ar, fbr, sk ^ fd);
        lemma_xor(fbr, sk, fd);
        lemma_xor(sk, fbr, fd);
        lemma_xor(ar, sk, fbr ^ fd);
    }
}

/// The value of a shifted sum, from the values of its two polynomials.
proof fn lemma_shifted_sum_eval(s: Seq<u8>, d: Seq<u8>, f: u8, r: u8)
    requires
        s.len() == d.len(),
        s.len() >= 1,
    ensures
        eval(shifted_sum(s, d, f), r) == gf_mul(
            eval(s, r) ^ gf_mul(s[0], gf_pow(r, (s.len() - 1) as nat)),
            r,
        ) ^ gf_mul(f, eval(d, r)),
{
    let n = s.len();
    let k = (n - 1) as nat;
    let t = shifted_sum(s, d, f);
    lemma_shifted_sum_prefix(s, d, f, r, k);
    lemma_eval_leading(s, r, n);
    let lead = gf_mul(s[0], gf_pow(r, k));
    let a = eval_upto(s.drop_first(), r, k);
    let b = eval_upto(d, r, k);
    let fb = gf_mul(f, b);
    // a == eval(s) ^ lead
    assert(eval(s, r) == lead ^ a);
    assert((lead ^ a) ^ lead == a) by {
        lemma_xor(lead, a, 0);
        lemma_xor_swap(a, lead, lead);
    }
    assert(eval(s, r) ^ lead == a);
    // the last step of the value of t
    assert(t[k as int] == gf_mul(d[k as int], f));
    lemma_mul_distributive(r, a, fb);
    lemma_mul_associative(f, b, r);
    lemma_mul_commutative(d[k as int], f);
    lemma_mul_distributive(f, gf_mul(b, r), d[k as int]);
    let ar = gf_mul(a, r);
    let fbr = gf_mul(f, gf_mul(b, r));
    let fd = gf_mul(f, d[k as int]);
    assert(eval(t, r) == (ar ^ fbr) ^ fd);
    lemma_xor(ar, fbr, fd);
}

/// Before the last factor the generator polynomial has not filled its
/// coefficients: they begin with zeros, then comes the leading 1.
proof fn lemma_generator_leading(degree: nat, factors: nat, j: int)
    requires
        factors < degree,
        0 <= j <= degree - 1 - factors,
    ensures
        generator_upto(degree, factors)[j] == if j == degree - 1 - factors {
            1u8
        } else {
            0u8
        },
    decreases factors,
{
    if factors > 0 {
        let k = (factors - 1) as nat;
        let p = generator_upto(degree, k);
        lemma_generator_len(degree, k);
        lemma_generator_leading(degree, k, j);
        lemma_generator_leading(degree, k, j + 1);
        lemma_mul_zero(gf_pow2(k));
        lemma_xor(0, 0, 0);
        lemma_xor(1, 0, 0);
    }
}

/// One more factor of the generator polynomial, in values: the value at
/// `r` is multiplied by `r` plus the root of the factor; with the last
/// factor the leading term is left out.
proof fn lemma_generator_step(degree: nat, factors: nat, r: u8)
    requires
        factors < degree,
    ensures
        eval(generator_upto(degree, factors + 1), r) == if factors + 1 < degree {
            gf_mul(eval(generator_upto(degree, factors), r), r ^ gf_pow2(factors))
        } else {
            gf_mul(eval(generator_upto(degree, factors), r), r ^ gf_pow2(factors)) ^ gf_pow(
                r,
                degree,
            )
        },
{
    let p = generator_upto(degree, factors);
    let root = gf_pow2(factors);
    lemma_generator_len(degree, factors);
    lemma_generator_len(degree, factors + 1);
    let next = generator_upto(degree, factors + 1);
    assert(next == times_linear(p, root));
    assert(next =~= shifted_sum(p, p, root)) by {
        assert forall|i: int| 0 <= i < degree implies next[i] == shifted_sum(p, p, root)[i] by {
            if i + 1 < degree {
                lemma_xor(gf_mul(p[i], root), p[i + 1], 0);
            }
        }
    }
    lemma_shifted_sum_eval(p, p, root, r);
    lemma_generator_leading(degree, factors, 0);
    let e = eval(p, r);
    let top = gf_pow(r, (degree - 1) as nat);
    lemma_mul_distributive(e, r, root);
    lemma_mul_commutative(root, e);
    if factors + 1 < degree {
        assert(p[0] == 0);
        lemma_mul_zero(top);
        lemma_xor(e, 0, 0);
    } else {
        assert(p[0] == 1);
        lemma_mul_one_left(top);
        lemma_mul_distributive(r, e, top);
        let er = gf_mul(e, r);
        let high = gf_mul(top, r);
        assert(high == gf_pow(r, degree));
        let re = gf_mul(e, root);
        // (er ^ high) ^ re == (er ^ re) ^ high
        lemma_xor_swap(er, high, re);
    }
}

/// From the factor of a root on, the value of the growing generator
/// polynomial at that root is 0.
proof fn lemma_generator_vanishes(degree: nat, i: nat, factors: nat)
    requires
        i < factors < degree,
    ensures
        eval(generator_upto(degree, factors), gf_pow2(i)) == 0,
    decreases factors,
{
    let r = gf_pow2(i);
    let k = (factors - 1) as nat;
    lemma_generator_step(degree, k, r);
    if k == i {
        lemma_xor(r, r, 0);
        lemma_mul_zero(eval(generator_upto(degree, k), r));
    } else {
        lemma_generator_vanishes(degree, i, k);
        lemma_mul_zero(r ^ gf_pow2(k));
    }
}

/// The generator polynomial with its leading term has every power of 2
/// below its degree as a root: without the leading term, its value there is
/// that of the leading term.
pub proof fn lemma_generator_roots(degree: nat, i: nat)
    requires
        i < degree,
    ensures
        eval(generator(degree), gf_pow2(i)) == gf_pow(gf_pow2(i), degree),
{
    let r = gf_pow2(i);
    let k = (degree - 1) as nat;
    lemma_generator_step(degree, k, r);
    let e = eval(generator_upto(degree, k), r);
    if i == k {
        lemma_xor(r, r, 0);
        lemma_mul_zero(e);
    } else {
        lemma_generator_vanishes(degree, i, k);
        lemma_mul_zero(r ^ gf_pow2(k));
    }
    lemma_xor(gf_pow(r, degree), 0, 0);
}

/// At a root of the divisor with its leading term, the remainder has the
/// value of the message times the leading term.
proof fn lemma_remainder_value(message: Seq<u8>, divisor: Seq<u8>, r: u8)
    requires
        divisor.len() >= 1,
        eval(divisor, r) == gf_pow(r, divisor.len()),
    ensures
        eval(remainder(message, divisor), r) == gf_mul(eval(message, r), gf_pow(r, divisor.len())),
    decreases message.len(),
{
    let n = divisor.len();
    let top = gf_pow(r, n);
    if message.len() == 0 {
        let zero = Seq::new(n, |i: int| 0u8);
        lemma_mul_zero(top);
        lemma_zero_value(zero, r, n);
    } else {
        let before = message.drop_last();
        let byte = message.last();
        let s = remainder(before, divisor);
        lemma_remainder_value(before, divisor, r);
        lemma_remainder_len(before, divisor);
        let f = byte ^ s[0];
        assert(remainder(message, divisor) == remainder_step(s, divisor, byte));
        assert(remainder_step(s, divisor, byte) =~= shifted_sum(s, divisor, f));
        lemma_shifted_sum_eval(s, divisor, f, r);
        let m = eval(before, r);
        let es = eval(s, r);
        assert(es == gf_mul(m, top));
        let lead = gf_mul(s[0], gf_pow(r, (n - 1) as nat));
        // the remainder: (es ^ lead) * r ^ f * top
        lemma_mul_distributive(r, es, lead);
        lemma_mul_associative(s[0], gf_pow(r, (n - 1) as nat), r);
        let esr = gf_mul(es, r);
        let st = gf_mul(s[0], top);
        assert(gf_mul(es ^ lead, r) == esr ^ st);
        lemma_mul_distributive(top, byte, s[0]);
        let bt = gf_mul(byte, top);
        lemma_mul_commutative(f, top);
        assert(gf_mul(f, top) == bt ^ st);
        // (esr ^ st) ^ (bt ^ st) == esr ^ bt
        lemma_xor(esr, st, bt ^ st);
        lemma_xor_swap(bt, st, st);
        assert(st ^ (bt ^ st) == bt) by {
            lemma_xor(st, bt ^ st, 0);
        }
        assert(eval(remainder(message, divisor), r) == esr ^ bt);
        // the message: (m * r ^ byte) * top
        assert(eval(message, r) == gf_mul(eval_upto(message, r, before.len()), r) ^ byte);
        lemma_eval_agree(message, before, r, before.len());
        lemma_mul_distributive(top, gf_mul(m, r), byte);
        lemma_mul_associative(m, r, top);
        lemma_mul_commutative(r, top);
        lemma_mul_associative(m, top, r);
    }
}

/// A polynomial of zeros has the value 0.
proof fn lemma_zero_value(p: Seq<u8>, r: u8, count: nat)
    requires
        count <= p.len(),
        forall|i: int| 0 <= i < p.len() ==> p[i] == 0,
    ensures
        eval_upto(p, r, count) == 0,
    decreases count,
{
    if count > 0 {
        lemma_zero_value(p, r, (count - 1) as nat);
        lemma_mul_zero(r);
        lemma_xor(0, 0, 0);
    }
}

/// A block of data codewords followed by its error-correction codewords is
/// a polynomial that has the value 0 at 2 to the power `i`, for every `i`
/// below the number of error-correction codewords.
pub proof fn lemma_codeword_roots(block: Seq<u8>, count: nat, i: nat)
    requires
        1 <= count,
        i < count,
    ensures
        eval(block + error_correction_of(block, count), gf_pow2(i)) == 0,
{
    let r = gf_pow2(i);
    let divisor = generator(count);
    let codes = error_correction_of(block, count);
    lemma_generator_len(count, count);
    lemma_remainder_len(block, divisor);
    lemma_generator_roots(count, i);
    lemma_remainder_value(block, divisor, r);
    lemma_eval_concat(block, codes, r, count);
    lemma_xor(eval(codes, r), eval(codes, r), 0);
}

} // verus!
