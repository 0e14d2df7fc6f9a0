//! Bit strings as sequences of booleans, and how they are cut into bytes.

use vstd::arithmetic::power2::{lemma2_to64, pow2};
use vstd::prelude::*;

verus! {

/// The `width` lowest bits of `value`, most significant first.
#[verifier::opaque]
pub open spec fn be_bits(value: nat, width: nat) -> Seq<bool> {
    Seq::new(width, |i: int| (value / pow2((width - 1 - i) as nat)) % 2 == 1)
}

/// A value written in `width` bits gives `width` bits.
pub proof fn lemma_be_bits_len(value: nat, width: nat)
    ensures
        be_bits(value, width).len() == width,
{
    reveal(be_bits);
}

/// `count` zero bits.
pub open spec fn zeros(count: nat) -> Seq<bool> {
    Seq::new(count, |i: int| false)
}

/// Number of bits that bring a string of `len` bits to a whole number of bytes.
pub open spec fn align_pad(len: nat) -> nat {
    if len % 8 == 0 {
        0
    } else {
        (8 - len % 8) as nat
    }
}

/// `place` where bit `i` is set, else 0.
pub open spec fn bit_value(bits: Seq<bool>, i: int, place: int) -> int {
    if bits[i] {
        place
    } else {
        0
    }
}

/// Value of the eight bits that start at `8 * k`, the first being the most
/// significant.
pub open spec fn byte_at(bits: Seq<bool>, k: int) -> u8 {
    (bit_value(bits, 8 * k, 128) + bit_value(bits, 8 * k + 1, 64) + bit_value(bits, 8 * k + 2, 32)
        + bit_value(bits, 8 * k + 3, 16) + bit_value(bits, 8 * k + 4, 8) + bit_value(
        bits,
        8 * k + 5,
        4,
    ) + bit_value(bits, 8 * k + 6, 2) + bit_value(bits, 8 * k + 7, 1)) as u8
}

/// The whole bytes of a bit string. Bits after the last whole byte are left
/// out.
pub open spec fn pack_bytes(bits: Seq<bool>) -> Seq<u8> {
    Seq::new(bits.len() / 8, |k: int| byte_at(bits, k))
}

/// The parts `part(0)`, ..., `part(count - 1)` one after another.
pub open spec fn concat_upto<T>(count: nat, part: spec_fn(int) -> Seq<T>) -> Seq<T>
    decreases count,
{
    if count == 0 {
        Seq::empty()
    } else {
        concat_upto((count - 1) as nat, part) + part(count - 1)
    }
}

/// Where all parts have the same length, so many times that is the length of
/// the whole.
pub proof fn lemma_concat_uniform_len<T>(count: nat, part: spec_fn(int) -> Seq<T>, width: nat)
    requires
        forall|i: int| 0 <= i < count ==> (#[trigger] part(i)).len() == width,
    ensures
        concat_upto(count, part).len() == count * width,
    decreases count,
{
    if count > 0 {
        lemma_concat_uniform_len((count - 1) as nat, part, width);
        assert(part(count - 1).len() == width);
        assert((count - 1) * width + width == count * width) by (nonlinear_arith);
    } else {
        assert(count * width == 0) by (nonlinear_arith)
            requires
                count == 0,
        ;
    }
}

/// A byte is the sum of the values of its bits.
proof fn lemma_bits_sum(x: u8)
    by (bit_vector)
    ensures
        (if (x / 128) % 2 == 1 {
            128int
        } else {
            0int
        }) + (if (x / 64) % 2 == 1 {
            64int
        } else {
            0int
        }) + (if (x / 32) % 2 == 1 {
            32int
        } else {
            0int
        }) + (if (x / 16) % 2 == 1 {
            16int
        } else {
            0int
        }) + (if (x / 8) % 2 == 1 {
            8int
        } else {
            0int
        }) + (if (x / 4) % 2 == 1 {
            4int
        } else {
            0int
        }) + (if (x / 2) % 2 == 1 {
            2int
        } else {
            0int
        }) + (if (x / 1) % 2 == 1 {
            1int
        } else {
            0int
        }) == x,
{
}

/// The eight bits of a byte, read as a number, are the byte.
pub proof fn lemma_byte_of_bits(x: u8)
    ensures
        be_bits(x as nat, 8).len() == 8,
        byte_at(be_bits(x as nat, 8), 0) == x,
{
    let bits = be_bits(x as nat, 8);
    assert(bits.len() == 8 && bits[0] == ((x / 128) % 2 == 1) && bits[1] == ((x / 64) % 2 == 1)
        && bits[2] == ((x / 32) % 2 == 1) && bits[3] == ((x / 16) % 2 == 1) && bits[4] == ((x / 8)
        % 2 == 1) && bits[5] == ((x / 4) % 2 == 1) && bits[6] == ((x / 2) % 2 == 1) && bits[7] == ((x
        / 1) % 2 == 1)) by {
        reveal(be_bits);
        lemma2_to64();
    }
    lemma_bits_sum(x);
}

/// A byte written behind whole bytes is one more byte.
pub proof fn lemma_pack_push(bits: Seq<bool>, x: u8)
    requires
        bits.len() % 8 == 0,
    ensures
        pack_bytes(bits + be_bits(x as nat, 8)) == pack_bytes(bits).push(x),
{
    lemma_byte_of_bits(x);
    let tail = be_bits(x as nat, 8);
    let whole = bits + tail;
    let count = bits.len() as int / 8;
    assert(whole.len() / 8 == count + 1);
    assert forall|k: int| 0 <= k < count + 1 implies pack_bytes(whole)[k] == pack_bytes(bits).push(
        x,
    )[k] by {
        if k < count {
            assert(byte_at(whole, k) == byte_at(bits, k));
        } else {
            assert(whole[8 * k] == tail[0]);
            assert(whole[8 * k + 1] == tail[1]);
            assert(whole[8 * k + 2] == tail[2]);
            assert(whole[8 * k + 3] == tail[3]);
            assert(whole[8 * k + 4] == tail[4]);
            assert(whole[8 * k + 5] == tail[5]);
            assert(whole[8 * k + 6] == tail[6]);
            assert(whole[8 * k + 7] == tail[7]);
            assert(byte_at(whole, k) == byte_at(tail, 0));
        }
    }
    assert(pack_bytes(whole) =~= pack_bytes(bits).push(x));
}

} // verus!
