//! How the characters of a text are packed into bits in each mode.

use crate::bits::{align_pad, be_bits, concat_upto, lemma_concat_uniform_len, pack_bytes, zeros};
use crate::bitsink::{written, BitSink};
use crate::encoder::mode::EncodingMode;
use crate::text::{all_alphanumeric, all_digits, alphanumeric_code, is_alphanumeric_byte, is_digit};
use vstd::arithmetic::power2::lemma2_to64;
use vstd::prelude::*;
use vstd::utf8::encode_utf8;

verus! {

/// Value of a digit.
pub open spec fn digit_value(b: u8) -> int {
    b - 48
}

/// Number of groups of `size` characters in `len` characters, the last one
/// possibly shorter.
pub open spec fn group_count(len: nat, size: nat) -> nat {
    ((len + size - 1) / size as int) as nat
}

/// Bits of the group of up to three digits that starts at `3 * g`: the
/// number they spell, in 10, 7 or 4 bits for 3, 2 or 1 digits.
pub open spec fn numeric_group(text: Seq<u8>, g: int) -> Seq<bool> {
    let at = 3 * g;
    if text.len() - at >= 3 {
        be_bits(
            (100 * digit_value(text[at]) + 10 * digit_value(text[at + 1]) + digit_value(
                text[at + 2],
            )) as nat,
            10,
        )
    } else if text.len() - at == 2 {
        be_bits((10 * digit_value(text[at]) + digit_value(text[at + 1])) as nat, 7)
    } else {
        be_bits(digit_value(text[at]) as nat, 4)
    }
}

/// A text of digits in numeric mode.
pub open spec fn numeric_bits(text: Seq<u8>) -> Seq<bool> {
    concat_upto(group_count(text.len(), 3), |g: int| numeric_group(text, g))
}

/// Bits of the group of up to two characters that starts at `2 * g`: 45
/// times the first plus the second in 11 bits, or a single one in 6 bits.
pub open spec fn alphanumeric_group(text: Seq<u8>, g: int) -> Seq<bool> {
    let at = 2 * g;
    if text.len() - at >= 2 {
        be_bits(
            (45 * alphanumeric_code(text[at] as char) + alphanumeric_code(
                text[at + 1] as char,
            )) as nat,
            11,
        )
    } else {
        be_bits(alphanumeric_code(text[at] as char) as nat, 6)
    }
}

/// A text in alphanumeric mode.
pub open spec fn alphanumeric_bits(text: Seq<u8>) -> Seq<bool> {
    concat_upto(group_count(text.len(), 2), |g: int| alphanumeric_group(text, g))
}

/// A text in byte mode: every byte in eight bits.
pub open spec fn byte_bits(text: Seq<u8>) -> Seq<bool> {
    concat_upto(text.len(), |i: int| be_bits(text[i] as nat, 8))
}

/// A text packed in a mode.
pub open spec fn payload_bits(mode: EncodingMode, text: Seq<u8>) -> Seq<bool> {
    match mode {
        EncodingMode::Numeric => numeric_bits(text),
        EncodingMode::Alphanumeric => alphanumeric_bits(text),
        EncodingMode::Byte => byte_bits(text),
    }
}

/// Number of bits that `count` characters take in a mode.
pub open spec fn payload_len(mode: EncodingMode, count: int) -> int {
    match mode {
        EncodingMode::Numeric => 10 * (count / 3) + if count % 3 == 1 {
            4int
        } else if count % 3 == 2 {
            7int
        } else {
            0int
        },
        EncodingMode::Alphanumeric => 11 * (count / 2) + 6 * (count % 2),
        EncodingMode::Byte => 8 * count,
    }
}

proof fn lemma_numeric_prefix_len(text: Seq<u8>, groups: nat)
    requires
        groups <= group_count(text.len(), 3),
    ensures
        concat_upto(groups, |g: int| numeric_group(text, g)).len() == if 3 * groups <= text.len() {
            10 * groups as int
        } else {
            payload_len(EncodingMode::Numeric, text.len() as int)
        },
    decreases groups,
{
    reveal(be_bits);
    if groups > 0 {
        lemma_numeric_prefix_len(text, (groups - 1) as nat);
    }
}

proof fn lemma_alphanumeric_prefix_len(text: Seq<u8>, groups: nat)
    requires
        groups <= group_count(text.len(), 2),
    ensures
        concat_upto(groups, |g: int| alphanumeric_group(text, g)).len() == if 2 * groups
            <= text.len() {
            11 * groups as int
        } else {
            payload_len(EncodingMode::Alphanumeric, text.len() as int)
        },
    decreases groups,
{
    reveal(be_bits);
    if groups > 0 {
        lemma_alphanumeric_prefix_len(text, (groups - 1) as nat);
    }
}

/// The packed text is as long as `payload_len` says.
pub proof fn lemma_payload_len(mode: EncodingMode, text: Seq<u8>)
    ensures
        payload_bits(mode, text).len() == payload_len(mode, text.len() as int),
{
    match mode {
        EncodingMode::Numeric => {
            lemma_numeric_prefix_len(text, group_count(text.len(), 3));
        },
        EncodingMode::Alphanumeric => {
            lemma_alphanumeric_prefix_len(text, group_count(text.len(), 2));
        },
        EncodingMode::Byte => {
            reveal(be_bits);
            lemma_concat_uniform_len(text.len(), |i: int| be_bits(text[i] as nat, 8), 8);
        },
    }
}

/// More characters never take fewer bits.
pub proof fn lemma_payload_len_monotonic(mode: EncodingMode, a: int, b: int)
    requires
        0 <= a <= b,
    ensures
        0 <= payload_len(mode, a) <= payload_len(mode, b),
{
}

/// Appends a text of digits in numeric mode.
pub(crate) fn write_numeric(sink: &mut BitSink, text: &[u8])
    requires
        all_digits(text@),
    ensures
        written(*final(sink)) == written(*old(sink)) + numeric_bits(text@),
{
    let mut i: usize = 0;
    let ghost mut groups: nat = 0;
    while i < text.len()
        invariant
            all_digits(text@),
            i <= text.len(),
            groups <= group_count(text@.len(), 3),
            i == 3 * groups || (i == text.len() && groups == group_count(text@.len(), 3)),
            written(*sink) == written(*old(sink)) + concat_upto(
                groups,
                |g: int| numeric_group(text@, g),
            ),
        decreases text.len() - i,
    {
        let remaining: usize = text.len() - i;
        proof {
            lemma2_to64();
            assert(is_digit(text@[i as int]));
        }
        let first: u32 = (text[i] - 48) as u32;
        let ghost before = written(*sink);
        if remaining >= 3 {
            proof {
                assert(is_digit(text@[i + 1]));
                assert(is_digit(text@[i + 2]));
            }
            let second: u32 = (text[i + 1] - 48) as u32;
            let third: u32 = (text[i + 2] - 48) as u32;
            sink.write(10, 100 * first + 10 * second + third);
            i += 3;
        } else if remaining == 2 {
            proof {
                assert(is_digit(text@[i + 1]));
            }
            let second: u32 = (text[i + 1] - 48) as u32;
            sink.write(7, 10 * first + second);
            i = text.len();
        } else {
            sink.write(4, first);
            i = text.len();
        }
        proof {
            assert(written(*sink) == before + numeric_group(text@, groups as int));
            groups = groups + 1;
            assert(written(*sink) =~= written(*old(sink)) + concat_upto(
                groups,
                |g: int| numeric_group(text@, g),
            ));
        }
    }
    assert(groups == group_count(text@.len(), 3));
}

/// Appends a text in alphanumeric mode.
pub(crate) fn write_alphanumeric(sink: &mut BitSink, text: &[u8])
    requires
        all_alphanumeric(text@),
    ensures
        written(*final(sink)) == written(*old(sink)) + alphanumeric_bits(text@),
{
    let mut i: usize = 0;
    let ghost mut groups: nat = 0;
    while i < text.len()
        invariant
            all_alphanumeric(text@),
            i <= text.len(),
            groups <= group_count(text@.len(), 2),
            i == 2 * groups || (i == text.len() && groups == group_count(text@.len(), 2)),
            written(*sink) == written(*old(sink)) + concat_upto(
                groups,
                |g: int| alphanumeric_group(text@, g),
            ),
        decreases text.len() - i,
    {
        let remaining: usize = text.len() - i;
        proof {
            lemma2_to64();
            assert(is_alphanumeric_byte(text@[i as int]));
        }
        let first: u32 = crate::encoder::mode::alphanumeric_value(text[i] as char) as u32;
        let ghost before = written(*sink);
        if remaining >= 2 {
            proof {
                assert(is_alphanumeric_byte(text@[i + 1]));
            }
            let second: u32 = crate::encoder::mode::alphanumeric_value(text[i + 1] as char) as u32;
            sink.write(11, 45 * first + second);
            i += 2;
        } else {
            sink.write(6, first);
            i = text.len();
        }
        proof {
            assert(written(*sink) == before + alphanumeric_group(text@, groups as int));
            groups = groups + 1;
            assert(written(*sink) =~= written(*old(sink)) + concat_upto(
                groups,
                |g: int| alphanumeric_group(text@, g),
            ));
        }
    }
    assert(groups == group_count(text@.len(), 2));
}

/// Appends a text in byte mode.
pub(crate) fn write_bytes(sink: &mut BitSink, text: &[u8])
    ensures
        written(*final(sink)) == written(*old(sink)) + byte_bits(text@),
{
    let mut i: usize = 0;
    while i < text.len()
        invariant
            i <= text.len(),
            written(*sink) == written(*old(sink)) + concat_upto(
                i as nat,
                |k: int| be_bits(text@[k] as nat, 8),
            ),
        decreases text.len() - i,
    {
        proof {
            lemma2_to64();
        }
        let ghost before = written(*sink);
        sink.write(8, text[i] as u32);
        i += 1;
        assert(written(*sink) =~= written(*old(sink)) + concat_upto(
            i as nat,
            |k: int| be_bits(text@[k] as nat, 8),
        ));
    }
}

/// Appends a text in the mode given.
pub(crate) fn write_payload(sink: &mut BitSink, mode: EncodingMode, text: &[u8])
    requires
        mode == EncodingMode::Numeric ==> all_digits(text@),
        mode == EncodingMode::Alphanumeric ==> all_alphanumeric(text@),
    ensures
        written(*final(sink)) == written(*old(sink)) + payload_bits(mode, text@),
{
    match mode {
        EncodingMode::Numeric => write_numeric(sink, text),
        EncodingMode::Alphanumeric => write_alphanumeric(sink, text),
        EncodingMode::Byte => write_bytes(sink, text),
    }
}

/// The number of bits that `count` characters take in a mode.
pub fn get_payload_len(mode: EncodingMode, count: usize) -> (r: usize)
    requires
        payload_len(mode, count as int) <= usize::MAX,
    ensures
        r == payload_len(mode, count as int),
{
    match mode {
        EncodingMode::Numeric => {
            let tail: usize = if count % 3 == 1 {
                4
            } else if count % 3 == 2 {
                7
            } else {
                0
            };
            10 * (count / 3) + tail
        },
        EncodingMode::Alphanumeric => 11 * (count / 2) + 6 * (count % 2),
        EncodingMode::Byte => 8 * count,
    }
}

/// A text packed in one mode: its bits in whole bytes, the last one filled
/// up with zeros, and the number of bits before that filling.
pub struct EncodedData {
    pub data: Vec<u8>,
    pub size_in_bits: u32,
}

impl EncodedData {
    /// No bits yet.
    pub fn new() -> (encoded: Self)
        ensures
            encoded.data@ == Seq::<u8>::empty(),
            encoded.size_in_bits == 0,
    {
        Self { data: Vec::new(), size_in_bits: 0 }
    }

    /// Whether this is `bits`, cut into bytes.
    pub open spec fn holds(self, bits: Seq<bool>) -> bool {
        &&& self.size_in_bits == bits.len()
        &&& self.data@ == pack_bytes(bits + zeros(align_pad(bits.len())))
    }
}

fn finish(sink: BitSink, mode: EncodingMode, count: usize) -> (encoded: EncodedData)
    requires
        payload_len(mode, count as int) <= u32::MAX,
        written(sink).len() == payload_len(mode, count as int),
    ensures
        encoded.holds(written(sink)),
{
    let mut sink = sink;
    let ghost bits = written(sink);
    sink.byte_align();
    let mut encoded = EncodedData::new();
    encoded.size_in_bits = get_payload_len(mode, count) as u32;
    encoded.data = sink.into_writer();
    encoded
}

/// Packs a text of digits in numeric mode: three digits in 10 bits, two
/// left over in 7, one left over in 4.
pub fn numeric_encode(input: &str) -> (encoded: EncodedData)
    requires
        all_digits(encode_utf8(input@)),
        payload_len(EncodingMode::Numeric, encode_utf8(input@).len() as int) <= u32::MAX,
    ensures
        encoded.holds(numeric_bits(encode_utf8(input@))),
{
    let text = input.as_bytes();
    let mut sink = BitSink::new();
    write_numeric(&mut sink, text);
    proof {
        lemma_payload_len(EncodingMode::Numeric, text@);
        assert(written(sink) =~= numeric_bits(text@));
    }
    finish(sink, EncodingMode::Numeric, text.len())
}

/// Packs a text in alphanumeric mode: two characters in 11 bits, one left
/// over in 6.
pub fn alphanumeric_encode(input: &str) -> (encoded: EncodedData)
    requires
        all_alphanumeric(encode_utf8(input@)),
        payload_len(EncodingMode::Alphanumeric, encode_utf8(input@).len() as int) <= u32::MAX,
    ensures
        encoded.holds(alphanumeric_bits(encode_utf8(input@))),
{
    let text = input.as_bytes();
    let mut sink = BitSink::new();
    write_alphanumeric(&mut sink, text);
    proof {
        lemma_payload_len(EncodingMode::Alphanumeric, text@);
        assert(written(sink) =~= alphanumeric_bits(text@));
    }
    finish(sink, EncodingMode::Alphanumeric, text.len())
}

/// Packs a text in byte mode: the bytes of its UTF-8 form, eight bits each.
pub fn byte_encode(input: &str) -> (encoded: EncodedData)
    requires
        payload_len(EncodingMode::Byte, encode_utf8(input@).len() as int) <= u32::MAX,
    ensures
        encoded.holds(byte_bits(encode_utf8(input@))),
{
    let text = input.as_bytes();
    let mut sink = BitSink::new();
    write_bytes(&mut sink, text);
    proof {
        lemma_payload_len(EncodingMode::Byte, text@);
        assert(written(sink) =~= byte_bits(text@));
    }
    finish(sink, EncodingMode::Byte, text.len())
}

} // verus!
