//! The bit stream of a symbol: header, packed text, terminator and padding.

use crate::bits::{
    align_pad, be_bits, concat_upto, lemma_be_bits_len, lemma_concat_uniform_len, pack_bytes,
    zeros,
};
use crate::bitsink::{written, BitSink};
use crate::encoder::fit::{capacity_fits, lemma_capacity_fits};
use crate::encoder::mode::{
    count_bits, fits, get_count_bits_size, get_encoding_mode, get_mode_of_bytes,
    get_required_bit_length, get_version, required_bits, select_mode, select_version, EncodingMode,
    ErrorCorrection, QrError,
};
use crate::encoder::packing::{
    get_payload_len, lemma_payload_len, lemma_payload_len_monotonic, payload_bits, payload_len,
    write_payload,
};
use crate::tables::layout::{block_layout, lemma_block_layouts};
use crate::text::{lemma_utf8_len, text_of};
use vstd::arithmetic::power2::{lemma2_to64, lemma_pow2_pos, pow2};
use vstd::prelude::*;
use vstd::string::StrSliceExecFns;

verus! {

/// The mode indicator in four bits, then the number of characters of the
/// text in the width that the version and the mode ask for.
pub open spec fn header_bits(mode: EncodingMode, version: int, count: nat) -> Seq<bool> {
    be_bits(mode.indicator(), 4) + be_bits(count, count_bits(version, mode))
}

/// Number of bits of the header and the packed text.
pub open spec fn body_len(text: Seq<u8>, version: int) -> int {
    4 + count_bits(version, select_mode(text)) + payload_len(select_mode(text), text.len() as int)
}

/// Number of zero bits that end the text: four, or fewer where fewer are
/// left.
pub open spec fn terminator_len(used: nat, required: nat) -> nat {
    if required - used < 4 {
        (required - used) as nat
    } else {
        4
    }
}

/// Header, packed text and terminator, filled up with zeros to a whole byte.
/// `text` holds the bytes of the text and `count` the number of its
/// characters.
pub open spec fn framed_bits(
    text: Seq<u8>,
    count: nat,
    version: int,
    level: ErrorCorrection,
) -> Seq<bool> {
    let mode = select_mode(text);
    let body = header_bits(mode, version, count) + payload_bits(mode, text);
    let ended = body + zeros(terminator_len(body.len(), required_bits(version, level)));
    ended + zeros(align_pad(ended.len()))
}

/// The bytes that fill a symbol up: 0xEC and 0x11 in turn.
pub open spec fn pad_byte(i: int) -> u8 {
    if i % 2 == 0 {
        0xEC
    } else {
        0x11
    }
}

/// The bits of the first `count` pad bytes.
pub open spec fn pad_bits(count: nat) -> Seq<bool> {
    concat_upto(count, |i: int| be_bits(pad_byte(i) as nat, 8))
}

/// The first `count` pad bytes.
pub open spec fn pad_bytes(count: nat) -> Seq<u8> {
    Seq::new(count, |i: int| pad_byte(i))
}

/// All data bits of a symbol: the framed text, then pad bytes up to the
/// length that the version and level require.
pub open spec fn stream_bits(
    text: Seq<u8>,
    count: nat,
    version: int,
    level: ErrorCorrection,
) -> Seq<bool> {
    let framed = framed_bits(text, count, version, level);
    framed + pad_bits(((required_bits(version, level) - framed.len()) / 8) as nat)
}

/// The data codewords of a symbol.
pub open spec fn encoded_bytes(
    text: Seq<u8>,
    count: nat,
    version: int,
    level: ErrorCorrection,
) -> Seq<u8> {
    pack_bytes(stream_bits(text, count, version, level))
}

/// Whether a version holds a text of `count` characters: the capacity table
/// allows that many characters, and header and packed text are no longer
/// than the data bits of the version.
pub open spec fn holds(text: Seq<u8>, count: nat, version: int, level: ErrorCorrection) -> bool {
    &&& 1 <= version <= 40
    &&& fits(version, level, select_mode(text), count as int)
    &&& body_len(text, version) <= required_bits(version, level)
}

/// The version of the symbol of a text of `count` characters at a level:
/// the smallest version whose capacity allows that many characters in the
/// mode of the text. There is none where no version allows them, or where
/// header and packed text are longer than the data bits of that version.
pub open spec fn symbol_version(text: Seq<u8>, count: nat, level: ErrorCorrection) -> Option<int> {
    match select_version(level, select_mode(text), count as int) {
        Some(version) => if body_len(text, version) <= required_bits(version, level) {
            Some(version)
        } else {
            None
        },
        None => None,
    }
}

/// The version of the symbol of an input at a level.
pub open spec fn version_of(input: Seq<char>, level: ErrorCorrection) -> Option<int> {
    symbol_version(text_of(input), input.len(), level)
}

/// Zero written in any width is so many zero bits.
pub proof fn lemma_zero_bits(width: nat)
    ensures
        be_bits(0, width) == zeros(width),
{
    reveal(be_bits);
    assert forall|i: int| 0 <= i < width implies be_bits(0, width)[i] == false by {
        lemma_pow2_pos((width - 1 - i) as nat);
        let p = pow2((width - 1 - i) as nat) as int;
        assert(0int / p == 0) by (nonlinear_arith)
            requires
                p > 0,
        ;
    }
    assert(be_bits(0, width) =~= zeros(width));
}

/// In numeric and alphanumeric mode, where every character is one byte, a
/// text that the capacity table allows is no longer than the data bits of
/// its version.
pub proof fn lemma_dense_modes_hold(text: Seq<u8>, version: int, level: ErrorCorrection)
    requires
        1 <= version <= 40,
        select_mode(text) != EncodingMode::Byte,
        fits(version, level, select_mode(text), text.len() as int),
    ensures
        holds(text, text.len(), version, level),
{
    let mode = select_mode(text);
    lemma_capacity_fits();
    assert(capacity_fits(version, level, mode));
    lemma_payload_len_monotonic(
        mode,
        text.len() as int,
        crate::tables::capacity::capacity(version, level.index(), mode.index()),
    );
}

/// An input in numeric or alphanumeric mode gets a symbol exactly where the
/// capacity table allows its characters: its version is the smallest one
/// that does.
pub proof fn lemma_dense_inputs(input: Seq<char>, level: ErrorCorrection)
    requires
        select_mode(text_of(input)) != EncodingMode::Byte,
    ensures
        version_of(input, level) == select_version(
            level,
            select_mode(text_of(input)),
            input.len() as int,
        ),
{
    let text = text_of(input);
    let mode = select_mode(text);
    crate::encoder::mode::lemma_mode_of_characters(input);
    crate::text::lemma_ascii_bytes(input);
    assert(vstd::utf8::is_ascii_chars(input)) by {
        assert forall|j: int| 0 <= j < text.len() implies #[trigger] text[j] < 128 by {
            if mode == EncodingMode::Numeric {
                assert(crate::text::is_digit(text[j]));
            } else {
                assert(crate::text::is_alphanumeric_byte(text[j]));
            }
        }
    }
    assert(text.len() == input.len());
    match select_version(level, mode, input.len() as int) {
        Some(version) => {
            crate::encoder::mode::lemma_first_fit(level, mode, input.len() as int, 1);
            lemma_dense_modes_hold(text, version, level);
        },
        None => {},
    }
}

/// Lengths of the header and the packed text of a text that its version
/// holds.
pub proof fn lemma_body_len(text: Seq<u8>, count: nat, version: int, level: ErrorCorrection)
    requires
        holds(text, count, version, level),
    ensures
        required_bits(version, level) == 8 * block_layout(version, level.index()).data_len(),
        72 <= required_bits(version, level) <= 23648,
        count <= 7089,
        count < pow2(count_bits(version, select_mode(text))),
        header_bits(select_mode(text), version, count).len() == 4 + count_bits(
            version,
            select_mode(text),
        ),
        payload_bits(select_mode(text), text).len() == payload_len(
            select_mode(text),
            text.len() as int,
        ),
        (header_bits(select_mode(text), version, count) + payload_bits(
            select_mode(text),
            text,
        )).len() == body_len(text, version),
{
    let mode = select_mode(text);
    lemma_capacity_fits();
    lemma_block_layouts();
    lemma_be_bits_len(mode.indicator(), 4);
    lemma_be_bits_len(count, count_bits(version, mode));
    assert(capacity_fits(version, level, mode));
    assert(block_layout(version, level.index()).well_formed());
    lemma_payload_len(mode, text);
}

/// Length of the framed text, from the length of header and packed text.
pub open spec fn framed_len(body_len: nat, required: nat) -> nat {
    let ended = body_len + terminator_len(body_len, required);
    ended + align_pad(ended)
}

proof fn lemma_framed_len(body_len: nat, required: nat)
    requires
        body_len <= required,
        required % 8 == 0,
    ensures
        framed_len(body_len, required) % 8 == 0,
        framed_len(body_len, required) <= required,
        framed_len(body_len, required) + 8 * ((required - framed_len(body_len, required)) / 8)
            == required,
{
    let ended: int = (body_len + terminator_len(body_len, required)) as int;
    let framed: int = framed_len(body_len, required) as int;
    let q = ended / 8;
    let m = ended % 8;
    let limit = required as int / 8;
    assert(ended == 8 * q + m && 0 <= m < 8);
    assert(required == 8 * limit);
    assert(ended <= required);
    if m == 0 {
        assert(framed == 8 * q);
    } else {
        assert(framed == 8 * (q + 1));
        assert(q < limit);
    }
    let k = if m == 0 {
        q
    } else {
        q + 1
    };
    assert(framed == 8 * k && k <= limit);
    assert(required - framed == 8 * (limit - k));
    assert((8 * (limit - k)) / 8 == limit - k);
}

/// Every pad byte takes eight bits.
pub proof fn lemma_pad_bits_len(count: nat)
    ensures
        pad_bits(count).len() == 8 * count,
{
    assert forall|i: int| 0 <= i < count implies (#[trigger] be_bits(pad_byte(i) as nat, 8)).len()
        == 8 by {
        lemma_be_bits_len(pad_byte(i) as nat, 8);
    }
    lemma_concat_uniform_len(count, |i: int| be_bits(pad_byte(i) as nat, 8), 8);
}

/// A text that its version holds gives exactly the data bits of the
/// version, in whole bytes.
pub proof fn lemma_stream_len(text: Seq<u8>, count: nat, version: int, level: ErrorCorrection)
    requires
        holds(text, count, version, level),
    ensures
        required_bits(version, level) % 8 == 0,
        framed_bits(text, count, version, level).len() == framed_len(
            body_len(text, version) as nat,
            required_bits(version, level),
        ),
        framed_bits(text, count, version, level).len() % 8 == 0,
        framed_bits(text, count, version, level).len() <= required_bits(version, level),
        stream_bits(text, count, version, level).len() == required_bits(version, level),
        encoded_bytes(text, count, version, level).len() == block_layout(
            version,
            level.index(),
        ).data_len(),
{
    let required = required_bits(version, level);
    lemma_body_len(text, count, version, level);
    let body = body_len(text, version) as nat;
    lemma_framed_len(body, required);
    let framed = framed_bits(text, count, version, level);
    let pads = ((required - framed.len()) / 8) as nat;
    lemma_pad_bits_len(pads);
}

/// Pad bytes written behind whole bytes are bytes of their own.
proof fn lemma_pack_pads(bits: Seq<bool>, count: nat)
    requires
        bits.len() % 8 == 0,
    ensures
        pack_bytes(bits + pad_bits(count)) == pack_bytes(bits) + pad_bytes(count),
    decreases count,
{
    if count == 0 {
        assert(bits + pad_bits(0) =~= bits);
        assert(pack_bytes(bits) + pad_bytes(0) =~= pack_bytes(bits));
    } else {
        let k = (count - 1) as nat;
        lemma_pack_pads(bits, k);
        lemma_pad_bits_len(k);
        let before = bits + pad_bits(k);
        assert(bits + pad_bits(count) =~= before + be_bits(pad_byte(k as int) as nat, 8));
        crate::bits::lemma_pack_push(before, pad_byte(k as int));
        assert((pack_bytes(bits) + pad_bytes(k)).push(pad_byte(k as int)) =~= pack_bytes(bits)
            + pad_bytes(count));
    }
}

/// The data codewords of a symbol are the bytes of the framed text,
/// followed by the pad bytes 0xEC and 0x11 in turn up to the number of data
/// codewords of the version.
pub proof fn lemma_encoded_bytes(text: Seq<u8>, count: nat, version: int, level: ErrorCorrection)
    requires
        holds(text, count, version, level),
    ensures
        encoded_bytes(text, count, version, level) == pack_bytes(
            framed_bits(text, count, version, level),
        ) + pad_bytes(
            (block_layout(version, level.index()).data_len() - framed_bits(
                text,
                count,
                version,
                level,
            ).len() / 8) as nat,
        ),
{
    lemma_stream_len(text, count, version, level);
    lemma_body_len(text, count, version, level);
    let framed = framed_bits(text, count, version, level);
    let required = required_bits(version, level);
    let pads = ((required - framed.len()) / 8) as nat;
    assert(pads == block_layout(version, level.index()).data_len() - framed.len() / 8);
    lemma_pack_pads(framed, pads);
}

/// Writes the header and the packed text, and gives the number of bits
/// written.
fn write_body(
    sink: &mut BitSink,
    text: &[u8],
    count: usize,
    version: usize,
    level: ErrorCorrection,
) -> (used: u32)
    requires
        holds(text@, count as nat, version as int, level),
        written(*old(sink)).len() == 0,
    ensures
        written(*final(sink)) == header_bits(select_mode(text@), version as int, count as nat)
            + payload_bits(select_mode(text@), text@),
        used == written(*final(sink)).len(),
        used == body_len(text@, version as int),
        used <= required_bits(version as int, level),
{
    let mode = get_mode_of_bytes(text);
    let count_width: u32 = get_count_bits_size(version, mode);
    proof {
        lemma_body_len(text@, count as nat, version as int, level);
        assert(pow2(4) == 16) by {
            lemma2_to64();
        }
    }
    let ghost empty = written(*sink);
    sink.write(4, mode.to_indicator());
    sink.write(count_width, count as u32);
    write_payload(sink, mode, text);
    assert(written(*sink) =~= header_bits(mode, version as int, count as nat) + payload_bits(
        mode,
        text@,
    )) by {
        assert(empty =~= Seq::<bool>::empty());
    }
    4 + count_width + get_payload_len(mode, text.len()) as u32
}

/// Writes the terminator and fills the last byte up with zeros.
fn write_end(sink: &mut BitSink, used: u32, required: u32) -> (framed: u32)
    requires
        used == written(*old(sink)).len(),
        used <= required,
        required % 8 == 0,
        required <= 23648,
    ensures
        written(*final(sink)) == written(*old(sink)) + zeros(
            terminator_len(used as nat, required as nat),
        ) + zeros(align_pad(used as nat + terminator_len(used as nat, required as nat))),
        framed == framed_len(used as nat, required as nat),
        framed == written(*final(sink)).len(),
        framed % 8 == 0,
        framed <= required,
{
    let terminator: u32 = if required - used < 4 {
        required - used
    } else {
        4
    };
    proof {
        lemma_zero_bits(terminator as nat);
        lemma_pow2_pos(terminator as nat);
        lemma_framed_len(used as nat, required as nat);
    }
    sink.write(terminator, 0);
    sink.byte_align();
    let ended: u32 = used + terminator;
    if ended % 8 == 0 {
        ended
    } else {
        ended / 8 * 8 + 8
    }
}

/// Writes `count` pad bytes.
fn write_pads(sink: &mut BitSink, count: u32)
    ensures
        written(*final(sink)) == written(*old(sink)) + pad_bits(count as nat),
{
    let mut i: u32 = 0;
    assert(written(*sink) =~= written(*old(sink)) + pad_bits(0));
    while i < count
        invariant
            i <= count,
            written(*sink) == written(*old(sink)) + pad_bits(i as nat),
        decreases count - i,
    {
        proof {
            assert(pow2(8) == 256) by {
                lemma2_to64();
            }
        }
        if i % 2 == 0 {
            sink.write(8, 236);
        } else {
            sink.write(8, 17);
        }
        i += 1;
        assert(written(*sink) =~= written(*old(sink)) + pad_bits(i as nat));
    }
}

/// Writes the data codewords of a text of `count` characters for a version
/// that holds it.
pub fn encode_text(text: &[u8], count: usize, version: usize, level: ErrorCorrection) -> (bytes:
    Vec<u8>)
    requires
        holds(text@, count as nat, version as int, level),
    ensures
        bytes@ == encoded_bytes(text@, count as nat, version as int, level),
        bytes@.len() == block_layout(version as int, level.index()).data_len(),
{
    let required: u32 = get_required_bit_length(version, level);
    proof {
        lemma_stream_len(text@, count as nat, version as int, level);
    }
    let mut sink = BitSink::new();
    let used: u32 = write_body(&mut sink, text, count, version, level);
    let framed: u32 = write_end(&mut sink, used, required);
    assert(written(sink) == framed_bits(text@, count as nat, version as int, level));
    write_pads(&mut sink, (required - framed) / 8);
    sink.into_writer()
}

/// The number of characters of an input and the version of its symbol at a
/// level: the smallest version whose capacity allows that many characters
/// in the mode of the input. `CapacityExceeded` where no version allows
/// them, or where header and packed text are longer than the data bits of
/// that version.
pub fn prepare(input: &str, level: ErrorCorrection) -> (r: Result<(usize, usize), QrError>)
    ensures
        match r {
            Ok((count, version)) => count == input@.len() && version_of(input@, level) == Some(
                version as int,
            ) && holds(text_of(input@), count as nat, version as int, level),
            Err(e) => e == QrError::CapacityExceeded && version_of(input@, level).is_none(),
        },
{
    let mode = get_encoding_mode(input);
    let count: usize = input.unicode_len();
    match get_version(level, mode, count) {
        Ok(version) => {
            proof {
                lemma_utf8_len(input@);
                lemma_capacity_fits();
                assert(capacity_fits(version as int, level, mode));
            }
            let width: usize = get_count_bits_size(version, mode) as usize;
            let payload: usize = get_payload_len(mode, input.len());
            let required: usize = get_required_bit_length(version, level) as usize;
            if 4 + width + payload <= required {
                Ok((count, version))
            } else {
                Err(QrError::CapacityExceeded)
            }
        },
        Err(e) => Err(e),
    }
}

/// The data codewords of the symbol for an input: the mode indicator, the
/// number of characters, the packed text, a terminator of up to four zero
/// bits, zeros up to a whole byte, and the pad bytes 0xEC and 0x11 in turn,
/// up to the number of data codewords of the version. The version is the
/// smallest one whose capacity allows the characters of the input.
/// `CapacityExceeded` where no version allows them, or where header and
/// packed text are longer than the data bits of that version.
pub fn encode_data(input: &str, level: ErrorCorrection) -> (r: Result<Vec<u8>, QrError>)
    ensures
        match version_of(input@, level) {
            Some(version) => r.is_ok() && r.unwrap()@ == encoded_bytes(
                text_of(input@),
                input@.len(),
                version,
                level,
            ) && r.unwrap()@.len() * 8 == required_bits(version, level),
            None => r == Err::<Vec<u8>, QrError>(QrError::CapacityExceeded),
        },
{
    match prepare(input, level) {
        Ok((count, version)) => {
            proof {
                lemma_stream_len(text_of(input@), count as nat, version as int, level);
            }
            Ok(encode_text(input.as_bytes(), count, version, level))
        },
        Err(e) => Err(e),
    }
}

} // verus!
