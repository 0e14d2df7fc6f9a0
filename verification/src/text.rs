//! The text of a symbol: the bytes that stand for the input, and the
//! character classes that decide how they are packed.

use vstd::prelude::*;
use vstd::utf8::{encode_scalar, encode_utf8, is_ascii_chars, is_ascii_chars_encode_utf8};

verus! {

/// The ten decimal digits.
pub open spec fn is_digit_char(c: char) -> bool {
    '0' <= c <= '9'
}

/// The 45 characters of the alphanumeric mode.
pub open spec fn is_alphanumeric_char(c: char) -> bool {
    ||| '0' <= c <= '9'
    ||| 'A' <= c <= 'Z'
    ||| c == ' '
    ||| c == '$'
    ||| c == '%'
    ||| c == '*'
    ||| c == '+'
    ||| c == '-'
    ||| c == '.'
    ||| c == '/'
    ||| c == ':'
}

/// The number that stands for a character in the alphanumeric mode; 0 for
/// a character outside its set.
pub open spec fn alphanumeric_code(c: char) -> int {
    if '0' <= c <= '9' {
        c as int - 48
    } else if 'A' <= c <= 'Z' {
        c as int - 65 + 10
    } else if c == ' ' {
        36
    } else if c == '$' {
        37
    } else if c == '%' {
        38
    } else if c == '*' {
        39
    } else if c == '+' {
        40
    } else if c == '-' {
        41
    } else if c == '.' {
        42
    } else if c == '/' {
        43
    } else if c == ':' {
        44
    } else {
        0
    }
}

/// Whether a byte stands for a decimal digit.
pub open spec fn is_digit(b: u8) -> bool {
    is_digit_char(b as char)
}

/// Whether a byte stands for a character of the alphanumeric mode.
pub open spec fn is_alphanumeric_byte(b: u8) -> bool {
    is_alphanumeric_char(b as char)
}

/// Whether a text holds decimal digits only.
pub open spec fn all_digits(text: Seq<u8>) -> bool {
    forall|i: int| 0 <= i < text.len() ==> is_digit(#[trigger] text[i])
}

/// Whether a text holds characters of the alphanumeric mode only.
pub open spec fn all_alphanumeric(text: Seq<u8>) -> bool {
    forall|i: int| 0 <= i < text.len() ==> is_alphanumeric_byte(#[trigger] text[i])
}

/// The bytes that a symbol carries for an input: its UTF-8 form.
pub open spec fn text_of(input: Seq<char>) -> Seq<u8> {
    encode_utf8(input)
}

proof fn lemma_char_code(c: char)
    ensures
        ('\0' <= c <= '\u{7f}') <==> c as u32 <= 127,
        c as u32 <= 127 ==> (c as u8) as char == c,
{
}

/// A character outside ASCII has no byte below 128 in its UTF-8 form.
proof fn lemma_scalar_bytes(c: char)
    ensures
        encode_scalar(c as u32).len() >= 1,
        c as u32 <= 127 ==> encode_scalar(c as u32) == seq![c as u8],
        c as u32 > 127 ==> forall|j: int|
            0 <= j < encode_scalar(c as u32).len() ==> #[trigger] encode_scalar(c as u32)[j]
                >= 128,
{
    let s = c as u32;
    let enc = encode_scalar(s);
    if s <= 127 {
        assert((s & 0x7F) as u8 == s as u8) by (bit_vector)
            requires
                s <= 127,
        ;
        assert(enc =~= seq![c as u8]);
    } else {
        assert((0xC0u8 | ((s >> 6) & 0x1F) as u8) >= 128) by (bit_vector);
        assert((0xE0u8 | ((s >> 12) & 0x0F) as u8) >= 128) by (bit_vector);
        assert((0xF0u8 | ((s >> 18) & 0x7) as u8) >= 128) by (bit_vector);
        assert((0x80u8 | (s & 0x3F) as u8) >= 128) by (bit_vector);
        assert((0x80u8 | ((s >> 6) & 0x3F) as u8) >= 128) by (bit_vector);
        assert((0x80u8 | ((s >> 12) & 0x3F) as u8) >= 128) by (bit_vector);
    }
}

/// The UTF-8 form of characters holds a byte of 128 or more exactly where
/// one of the characters lies outside ASCII; where none does, it holds the
/// characters themselves.
pub proof fn lemma_ascii_bytes(chars: Seq<char>)
    ensures
        is_ascii_chars(chars) <==> (forall|j: int|
            0 <= j < encode_utf8(chars).len() ==> encode_utf8(chars)[j] < 128),
        is_ascii_chars(chars) ==> encode_utf8(chars).len() == chars.len() && (forall|i: int|
            0 <= i < chars.len() ==> #[trigger] encode_utf8(chars)[i] == chars[i] as u8
                && chars[i] == (encode_utf8(chars)[i] as char)),
        (chars.len() == 0) == (encode_utf8(chars).len() == 0),
    decreases chars.len(),
{
    let bytes = encode_utf8(chars);
    if chars.len() > 0 {
        let head = encode_scalar(chars[0] as u32);
        let tail = encode_utf8(chars.drop_first());
        lemma_scalar_bytes(chars[0]);
        lemma_char_code(chars[0]);
        lemma_ascii_bytes(chars.drop_first());
        assert(bytes == head + tail);
        if is_ascii_chars(chars) {
            is_ascii_chars_encode_utf8(chars);
            assert forall|i: int| 0 <= i < chars.len() implies #[trigger] bytes[i] == chars[i] as u8
                && chars[i] == (bytes[i] as char) by {
                assert('\0' <= chars[i] <= '\u{7f}');
                lemma_char_code(chars[i]);
            }
        } else {
            let k = choose|k: int| 0 <= k < chars.len() && !('\0' <= #[trigger] chars[k] <= '\u{7f}');
            if k == 0 {
                assert(chars[0] as u32 > 127);
                assert(head[0] >= 128);
                assert(bytes[0] == head[0]);
            } else {
                assert(chars.drop_first()[k - 1] == chars[k]);
                assert(!is_ascii_chars(chars.drop_first()));
                let j = choose|j: int| 0 <= j < tail.len() && !(tail[j] < 128);
                assert(bytes[head.len() + j] == tail[j]);
            }
        }
        if forall|j: int| 0 <= j < bytes.len() ==> bytes[j] < 128 {
            assert(bytes[0] == head[0]);
            assert(chars[0] as u32 <= 127);
            assert forall|j: int| 0 <= j < tail.len() implies tail[j] < 128 by {
                assert(bytes[head.len() + j] == tail[j]);
            }
            assert(is_ascii_chars(chars.drop_first()));
            assert forall|i: int| 0 <= i < chars.len() implies '\0' <= #[trigger] chars[i]
                <= '\u{7f}' by {
                if i > 0 {
                    assert(chars.drop_first()[i - 1] == chars[i]);
                }
            }
        }
    }
}

/// The UTF-8 form of a text has between one and four bytes for every
/// character.
pub proof fn lemma_utf8_len(chars: Seq<char>)
    ensures
        chars.len() <= encode_utf8(chars).len() <= 4 * chars.len(),
    decreases chars.len(),
{
    if chars.len() > 0 {
        lemma_utf8_len(chars.drop_first());
    }
}

} // verus!
