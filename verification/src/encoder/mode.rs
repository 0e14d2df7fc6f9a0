//! Encoding modes, error-correction levels and the choice of a version.

use crate::tables::capacity::{capacity, get_capacity};
use crate::tables::layout::{block_layout, get_block_layout, lemma_block_layouts};
use crate::text::{
    all_alphanumeric, all_digits, alphanumeric_code, is_alphanumeric_byte, is_alphanumeric_char,
    is_digit, is_digit_char, lemma_ascii_bytes,
};
use vstd::prelude::*;
use vstd::utf8::{encode_utf8, is_ascii_chars};

verus! {

/// How much of a symbol can be restored when it is damaged.
#[derive(Copy, Clone, PartialEq, Eq, Debug, Structural)]
pub enum ErrorCorrection {
    /// About 7% of the codewords.
    Low,
    /// About 15% of the codewords.
    Medium,
    /// About 25% of the codewords.
    Quartile,
    /// About 30% of the codewords.
    High,
}

impl ErrorCorrection {
    /// Position of the level in the tables.
    pub open spec fn index(self) -> int {
        match self {
            ErrorCorrection::Low => 0,
            ErrorCorrection::Medium => 1,
            ErrorCorrection::Quartile => 2,
            ErrorCorrection::High => 3,
        }
    }

    /// The position of the level or mode in the tables.
    pub fn to_index(self) -> (r: usize)
        ensures
            r == self.index(),
    {
        match self {
            ErrorCorrection::Low => 0,
            ErrorCorrection::Medium => 1,
            ErrorCorrection::Quartile => 2,
            ErrorCorrection::High => 3,
        }
    }
}

/// How characters are packed into bits, from the densest to the most
/// general.
#[derive(Copy, Clone, PartialEq, Eq, Debug, Structural)]
pub enum EncodingMode {
    /// Decimal digits only.
    Numeric,
    /// Digits, capital letters, the space and `$%*+-./:`.
    Alphanumeric,
    /// Any text, as its bytes.
    Byte,
}

impl EncodingMode {
    /// Position of the mode in the tables.
    pub open spec fn index(self) -> int {
        match self {
            EncodingMode::Numeric => 0,
            EncodingMode::Alphanumeric => 1,
            EncodingMode::Byte => 2,
        }
    }

    /// The position of the level or mode in the tables.
    pub fn to_index(self) -> (r: usize)
        ensures
            r == self.index(),
    {
        match self {
            EncodingMode::Numeric => 0,
            EncodingMode::Alphanumeric => 1,
            EncodingMode::Byte => 2,
        }
    }

    /// The four-bit number that opens the bit stream.
    pub open spec fn indicator(self) -> nat {
        match self {
            EncodingMode::Numeric => 1,
            EncodingMode::Alphanumeric => 2,
            EncodingMode::Byte => 4,
        }
    }

    /// The mode indicator.
    pub fn to_indicator(self) -> (r: u32)
        ensures
            r == self.indicator(),
    {
        match self {
            EncodingMode::Numeric => 1,
            EncodingMode::Alphanumeric => 2,
            EncodingMode::Byte => 4,
        }
    }
}

/// Why no symbol can be made.
#[derive(Copy, Clone, PartialEq, Eq, Debug, Structural)]
pub enum QrError {
    /// The text is longer than the largest version holds at the level and in
    /// the mode asked for.
    CapacityExceeded,
}

/// Whether a character belongs to the alphanumeric mode.
pub fn is_alphanumeric(codepoint: char) -> (r: bool)
    ensures
        r == is_alphanumeric_char(codepoint),
{
    ('0' <= codepoint && codepoint <= '9') || ('A' <= codepoint && codepoint <= 'Z') || codepoint
        == ' ' || codepoint == '$' || codepoint == '%' || codepoint == '*' || codepoint == '+'
        || codepoint == '-' || codepoint == '.' || codepoint == '/' || codepoint == ':'
}

/// The number that stands for a character in the alphanumeric mode: 0 to 9
/// for the digits, 10 to 35 for the letters, 36 to 44 for the space and
/// `$%*+-./:` in this order. Any other character gives 0.
pub fn alphanumeric_value(codepoint: char) -> (r: u16)
    ensures
        r == alphanumeric_code(codepoint),
{
    if '0' <= codepoint && codepoint <= '9' {
        (codepoint as u32 - 48) as u16
    } else if 'A' <= codepoint && codepoint <= 'Z' {
        (codepoint as u32 - 65 + 10) as u16
    } else if codepoint == ' ' {
        36
    } else if codepoint == '$' {
        37
    } else if codepoint == '%' {
        38
    } else if codepoint == '*' {
        39
    } else if codepoint == '+' {
        40
    } else if codepoint == '-' {
        41
    } else if codepoint == '.' {
        42
    } else if codepoint == '/' {
        43
    } else if codepoint == ':' {
        44
    } else {
        0
    }
}

/// The mode of a text given as bytes: the densest one that holds every byte.
/// The empty text is taken as bytes.
pub open spec fn select_mode(text: Seq<u8>) -> EncodingMode {
    if text.len() == 0 {
        EncodingMode::Byte
    } else if all_digits(text) {
        EncodingMode::Numeric
    } else if all_alphanumeric(text) {
        EncodingMode::Alphanumeric
    } else {
        EncodingMode::Byte
    }
}

/// The mode of a text given as characters.
pub open spec fn mode_of_chars(input: Seq<char>) -> EncodingMode {
    if input.len() == 0 {
        EncodingMode::Byte
    } else if forall|i: int| 0 <= i < input.len() ==> is_digit_char(#[trigger] input[i]) {
        EncodingMode::Numeric
    } else if forall|i: int| 0 <= i < input.len() ==> is_alphanumeric_char(#[trigger] input[i]) {
        EncodingMode::Alphanumeric
    } else {
        EncodingMode::Byte
    }
}

/// The mode chosen from the bytes of a text is the mode of its characters.
pub proof fn lemma_mode_of_characters(input: Seq<char>)
    ensures
        select_mode(encode_utf8(input)) == mode_of_chars(input),
{
    let bytes = encode_utf8(input);
    lemma_ascii_bytes(input);
    if input.len() > 0 {
        if is_ascii_chars(input) {
            assert(all_digits(bytes) == (forall|i: int|
                0 <= i < input.len() ==> is_digit_char(#[trigger] input[i]))) by {
                if all_digits(bytes) {
                    assert forall|i: int| 0 <= i < input.len() implies is_digit_char(
                        #[trigger] input[i],
                    ) by {
                        assert(is_digit(bytes[i]));
                    }
                }
            }
            assert(all_alphanumeric(bytes) == (forall|i: int|
                0 <= i < input.len() ==> is_alphanumeric_char(#[trigger] input[i]))) by {
                if all_alphanumeric(bytes) {
                    assert forall|i: int| 0 <= i < input.len() implies is_alphanumeric_char(
                        #[trigger] input[i],
                    ) by {
                        assert(is_alphanumeric_byte(bytes[i]));
                    }
                }
            }
        } else {
            let k = choose|k: int| 0 <= k < input.len() && !('\0' <= #[trigger] input[k] <= '\u{7f}');
            assert(!is_alphanumeric_char(input[k]));
            assert(!is_digit_char(input[k]));
            let j = choose|j: int| 0 <= j < bytes.len() && !(#[trigger] bytes[j] < 128);
            assert(!is_alphanumeric_byte(bytes[j]));
            assert(!is_digit(bytes[j]));
        }
    }
}

/// The mode of a text already turned into bytes.
pub fn get_mode_of_bytes(text: &[u8]) -> (mode: EncodingMode)
    ensures
        mode == select_mode(text@),
{
    let mut digits: bool = true;
    let mut alphanumeric: bool = true;
    let mut i: usize = 0;
    while i < text.len()
        invariant
            i <= text.len(),
            digits == all_digits(text@.take(i as int)),
            alphanumeric == all_alphanumeric(text@.take(i as int)),
        decreases text.len() - i,
    {
        let c: char = text[i] as char;
        proof {
            let before = text@.take(i as int);
            let after = text@.take(i + 1);
            assert(after[i as int] == text@[i as int]);
            assert forall|k: int| 0 <= k < before.len() implies before[k] == after[k] by {}
            if all_digits(after) {
                assert forall|k: int| 0 <= k < before.len() implies is_digit(
                    #[trigger] before[k],
                ) by {
                    assert(is_digit(after[k]));
                }
            }
            if all_alphanumeric(after) {
                assert forall|k: int| 0 <= k < before.len() implies is_alphanumeric_byte(
                    #[trigger] before[k],
                ) by {
                    assert(is_alphanumeric_byte(after[k]));
                }
            }
        }
        if !('0' <= c && c <= '9') {
            digits = false;
        }
        if !is_alphanumeric(c) {
            alphanumeric = false;
        }
        i += 1;
    }
    assert(text@.take(i as int) =~= text@);
    if text.len() == 0 {
        EncodingMode::Byte
    } else if digits {
        EncodingMode::Numeric
    } else if alphanumeric {
        EncodingMode::Alphanumeric
    } else {
        EncodingMode::Byte
    }
}

/// The densest mode that holds every character of the input: numeric for
/// digits only, alphanumeric for the 45 characters of that mode, else byte.
/// The empty input is taken as bytes.
pub fn get_encoding_mode(input: &str) -> (mode: EncodingMode)
    ensures
        mode == mode_of_chars(input@),
        mode == select_mode(encode_utf8(input@)),
{
    proof {
        lemma_mode_of_characters(input@);
    }
    get_mode_of_bytes(input.as_bytes())
}

/// Whether a version holds `count` characters at a level and in a mode.
pub open spec fn fits(version: int, level: ErrorCorrection, mode: EncodingMode, count: int) -> bool {
    count <= capacity(version, level.index(), mode.index())
}

/// The least version from `from` to 40 that holds `count` characters.
pub open spec fn first_fit(
    level: ErrorCorrection,
    mode: EncodingMode,
    count: int,
    from: int,
) -> Option<int>
    decreases 41 - from,
{
    if from > 40 {
        None
    } else if fits(from, level, mode, count) {
        Some(from)
    } else {
        first_fit(level, mode, count, from + 1)
    }
}

/// The least version that holds `count` characters, if there is one.
pub open spec fn select_version(level: ErrorCorrection, mode: EncodingMode, count: int) -> Option<
    int,
> {
    first_fit(level, mode, count, 1)
}

/// `first_fit` finds a version that fits, none below it does, and it finds
/// none only where none fits.
pub proof fn lemma_first_fit(level: ErrorCorrection, mode: EncodingMode, count: int, from: int)
    requires
        1 <= from <= 41,
    ensures
        match first_fit(level, mode, count, from) {
            Some(v) => from <= v <= 40 && fits(v, level, mode, count) && forall|w: int|
                from <= w < v ==> !fits(w, level, mode, count),
            None => forall|w: int| from <= w <= 40 ==> !fits(w, level, mode, count),
        },
    decreases 41 - from,
{
    if from <= 40 && !fits(from, level, mode, count) {
        lemma_first_fit(level, mode, count, from + 1);
    }
}

/// The smallest version that holds `num_chars` characters at a level and in
/// a mode, or `CapacityExceeded` where version 40 does not hold them.
pub fn get_version(level: ErrorCorrection, mode: EncodingMode, num_chars: usize) -> (r: Result<
    usize,
    QrError,
>)
    ensures
        match r {
            Ok(v) => select_version(level, mode, num_chars as int) == Some(v as int) && 1 <= v
                <= 40 && fits(v as int, level, mode, num_chars as int) && forall|w: int|
                1 <= w < v ==> !fits(w, level, mode, num_chars as int),
            Err(e) => e == QrError::CapacityExceeded && select_version(
                level,
                mode,
                num_chars as int,
            ).is_none() && forall|w: int| 1 <= w <= 40 ==> !fits(w, level, mode, num_chars as int),
        },
{
    let mut version: usize = 1;
    while version <= 40
        invariant
            1 <= version <= 41,
            first_fit(level, mode, num_chars as int, version as int) == select_version(
                level,
                mode,
                num_chars as int,
            ),
        decreases 41 - version,
    {
        if num_chars <= get_capacity(version, level.to_index(), mode.to_index()) {
            proof {
                lemma_first_fit(level, mode, num_chars as int, 1);
            }
            return Ok(version);
        }
        version += 1;
    }
    proof {
        lemma_first_fit(level, mode, num_chars as int, 1);
    }
    Err(QrError::CapacityExceeded)
}

/// Width in bits of the field that holds the character count.
pub open spec fn count_bits(version: int, mode: EncodingMode) -> nat {
    if 1 <= version <= 9 {
        match mode {
            EncodingMode::Numeric => 10,
            EncodingMode::Alphanumeric => 9,
            EncodingMode::Byte => 8,
        }
    } else if 10 <= version <= 26 {
        match mode {
            EncodingMode::Numeric => 12,
            EncodingMode::Alphanumeric => 11,
            EncodingMode::Byte => 16,
        }
    } else {
        match mode {
            EncodingMode::Numeric => 14,
            EncodingMode::Alphanumeric => 13,
            EncodingMode::Byte => 16,
        }
    }
}

/// The width in bits of the character count: it grows from versions 1 to 9
/// over 10 to 26 to the versions above.
pub fn get_count_bits_size(version: usize, mode: EncodingMode) -> (r: u32)
    ensures
        r == count_bits(version as int, mode),
{
    if 1 <= version && version <= 9 {
        match mode {
            EncodingMode::Numeric => 10,
            EncodingMode::Alphanumeric => 9,
            EncodingMode::Byte => 8,
        }
    } else if 10 <= version && version <= 26 {
        match mode {
            EncodingMode::Numeric => 12,
            EncodingMode::Alphanumeric => 11,
            EncodingMode::Byte => 16,
        }
    } else {
        match mode {
            EncodingMode::Numeric => 14,
            EncodingMode::Alphanumeric => 13,
            EncodingMode::Byte => 16,
        }
    }
}

/// Bits of data that a symbol of a version and level carries.
pub open spec fn required_bits(version: int, level: ErrorCorrection) -> nat {
    (8 * block_layout(version, level.index()).data_len()) as nat
}

/// The exact length in bits of the data of a symbol: eight for each data
/// codeword of its blocks.
pub fn get_required_bit_length(version: usize, level: ErrorCorrection) -> (r: u32)
    requires
        1 <= version <= 40,
    ensures
        r == required_bits(version as int, level),
        r % 8 == 0,
        72 <= r <= 23648,
{
    proof {
        lemma_block_layouts();
    }
    let layout = get_block_layout(version, level.to_index());
    assert(layout.well_formed());
    assert(layout.blocks1 * layout.len1 <= 2956 && layout.blocks2 * layout.len2 <= 2956)
        by (nonlinear_arith)
        requires
            layout.blocks1 * layout.len1 + layout.blocks2 * layout.len2 <= 2956,
    ;
    let bytes: usize = layout.blocks1 * layout.len1 + layout.blocks2 * layout.len2;
    (bytes * 8) as u32
}

} // verus!
