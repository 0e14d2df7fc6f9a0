use vstd::prelude::*;

verus! {

/// Modules of the data region left over after the last codeword.
pub open spec fn remainder_bits(version: int) -> int {
    if 2 <= version <= 6 {
        7
    } else if 14 <= version <= 20 || 28 <= version <= 34 {
        3
    } else if 21 <= version <= 27 {
        4
    } else {
        0
    }
}

/// The number of modules that stay empty after the last codeword has been
/// placed: 0 for numbers that are no version.
pub fn get_remainder_bit_count(version: usize) -> (r: usize)
    ensures
        r == remainder_bits(version as int),
{
    if 2 <= version && version <= 6 {
        7
    } else if (14 <= version && version <= 20) || (28 <= version && version <= 34) {
        3
    } else if 21 <= version && version <= 27 {
        4
    } else {
        0
    }
}

/// Number of modules that the fixed patterns of a version leave to the
/// data: the whole symbol less the finder patterns with their separators,
/// the timing patterns, the format information with the dark module, the
/// alignment patterns and, from version 7 on, the version information.
pub open spec fn raw_modules(version: int) -> int {
    let centres = version / 7 + 2;
    (16 * version + 128) * version + 64 - (if version >= 2 {
        (25 * centres - 10) * centres - 55
    } else {
        0
    }) - (if version >= 7 {
        36int
    } else {
        0int
    })
}

/// The number of modules that the fixed patterns leave, version by
/// version.
pub proof fn lemma_raw_modules()
    by (bit_vector)
    ensures
        raw_modules(1) == 208,
        raw_modules(2) == 359,
        raw_modules(3) == 567,
        raw_modules(4) == 807,
        raw_modules(5) == 1079,
        raw_modules(6) == 1383,
        raw_modules(7) == 1568,
        raw_modules(8) == 1936,
        raw_modules(9) == 2336,
        raw_modules(10) == 2768,
        raw_modules(11) == 3232,
        raw_modules(12) == 3728,
        raw_modules(13) == 4256,
        raw_modules(14) == 4651,
        raw_modules(15) == 5243,
        raw_modules(16) == 5867,
        raw_modules(17) == 6523,
        raw_modules(18) == 7211,
        raw_modules(19) == 7931,
        raw_modules(20) == 8683,
        raw_modules(21) == 9252,
        raw_modules(22) == 10068,
        raw_modules(23) == 10916,
        raw_modules(24) == 11796,
        raw_modules(25) == 12708,
        raw_modules(26) == 13652,
        raw_modules(27) == 14628,
        raw_modules(28) == 15371,
        raw_modules(29) == 16411,
        raw_modules(30) == 17483,
        raw_modules(31) == 18587,
        raw_modules(32) == 19723,
        raw_modules(33) == 20891,
        raw_modules(34) == 22091,
        raw_modules(35) == 23008,
        raw_modules(36) == 24272,
        raw_modules(37) == 25568,
        raw_modules(38) == 26896,
        raw_modules(39) == 28256,
        raw_modules(40) == 29648,
{
}

} // verus!
