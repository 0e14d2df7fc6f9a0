use qrgen::encoder::{compute_generator_polynomial, galois_multiply};
use qrgen::tables::{
    get_alignment_pattern_locations, get_block_layout, get_capacity, get_format_bits,
    get_generator_polynomial, get_remainder_bit_count, get_version_bitstring, BlockLayout,
    CHARACTER_CAPACITIES, DATA_CODEWORDS, ECC_DATA, GALOIS_EXPONENTS, GALOIS_VALUES,
};

#[test]
fn generator_polynomial_of_degree_7() {
    let exponents: Vec<u8> = get_generator_polynomial(7).into_iter().collect();
    assert_eq!(exponents, [87, 229, 146, 149, 238, 102, 21]);
}

#[test]
fn generator_polynomial_of_degree_30() {
    let exponents: Vec<u8> = get_generator_polynomial(30).into_iter().collect();
    assert_eq!(
        exponents,
        [
            41, 173, 145, 152, 216, 31, 179, 182, 50, 48, 110, 86, 239, 96, 222, 125, 42, 173,
            226, 193, 224, 130, 156, 37, 251, 216, 238, 40, 192, 180
        ]
    );
}

#[test]
fn generator_polynomial_of_unused_degree_is_empty() {
    assert!(get_generator_polynomial(0).is_empty());
    assert!(get_generator_polynomial(8).is_empty());
    assert!(get_generator_polynomial(31).is_empty());
}

#[test]
fn generator_table_agrees_with_the_computed_polynomials() {
    for count in [7usize, 10, 13, 15, 16, 17, 18, 20, 22, 24, 26, 28, 30] {
        let exponents = get_generator_polynomial(count);
        let computed = compute_generator_polynomial(count);
        assert_eq!(exponents.len(), count);
        assert_eq!(computed.len(), count);
        for i in 0..count {
            assert_eq!(GALOIS_EXPONENTS[exponents[i] as usize], computed[i]);
        }
    }
}

#[test]
fn galois_tables_agree_with_the_multiplication() {
    let mut power: u8 = 1;
    for i in 0..255usize {
        assert_eq!(GALOIS_EXPONENTS[i], power);
        assert_eq!(GALOIS_VALUES[power as usize] as usize, i);
        power = galois_multiply(power, 2);
    }
    assert_eq!(power, 1);
    assert_eq!(GALOIS_EXPONENTS[255], 1);
}

#[test]
fn alignment_pattern_locations() {
    assert_eq!(get_alignment_pattern_locations(1), Vec::<usize>::new());
    assert_eq!(get_alignment_pattern_locations(2), [6, 18]);
    assert_eq!(get_alignment_pattern_locations(7), [6, 22, 38]);
    assert_eq!(get_alignment_pattern_locations(14), [6, 26, 46, 66]);
    assert_eq!(get_alignment_pattern_locations(36), [6, 24, 50, 76, 102, 128, 154]);
    assert_eq!(get_alignment_pattern_locations(40), [6, 30, 58, 86, 114, 142, 170]);
    assert_eq!(get_alignment_pattern_locations(0), Vec::<usize>::new());
    assert_eq!(get_alignment_pattern_locations(41), Vec::<usize>::new());
}

#[test]
fn alignment_pattern_locations_end_seven_modules_from_the_edge() {
    for version in 2..=40usize {
        let locations = get_alignment_pattern_locations(version);
        assert_eq!(locations.len(), version / 7 + 2);
        assert_eq!(locations[0], 6);
        assert_eq!(locations[locations.len() - 1], 4 * version + 10);
        for i in 1..locations.len() {
            assert!(locations[i - 1] + 12 <= locations[i]);
        }
    }
}

#[test]
fn remainder_bit_counts() {
    let expected = [
        0, 7, 7, 7, 7, 7, 0, 0, 0, 0, 0, 0, 0, 3, 3, 3, 3, 3, 3, 3, 4, 4, 4, 4, 4, 4, 4, 3, 3,
        3, 3, 3, 3, 3, 0, 0, 0, 0, 0, 0,
    ];
    for version in 1..=40usize {
        assert_eq!(get_remainder_bit_count(version), expected[version - 1]);
    }
    assert_eq!(get_remainder_bit_count(0), 0);
    assert_eq!(get_remainder_bit_count(41), 0);
}

#[test]
fn version_information_bits() {
    assert_eq!(
        get_version_bitstring(7),
        [0, 0, 0, 1, 1, 1, 1, 1, 0, 0, 1, 0, 0, 1, 0, 1, 0, 0]
    );
    assert_eq!(
        get_version_bitstring(40),
        [1, 0, 1, 0, 0, 0, 1, 1, 0, 0, 0, 1, 1, 0, 1, 0, 0, 1]
    );
}

#[test]
fn version_information_holds_the_version() {
    for version in 7..=40usize {
        let bits = get_version_bitstring(version);
        let mut number = 0;
        for i in 0..6 {
            number = number * 2 + bits[i] as usize;
        }
        assert_eq!(number, version);
    }
}

#[test]
fn format_information_bits() {
    assert_eq!(
        get_format_bits(0, 0),
        [1, 1, 1, 0, 1, 1, 1, 1, 1, 0, 0, 0, 1, 0, 0]
    );
    assert_eq!(
        get_format_bits(1, 0),
        [1, 0, 1, 0, 1, 0, 0, 0, 0, 0, 1, 0, 0, 1, 0]
    );
    assert_eq!(
        get_format_bits(2, 5),
        [0, 1, 0, 0, 0, 0, 1, 1, 0, 0, 0, 0, 0, 1, 1]
    );
    assert_eq!(
        get_format_bits(3, 7),
        [0, 0, 0, 1, 0, 0, 0, 0, 0, 1, 1, 1, 0, 1, 1]
    );
}

#[test]
fn capacities() {
    assert_eq!(get_capacity(1, 0, 0), 41);
    assert_eq!(get_capacity(1, 3, 2), 7);
    assert_eq!(get_capacity(40, 0, 0), 7089);
    assert_eq!(get_capacity(40, 3, 2), 1273);
    assert_eq!(CHARACTER_CAPACITIES[9][1][1], 311);
}

#[test]
fn block_layouts() {
    assert_eq!(
        get_block_layout(1, 0),
        BlockLayout { ecc_count: 7, blocks1: 1, len1: 19, blocks2: 0, len2: 0 }
    );
    assert_eq!(
        get_block_layout(5, 2),
        BlockLayout { ecc_count: 18, blocks1: 2, len1: 15, blocks2: 2, len2: 16 }
    );
    assert_eq!(
        get_block_layout(40, 3),
        BlockLayout { ecc_count: 30, blocks1: 20, len1: 15, blocks2: 61, len2: 16 }
    );
}

#[test]
fn data_codewords_are_those_of_the_blocks() {
    for version in 0..40 {
        for level in 0..4 {
            let row = ECC_DATA[version][level];
            assert_eq!(
                DATA_CODEWORDS[version][level] as u32,
                row[1] * row[2] + row[3] * row[4]
            );
        }
    }
}
