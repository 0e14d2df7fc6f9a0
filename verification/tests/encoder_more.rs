use qrgen::encoder::mode::get_mode_of_bytes;
use qrgen::encoder::packing::get_payload_len;
use qrgen::encoder::reed_solomon::divide;
use qrgen::encoder::{
    alphanumeric_value, assemble_qr_data, compute_generator_polynomial, encode_data, encode_text,
    galois_multiply, generate_error_correction_codes, get_count_bits_size, get_encoding_mode,
    get_required_bit_length, get_version, interleave_codewords, is_alphanumeric, prepare,
    EncodingMode, ErrorCorrection, QrError,
};
use qrgen::{map_levels, ErrorCorrection as Level};

#[test]
fn empty_input_under_high_correction() {
    let bytes = encode_data("", ErrorCorrection::High).unwrap();
    assert_eq!(bytes, [0x40, 0x00, 0xEC, 0x11, 0xEC, 0x11, 0xEC, 0x11, 0xEC]);
}

#[test]
fn alphanumeric_text() {
    let bytes = encode_data("HELLO WORLD", ErrorCorrection::Quartile).unwrap();
    assert_eq!(
        bytes,
        [0x20, 0x5B, 0x0B, 0x78, 0xD1, 0x72, 0xDC, 0x4D, 0x43, 0x40, 0xEC, 0x11, 0xEC]
    );
}

#[test]
fn numeric_text() {
    let bytes = encode_data("8675309", ErrorCorrection::Medium).unwrap();
    assert_eq!(
        bytes,
        [
            0x10, 0x1F, 0x63, 0x84, 0xA4, 0x00, 0xEC, 0x11, 0xEC, 0x11, 0xEC, 0x11, 0xEC, 0x11,
            0xEC, 0x11
        ]
    );
}

#[test]
fn line_feeds_are_written_as_they_are() {
    let bytes = encode_data("\n", ErrorCorrection::Low).unwrap();
    assert_eq!(
        bytes,
        [
            0x40, 0x10, 0xA0, 0xEC, 0x11, 0xEC, 0x11, 0xEC, 0x11, 0xEC, 0x11, 0xEC, 0x11, 0xEC,
            0x11, 0xEC, 0x11, 0xEC, 0x11
        ]
    );
    let bytes = encode_data("\n\n\n\n", ErrorCorrection::High).unwrap();
    assert_eq!(bytes, [64, 64, 160, 160, 160, 160, 236, 17, 236]);
}

#[test]
fn count_field_holds_the_number_of_characters() {
    let bytes = encode_data("aЉ윇😱", ErrorCorrection::Medium).unwrap();
    assert_eq!(bytes[0], 0x40);
    assert_eq!(bytes[1], 0x46);
    assert_eq!(prepare("aЉ윇😱", ErrorCorrection::Medium), Ok((4, 1)));
    assert_eq!(prepare("\n\n\n\n", ErrorCorrection::High), Ok((4, 1)));
}

#[test]
fn bytes_beyond_the_data_bits_of_the_version_are_refused() {
    let text = "😱".repeat(17);
    assert_eq!(encode_data(text.as_str(), ErrorCorrection::Low), Err(QrError::CapacityExceeded));
    assert_eq!(prepare(text.as_str(), ErrorCorrection::Low), Err(QrError::CapacityExceeded));
    assert_eq!(
        assemble_qr_data(text.as_str(), ErrorCorrection::Low),
        Err(QrError::CapacityExceeded)
    );
    let text = "😱".repeat(4);
    assert_eq!(encode_data(text.as_str(), ErrorCorrection::Low).unwrap().len(), 19);
    let text = "😱".repeat(5);
    assert_eq!(encode_data(text.as_str(), ErrorCorrection::Low), Err(QrError::CapacityExceeded));
}

#[test]
fn output_length_is_that_of_the_version() {
    let text = "The quick brown fox jumps over the lazy dog. ".repeat(80);
    let levels = [
        ErrorCorrection::Low,
        ErrorCorrection::Medium,
        ErrorCorrection::Quartile,
        ErrorCorrection::High,
    ];
    for level in levels {
        for len in [0usize, 1, 7, 17, 100, 500, 1273] {
            let input = &text[..len];
            let (count, version) = prepare(input, level).unwrap();
            assert_eq!(count, len);
            let bytes = encode_data(input, level).unwrap();
            let required = get_required_bit_length(version, level);
            assert_eq!(required % 8, 0);
            assert_eq!(bytes.len() as u32, required / 8);
        }
    }
}

#[test]
fn encoding_twice_gives_the_same_bytes() {
    let input = "Twice the same, 1234567890!";
    let first = assemble_qr_data(input, ErrorCorrection::Quartile).unwrap();
    let second = assemble_qr_data(input, ErrorCorrection::Quartile).unwrap();
    assert_eq!(first, second);
    assert_eq!(
        encode_data(input, ErrorCorrection::Low),
        encode_data(input, ErrorCorrection::Low)
    );
}

#[test]
fn mode_of_an_input_is_stable() {
    for input in ["", "0", "A0", "a0", "12 34", "12\n34", "ÄÖ", "$%*+-./:"] {
        let mode = get_encoding_mode(input);
        assert_eq!(get_encoding_mode(input), mode);
        assert_eq!(get_mode_of_bytes(input.as_bytes()), mode);
    }
    assert_eq!(get_encoding_mode("$%*+-./:"), EncodingMode::Alphanumeric);
    assert_eq!(get_encoding_mode("12\n34"), EncodingMode::Byte);
    assert_eq!(get_encoding_mode("ab"), EncodingMode::Byte);
}

#[test]
fn alphanumeric_characters() {
    let set = "0123456789ABCDEFGHIJKLMNOPQRSTUVWXYZ $%*+-./:";
    for (i, c) in set.chars().enumerate() {
        assert!(is_alphanumeric(c));
        assert_eq!(alphanumeric_value(c) as usize, i);
    }
    for c in ['a', 'z', '!', '#', '&', ',', ';', '@', '[', '\n', 'Ä', '😱'] {
        assert!(!is_alphanumeric(c));
        assert_eq!(alphanumeric_value(c), 0);
    }
}

#[test]
fn smallest_version_that_holds_the_text() {
    assert_eq!(get_version(ErrorCorrection::Low, EncodingMode::Numeric, 41), Ok(1));
    assert_eq!(get_version(ErrorCorrection::Low, EncodingMode::Numeric, 42), Ok(2));
    assert_eq!(get_version(ErrorCorrection::Medium, EncodingMode::Alphanumeric, 0), Ok(1));
    assert_eq!(get_version(ErrorCorrection::Quartile, EncodingMode::Byte, 11), Ok(1));
    assert_eq!(get_version(ErrorCorrection::Quartile, EncodingMode::Byte, 12), Ok(2));
    assert_eq!(get_version(ErrorCorrection::High, EncodingMode::Byte, 1273), Ok(40));
    assert_eq!(get_version(ErrorCorrection::Low, EncodingMode::Numeric, 7089), Ok(40));
}

#[test]
fn text_beyond_version_40_is_refused() {
    assert_eq!(
        get_version(ErrorCorrection::High, EncodingMode::Byte, 1274),
        Err(QrError::CapacityExceeded)
    );
    assert_eq!(
        get_version(ErrorCorrection::Low, EncodingMode::Numeric, 7090),
        Err(QrError::CapacityExceeded)
    );
    let long = "x".repeat(2954);
    assert_eq!(encode_data(long.as_str(), ErrorCorrection::Low), Err(QrError::CapacityExceeded));
    assert_eq!(
        assemble_qr_data(long.as_str(), ErrorCorrection::Low),
        Err(QrError::CapacityExceeded)
    );
    assert_eq!(prepare(long.as_str(), ErrorCorrection::Low), Err(QrError::CapacityExceeded));
    let fits = "x".repeat(2953);
    assert_eq!(encode_data(fits.as_str(), ErrorCorrection::Low).unwrap().len(), 2956);
}

#[test]
fn widths_of_the_character_count() {
    assert_eq!(get_count_bits_size(1, EncodingMode::Numeric), 10);
    assert_eq!(get_count_bits_size(9, EncodingMode::Alphanumeric), 9);
    assert_eq!(get_count_bits_size(9, EncodingMode::Byte), 8);
    assert_eq!(get_count_bits_size(10, EncodingMode::Numeric), 12);
    assert_eq!(get_count_bits_size(26, EncodingMode::Alphanumeric), 11);
    assert_eq!(get_count_bits_size(10, EncodingMode::Byte), 16);
    assert_eq!(get_count_bits_size(27, EncodingMode::Numeric), 14);
    assert_eq!(get_count_bits_size(40, EncodingMode::Alphanumeric), 13);
    assert_eq!(get_count_bits_size(40, EncodingMode::Byte), 16);
}

#[test]
fn required_bit_lengths() {
    assert_eq!(get_required_bit_length(1, ErrorCorrection::Low), 152);
    assert_eq!(get_required_bit_length(1, ErrorCorrection::High), 72);
    assert_eq!(get_required_bit_length(5, ErrorCorrection::Quartile), 496);
    assert_eq!(get_required_bit_length(40, ErrorCorrection::Low), 23648);
    assert_eq!(get_required_bit_length(40, ErrorCorrection::High), 10208);
}

#[test]
fn products_in_the_field() {
    assert_eq!(galois_multiply(2, 128), 29);
    assert_eq!(galois_multiply(87, 19), 224);
    assert_eq!(galois_multiply(255, 255), 226);
    assert_eq!(galois_multiply(0x53, 0xCA), 143);
    assert_eq!(galois_multiply(1, 77), 77);
    assert_eq!(galois_multiply(77, 1), 77);
    assert_eq!(galois_multiply(0, 5), 0);
    assert_eq!(galois_multiply(5, 0), 0);
}

#[test]
fn products_in_the_field_commute() {
    for x in 0..=255u8 {
        for y in 0..=255u8 {
            assert_eq!(galois_multiply(x, y), galois_multiply(y, x));
        }
    }
}

#[test]
fn small_generator_polynomials() {
    assert_eq!(compute_generator_polynomial(1), [1]);
    assert_eq!(compute_generator_polynomial(2), [3, 2]);
    assert_eq!(compute_generator_polynomial(7), [127, 122, 154, 164, 11, 68, 117]);
}

#[test]
fn error_correction_of_a_short_block() {
    let codes = generate_error_correction_codes(&vec![1, 2, 3], ErrorCorrection::Low, 1);
    assert_eq!(codes, [80, 156, 88, 42, 167, 51, 42]);
    let codes = generate_error_correction_codes(&vec![], ErrorCorrection::Low, 1);
    assert_eq!(codes, [0, 0, 0, 0, 0, 0, 0]);
}

#[test]
fn codeword_with_its_error_correction_is_a_multiple_of_the_generator() {
    let data = vec![0x40, 0x56, 0x86, 0x56, 0xC6, 0xC6, 0xF0, 0xEC, 0x11];
    let codes = generate_error_correction_codes(&data, ErrorCorrection::High, 1);
    assert_eq!(codes.len(), 17);
    let mut root: u8 = 1;
    for _ in 0..17 {
        let mut value: u8 = 0;
        for byte in data.iter().chain(codes.iter()) {
            value = galois_multiply(value, root) ^ byte;
        }
        assert_eq!(value, 0);
        root = galois_multiply(root, 2);
    }
}

#[test]
fn interleaving_takes_the_blocks_in_turn() {
    let data: Vec<u8> = (0..62).collect();
    let payload = interleave_codewords(&data, ErrorCorrection::Quartile, 5);
    assert_eq!(payload.len(), 62 + 4 * 18);
    let mut expected: Vec<u8> = Vec::new();
    for i in 0..15 {
        expected.extend([i, 15 + i, 30 + i, 46 + i]);
    }
    expected.extend([45, 61]);
    assert_eq!(&payload[..62], expected.as_slice());
    let blocks = [&data[0..15], &data[15..30], &data[30..46], &data[46..62]];
    for (b, block) in blocks.iter().enumerate() {
        let codes = generate_error_correction_codes(&block.to_vec(), ErrorCorrection::Quartile, 5);
        for i in 0..18 {
            assert_eq!(payload[62 + 4 * i + b], codes[i]);
        }
    }
}

#[test]
fn encoded_text_is_what_encode_data_gives() {
    let (count, version) = prepare("hello!", ErrorCorrection::Low).unwrap();
    assert_eq!(count, 6);
    assert_eq!(version, 1);
    assert_eq!(
        encode_text(b"hello!", count, version, ErrorCorrection::Low),
        encode_data("hello!", ErrorCorrection::Low).unwrap()
    );
}

#[test]
fn levels_map_one_to_one() {
    assert_eq!(map_levels(Level::Low), ErrorCorrection::Low);
    assert_eq!(map_levels(Level::Medium), ErrorCorrection::Medium);
    assert_eq!(map_levels(Level::Quartile), ErrorCorrection::Quartile);
    assert_eq!(map_levels(Level::High), ErrorCorrection::High);
}

#[test]
fn mode_of_bytes() {
    assert_eq!(get_mode_of_bytes(b""), EncodingMode::Byte);
    assert_eq!(get_mode_of_bytes(b"0042"), EncodingMode::Numeric);
    assert_eq!(get_mode_of_bytes(b"A-Z 0-9"), EncodingMode::Alphanumeric);
    assert_eq!(get_mode_of_bytes(b"a"), EncodingMode::Byte);
    assert_eq!(get_mode_of_bytes(&[0x30, 0xC3, 0x84]), EncodingMode::Byte);
}

#[test]
fn lengths_of_packed_text() {
    assert_eq!(get_payload_len(EncodingMode::Numeric, 0), 0);
    assert_eq!(get_payload_len(EncodingMode::Numeric, 1), 4);
    assert_eq!(get_payload_len(EncodingMode::Numeric, 2), 7);
    assert_eq!(get_payload_len(EncodingMode::Numeric, 3), 10);
    assert_eq!(get_payload_len(EncodingMode::Numeric, 8), 27);
    assert_eq!(get_payload_len(EncodingMode::Numeric, 7089), 23630);
    assert_eq!(get_payload_len(EncodingMode::Alphanumeric, 10), 55);
    assert_eq!(get_payload_len(EncodingMode::Alphanumeric, 11), 61);
    assert_eq!(get_payload_len(EncodingMode::Byte, 6), 48);
}

#[test]
fn remainder_of_a_division() {
    assert_eq!(
        divide(&[1, 2, 3], &vec![127, 122, 154, 164, 11, 68, 117]),
        [80, 156, 88, 42, 167, 51, 42]
    );
    assert_eq!(divide(&[], &vec![3, 2]), [0, 0]);
    assert_eq!(divide(&[1], &vec![3, 2]), [3, 2]);
    assert_eq!(divide(&[1, 3, 2], &vec![3, 2]), [0, 0]);
}

#[test]
fn terminator_is_cut_where_the_text_fills_the_symbol() {
    let digits = "1".repeat(41);
    assert_eq!(
        encode_data(digits.as_str(), ErrorCorrection::Low).unwrap(),
        [16, 164, 111, 27, 198, 241, 188, 111, 27, 198, 241, 188, 111, 27, 198, 241, 188, 111, 22]
    );
    let letters = "A".repeat(25);
    assert_eq!(
        encode_data(letters.as_str(), ErrorCorrection::Low).unwrap(),
        [32, 201, 204, 57, 135, 48, 230, 28, 195, 152, 115, 14, 97, 204, 57, 135, 48, 230, 20]
    );
    let bytes = "x".repeat(17);
    assert_eq!(
        encode_data(bytes.as_str(), ErrorCorrection::Low).unwrap(),
        [
            65, 23, 135, 135, 135, 135, 135, 135, 135, 135, 135, 135, 135, 135, 135, 135, 135,
            135, 128
        ]
    );
    let digits = "7".repeat(40);
    assert_eq!(
        encode_data(digits.as_str(), ErrorCorrection::Low).unwrap(),
        [16, 163, 9, 194, 112, 156, 39, 9, 194, 112, 156, 39, 9, 194, 112, 156, 39, 9, 112]
    );
}
