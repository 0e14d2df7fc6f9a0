use bitstream_io::{BigEndian, BitWrite, BitWriter};
use qrgen::encoder::{
    alphanumeric_encode, assemble_qr_data, byte_encode, encode_data,
    generate_error_correction_codes, get_encoding_mode, numeric_encode, EncodingMode,
    ErrorCorrection,
};

fn create_bitstream<T: bitstream_io::Numeric>(bits: u32, value: T) -> Vec<u8> {
    let mut writer = BitWriter::endian(Vec::new(), BigEndian);
    writer.write(bits, value).unwrap();
    writer.byte_align().unwrap();
    writer.into_writer()
}

#[test]
fn test_data_analyzing() {
    assert_eq!(get_encoding_mode("Hello world!"), EncodingMode::Byte);
    assert_eq!(
        get_encoding_mode("HELLO WORLD 123 :/"),
        EncodingMode::Alphanumeric
    );
    assert_eq!(get_encoding_mode("09865456789"), EncodingMode::Numeric);
    assert_eq!(get_encoding_mode("aЉ윇😱"), EncodingMode::Byte);
    assert_eq!(get_encoding_mode(""), EncodingMode::Byte);
}

fn test_encoding<T: bitstream_io::Numeric>(
    mode: EncodingMode,
    values: &[&str],
    expecteds: &[T],
    expected_lengths: &[u32],
) {
    for i in 0..values.len() {
        let encoded = match mode {
            EncodingMode::Alphanumeric => alphanumeric_encode(values[i]),
            EncodingMode::Numeric => numeric_encode(values[i]),
            EncodingMode::Byte => byte_encode(values[i]),
        };
        let expected = create_bitstream(expected_lengths[i], expecteds[i]);
        assert_eq!(encoded.size_in_bits, expected_lengths[i]);
        assert_eq!(encoded.data, expected);
    }
}

#[test]
fn test_numeric_encoding() {
    let values = ["867", "1234567890", "00100308", "0"];
    let bits = [
        0b1101100011,
        0b0001111011011100100011000101010000u64,
        0b000000000100000000110001000u64,
        0b0000,
    ];
    let lengths = [10, 34, 27, 4];
    test_encoding(EncodingMode::Numeric, &values, &bits, &lengths)
}

#[test]
fn test_alphanumeric_encoding() {
    let values = ["HELLO WORLD", " $%*+-./:1"];
    let bits = [
        0b0110000101101111000110100010111001011011100010011010100001101u64,
        0b1100111100111011010101111001100011111000110111110111101u64,
    ];
    let lengths = [61, 55];
    test_encoding(EncodingMode::Alphanumeric, &values, &bits, &lengths)
}

#[test]
fn test_byte_encoding() {
    let values = ["hello", "aЉ윇😱", "qr! ;)"];
    let bits = [
        0b0110100001100101011011000110110001101111u128,
        0b01100001110100001000100111101100100111001000011111110000100111111001100010110001u128,
        0b011100010111001000100001001000000011101100101001u128,
    ];
    let lengths = [40, 80, 48];
    test_encoding(EncodingMode::Byte, &values, &bits, &lengths)
}

#[test]
fn test_data_encoding() {
    let bytes = encode_data("hello!", ErrorCorrection::Low).unwrap();
    let expected = [
        0x40, 0x66, 0x86, 0x56, 0xC6, 0xC6, 0xF2, 0x10, 0xEC, 0x11, 0xEC, 0x11, 0xEC, 0x11,
        0xEC, 0x11, 0xEC, 0x11, 0xEC,
    ];
    assert_eq!(bytes, expected);

    let bytes = encode_data("123", ErrorCorrection::Low).unwrap();
    let expected = [
        0x10, 0x0C, 0x7B, 0x00, 0xEC, 0x11, 0xEC, 0x11, 0xEC, 0x11, 0xEC, 0x11, 0xEC, 0x11,
        0xEC, 0x11, 0xEC, 0x11, 0xEC,
    ];
    assert_eq!(bytes, expected);

    let bytes = encode_data("aЉ윇😱", ErrorCorrection::Medium).unwrap();
    let expected = [
        0x40, 0x46, 0x1D, 0x08, 0x9E, 0xC9, 0xC8, 0x7F, 0x09, 0xF9, 0x8B, 0x10, 0xEC, 0x11,
        0xEC, 0x11,
    ];
    assert_eq!(bytes, expected);

    let bytes = encode_data("", ErrorCorrection::High).unwrap();
    let expected = [0x40, 0x00, 0xEC, 0x11, 0xEC, 0x11, 0xEC, 0x11, 0xEC];
    assert_eq!(bytes, expected);

    let bytes = encode_data("LOREM IPSUM SIT DOLOR AMED", ErrorCorrection::Quartile).unwrap();
    let expected = [
        0x20, 0xD3, 0xC9, 0x99, 0xB0, 0x09, 0xA1, 0xD0, 0xA8, 0x05, 0x3F, 0xA9, 0xEA, 0x61,
        0x79, 0x33, 0x8C, 0xEC, 0x28, 0x30, 0xEC, 0x11,
    ];
    assert_eq!(bytes, expected);
}

#[test]
fn test_error_correction_coding() {
    let level = ErrorCorrection::Low;
    let bytes = vec![
        0x40, 0x56, 0x86, 0x56, 0xC6, 0xC6, 0xF0, 0xEC, 0x11, 0xEC, 0x11, 0xEC, 0x11, 0xEC,
        0x11, 0xEC, 0x11, 0xEC, 0x11,
    ];
    let correction_codes = generate_error_correction_codes(&bytes, level, 1);
    let expected = [0x25, 0x19, 0xD0, 0xD2, 0x68, 0x59, 0x39];
    assert_eq!(correction_codes, expected);

    let level = ErrorCorrection::Medium;
    let bytes = vec![
        0x10, 0x0C, 0x7B, 0x00, 0xEC, 0x11, 0xEC, 0x11, 0xEC, 0x11, 0xEC, 0x11, 0xEC, 0x11,
        0xEC, 0x11,
    ];
    let correction_codes = generate_error_correction_codes(&bytes, level, 1);
    let expected = [0x1C, 0x53, 0xB9, 0x9F, 0x2B, 0xD5, 0xE3, 0x6D, 0x0E, 0x70];
    assert_eq!(correction_codes, expected);

    let bytes = vec![
        0xE4, 0xC6, 0xF7, 0x26, 0x56, 0xD2, 0x6, 0x97, 0x7, 0x37, 0x56, 0xD2, 0x7, 0x36,
    ];
    let correction_codes = generate_error_correction_codes(&bytes, ErrorCorrection::High, 8);
    let expected = [
        0x9E, 0xC9, 0x68, 0xF7, 0xDA, 0xA8, 0x31, 0x8D, 0x81, 0x0B, 0x81, 0x89, 0x14, 0x9C,
        0xED, 0x69, 0xF3, 0xC8, 0xA8, 0x47, 0x9F, 0x8B, 0x84, 0xE1, 0x05, 0x4B,
    ];
    assert_eq!(correction_codes, expected);
}

#[test]
fn test_data_assembly() {
    let data = assemble_qr_data("hello", ErrorCorrection::Low).unwrap();
    let expected = [
        0x40, 0x56, 0x86, 0x56, 0xC6, 0xC6, 0xF0, 0xEC, 0x11, 0xEC, 0x11, 0xEC, 0x11, 0xEC,
        0x11, 0xEC, 0x11, 0xEC, 0x11, 0x25, 0x19, 0xD0, 0xD2, 0x68, 0x59, 0x39,
    ];
    assert_eq!(data, expected);

    let data = assemble_qr_data("LOREM IPSUM SIT DOLOR AMED", ErrorCorrection::High).unwrap();
    let expected = [
        0x20, 0x61, 0xD3, 0x79, 0xC9, 0x33, 0x99, 0x8C, 0xB0, 0xEC, 0x09, 0x28, 0xA1, 0x30,
        0xD0, 0xEC, 0xA8, 0x11, 0x05, 0xEC, 0x3F, 0x11, 0xA9, 0xEC, 0xEA, 0x11, 0x98, 0x12,
        0x7A, 0x31, 0x0E, 0x41, 0x36, 0x26, 0x5B, 0xDF, 0x43, 0x34, 0x0C, 0x33, 0x00, 0x8B,
        0x32, 0xDB, 0x28, 0x54, 0x3F, 0xE1, 0x62, 0x6C, 0xDF, 0x3B, 0x08, 0x65, 0x12, 0xD0,
        0x35, 0xF8, 0xF0, 0x75, 0x1A, 0x77, 0x6D, 0x49, 0x01, 0x89, 0xB1, 0x79, 0xF4, 0x76,
    ];
    assert_eq!(data, expected);

    let data = assemble_qr_data("aЉ윇😱", ErrorCorrection::Medium).unwrap();
    let expected = [
        0x40, 0x46, 0x1D, 0x08, 0x9E, 0xC9, 0xC8, 0x7F, 0x09, 0xF9, 0x8B, 0x10, 0xEC, 0x11,
        0xEC, 0x11, 0x07, 0x9A, 0x2D, 0x72, 0x1A, 0xBE, 0xEE, 0xD5, 0x9C, 0x59,
    ];
    assert_eq!(data, expected);

    let input: String = std::iter::repeat("Hello, world! 123").take(5).collect();
    let data = assemble_qr_data(input.as_str(), ErrorCorrection::High).unwrap();
    let expected = [
        0x45, 0xC6, 0xC2, 0x86, 0x12, 0xF7, 0xF2, 0xEC, 0x54, 0x42, 0x07, 0x56, 0x03, 0x26,
        0xC2, 0x11, 0x86, 0x12, 0x76, 0xC6, 0x13, 0xC6, 0x07, 0xEC, 0x56, 0x03, 0xF7, 0xC6,
        0x23, 0x42, 0x76, 0x11, 0xC6, 0x13, 0x26, 0xF2, 0x34, 0x12, 0xF7, 0xEC, 0xC6, 0x23,
        0xC6, 0xC2, 0x86, 0x03, 0x26, 0x11, 0xF2, 0x34, 0x42, 0x07, 0x56, 0x13, 0xC6, 0xEC,
        0xC2, 0x86, 0x12, 0x76, 0xC6, 0x23, 0x42, 0x11, 0x07, 0x56, 0x03, 0xF7, 0xC6, 0x34,
        0x12, 0xEC, 0x76, 0xC6, 0x13, 0x26, 0xF2, 0x86, 0x03, 0x11, 0xF7, 0xC6, 0x23, 0xC6,
        0xC2, 0x56, 0x13, 0xEC, 0x26, 0xF2, 0x34, 0x42, 0x07, 0xC6, 0x23, 0x11, 0x76, 0xC6,
        0x30, 0xEC, 0xC0, 0x58, 0xD8, 0xAC, 0x35, 0x66, 0x0E, 0xE2, 0x2E, 0x8B, 0x3A, 0xAF,
        0xDE, 0xED, 0x8E, 0x34, 0x6E, 0x1D, 0x4F, 0x84, 0xE2, 0x45, 0x4A, 0x07, 0xB8, 0x70,
        0xB2, 0xD9, 0x7D, 0x6C, 0xE2, 0x4D, 0xBA, 0x16, 0x68, 0x7D, 0x38, 0xDB, 0x6C, 0x1B,
        0x27, 0x7F, 0x39, 0xC4, 0x96, 0xC5, 0x45, 0xD7, 0xA1, 0xA5, 0x1C, 0x42, 0x68, 0x33,
        0x38, 0x76, 0xC7, 0x3F, 0xA9, 0x62, 0xED, 0xFD, 0xCF, 0xFA, 0x35, 0xB4, 0xCB, 0x32,
        0xAE, 0x1E, 0xCB, 0xBC, 0xA5, 0xA5, 0x83, 0x2F, 0xB0, 0x8E, 0xFE, 0xD3, 0x07, 0x7C,
        0xF8, 0xE4, 0xDE, 0x81, 0x2C, 0x4B, 0x79, 0x8F, 0x9E, 0x01, 0x20, 0x0E, 0xDC, 0x45,
        0x82, 0xC1, 0xD9, 0x89, 0x53, 0x48, 0x89, 0x56, 0x06, 0x91, 0x67, 0x6A, 0x9F, 0x48,
        0xF2, 0x88, 0x31, 0xA7, 0x4C, 0x3E, 0x2F, 0x40, 0x34, 0x38, 0xDC, 0xC1, 0x6B, 0xA8,
        0xA0, 0xA9, 0x19, 0x1E, 0x4D, 0x23, 0x35, 0xA7, 0x70, 0xA6, 0x67, 0xF5, 0xD3, 0xBF,
        0x53, 0x70, 0x86, 0xFA, 0x36, 0x24, 0xE2, 0x77, 0x0A, 0xB4, 0xC2, 0x80, 0xC4, 0xAB,
        0x6E, 0x76, 0xA4, 0xA1, 0x3C, 0x8B, 0x03, 0x77, 0xB1, 0xA1, 0x19, 0x81, 0xD7, 0x99,
        0x82, 0x79, 0xA0, 0xD8, 0xDA, 0x46, 0x5C, 0xF4, 0xE6, 0x5D, 0x7A, 0xED, 0xB8, 0x60,
        0x18, 0x36, 0xDA, 0xA0, 0x6C, 0x23, 0x0C, 0xEB, 0xE3, 0x18, 0x48, 0x20,
    ];
    assert_eq!(data, expected);

    let input =
        "Lorem ipsum sit dolor amed.Lorem ipsum sit dolor amed.Lorem ipsum sit dolor amed.";
    let data = assemble_qr_data(input, ErrorCorrection::High).unwrap();
    let expected = vec![
        0x45, 0x36, 0xE4, 0x97, 0xC6, 0x06, 0x14, 0x97, 0xC6, 0x42, 0xF7, 0x46, 0xC6, 0x42,
        0xF7, 0x06, 0x26, 0xF6, 0xF7, 0x06, 0x26, 0x46, 0x56, 0xC6, 0x26, 0x46, 0x56, 0xF6,
        0xD2, 0xF7, 0x56, 0xF6, 0xD2, 0xC6, 0x06, 0x22, 0xD2, 0xC6, 0x06, 0xF7, 0x97, 0x06,
        0x06, 0xF7, 0x97, 0x22, 0x07, 0x16, 0x97, 0x22, 0x07, 0x06, 0x37, 0xD6, 0x07, 0x06,
        0x37, 0x16, 0x56, 0x56, 0x37, 0x16, 0x56, 0xD6, 0xD2, 0x42, 0x56, 0xD6, 0xD2, 0x56,
        0x07, 0xE0, 0xD2, 0x56, 0x07, 0x42, 0x36, 0xEC, 0x07, 0x42, 0x36, 0xE4, 0x97, 0x11,
        0x42, 0xEC, 0x3F, 0xD2, 0x9E, 0x10, 0x09, 0x23, 0xE5, 0xF9, 0xC9, 0x1D, 0xBE, 0xA1,
        0x00, 0x74, 0x68, 0xCF, 0xC8, 0xD2, 0x65, 0x1E, 0xF7, 0x48, 0x57, 0xAF, 0xBE, 0x8E,
        0xDA, 0x88, 0x1F, 0xE9, 0xAC, 0xF7, 0xA8, 0x37, 0x20, 0xC0, 0x24, 0x48, 0x31, 0xC0,
        0x80, 0x19, 0xC7, 0x0A, 0x8D, 0x4F, 0xC5, 0x5C, 0x12, 0x6F, 0x81, 0x2A, 0x6A, 0x45,
        0x66, 0x70, 0x0B, 0x84, 0x70, 0xDB, 0x8E, 0x82, 0x81, 0xF8, 0x85, 0x6D, 0x71, 0x30,
        0x89, 0x50, 0xB4, 0xDF, 0xBE, 0x09, 0x14, 0x39, 0xD4, 0xAD, 0xB6, 0xD9, 0x9C, 0xE1,
        0x61, 0xC3, 0x8B, 0xB5, 0xED, 0x08, 0xB9, 0xDB, 0xC3, 0xEA, 0x69, 0x42, 0x43, 0x30,
        0xB6, 0xB6, 0xF3, 0x73, 0x84, 0xA4, 0xEC, 0xF5, 0xC8, 0x5E, 0x47, 0xC9, 0x8E, 0x1B,
        0xA8, 0x3E, 0x6D, 0x3C, 0x98, 0x32, 0x47, 0x04, 0x95, 0x0E, 0x42, 0x57, 0x9F, 0xEF,
        0xAF, 0x02, 0x9E, 0x76, 0x8B, 0xDC, 0x07, 0xDA, 0x1E, 0x51, 0x84, 0x10, 0xF4, 0x55,
        0xF8, 0x2E, 0xE1, 0x65, 0x31, 0x63, 0xC0, 0xD6, 0x05, 0x32, 0xB6, 0x00, 0xD3, 0x2E,
        0x4B, 0x0B, 0x84, 0x0D,
    ];
    assert_eq!(data, expected);

    let input = "Moon, a hole of light\n Through the big top tent up high\n Here before and after me\n Shinin' down on me\n Moon, tell me if I could\n Send up my heart to you?\n So, when I die, which I must do\n Could it shine down here with you?";
    let data = assemble_qr_data(input, ErrorCorrection::Quartile).unwrap();
    let expected = vec![
        0x40, 0x96, 0x72, 0x86, 0x22, 0xE2, 0x96, 0xD7, 0xC2, 0x06, 0x96, 0x53, 0x0D, 0x76,
        0x07, 0x57, 0x06, 0x06, 0x62, 0x92, 0x07, 0xD7, 0xE6, 0xF0, 0xE4, 0x87, 0x46, 0x26,
        0xD6, 0xD6, 0x04, 0x06, 0x76, 0x57, 0x52, 0xEC, 0xD6, 0x40, 0xF7, 0x52, 0x50, 0x50,
        0x92, 0x86, 0x86, 0x37, 0x06, 0x11, 0xF6, 0xA2, 0x02, 0x06, 0xA2, 0xA2, 0x06, 0x56,
        0x56, 0x42, 0x46, 0xEC, 0xF6, 0x05, 0x07, 0x26, 0x05, 0x04, 0x36, 0x17, 0xE2, 0x06,
        0xF7, 0x11, 0xE2, 0x46, 0x46, 0x56, 0x36, 0xD6, 0xF7, 0x27, 0x04, 0x46, 0x76, 0xEC,
        0xC2, 0x87, 0x56, 0x66, 0x86, 0xF6, 0x56, 0x42, 0x92, 0xF0, 0xE2, 0x11, 0x06, 0x26,
        0xE7, 0xF7, 0x96, 0xF6, 0xC6, 0x07, 0x06, 0xA2, 0x06, 0xEC, 0x12, 0xF7, 0x42, 0x26,
        0xE6, 0xE2, 0x40, 0x46, 0x46, 0x04, 0x86, 0x11, 0x06, 0x56, 0x07, 0x52, 0x96, 0xC2,
        0xA2, 0xF2, 0x96, 0x36, 0x57, 0xEC, 0x86, 0x76, 0x57, 0x06, 0xE2, 0x07, 0x05, 0x07,
        0x52, 0xF7, 0x26, 0x11, 0xF6, 0x82, 0x02, 0x16, 0x72, 0x46, 0x36, 0x96, 0xC2, 0x56,
        0x52, 0xEC, 0xC6, 0x07, 0x06, 0xE6, 0x06, 0x56, 0x56, 0xF7, 0x07, 0xC6, 0x07, 0x11,
        0x52, 0x46, 0x86, 0x42, 0x46, 0xC6, 0xE6, 0x53, 0x76, 0x42, 0x76, 0xEC, 0x06, 0x86,
        0x96, 0x06, 0xF7, 0xC2, 0x42, 0xF0, 0x86, 0x06, 0x97, 0x11, 0xF6, 0x52, 0x76, 0x16,
        0x76, 0x06, 0x07, 0xA2, 0x96, 0x97, 0x46, 0xEC, 0x62, 0x06, 0x80, 0x67, 0xE2, 0xD6,
        0x57, 0x05, 0x36, 0x42, 0x82, 0x11, 0x06, 0x26, 0xA2, 0x46, 0x06, 0x52, 0x02, 0x36,
        0x82, 0x07, 0x07, 0xEC, 0xC6, 0x96, 0x04, 0x57, 0xF6, 0x06, 0x06, 0xF2, 0x04, 0x36,
        0x96, 0x11, 0x92, 0x86, 0xF7, 0xEC, 0xA7, 0xD6, 0xF4, 0xE9, 0x84, 0x03, 0x28, 0x2A,
        0xE7, 0x71, 0x47, 0xE4, 0x99, 0x0D, 0x63, 0x98, 0x19, 0x11, 0x2F, 0x81, 0x7E, 0xE5,
        0x21, 0x0F, 0x1B, 0x73, 0xA8, 0xE3, 0xCC, 0xFD, 0xB7, 0x5C, 0xC9, 0x0F, 0xEE, 0x2A,
        0xDB, 0x2E, 0x1A, 0x2B, 0x9D, 0x0B, 0x61, 0x28, 0x49, 0xB0, 0x1A, 0x50, 0x54, 0xFC,
        0xF6, 0x39, 0xB3, 0xC3, 0x2D, 0x6C, 0x41, 0x3C, 0xBA, 0xF6, 0x4E, 0x3E, 0xBC, 0x69,
        0xB6, 0xB5, 0xE3, 0x23, 0x3A, 0xE3, 0xC4, 0x93, 0x8F, 0xD1, 0x9F, 0x0A, 0x10, 0x3B,
        0x3C, 0x00, 0x04, 0xD6, 0xA5, 0xC1, 0x07, 0xB7, 0xFE, 0x59, 0x69, 0x75, 0xB5, 0xDF,
        0xC6, 0x2D, 0xF7, 0x74, 0x2F, 0x1B, 0xC4, 0x61, 0x1B, 0xDD, 0x68, 0x47, 0xBB, 0xCE,
        0x04, 0x94, 0xED, 0xAC, 0x8F, 0x92, 0x50, 0xEA, 0xA0, 0xF8, 0x0D, 0xFE, 0x13, 0x49,
        0x77, 0x15, 0x73, 0xE1, 0x93, 0x09, 0x1E, 0x27, 0x13, 0x0D, 0x15, 0xD1, 0x0F, 0x8A,
        0xB3, 0x59, 0x03, 0xF8, 0x60, 0x40, 0x51, 0x11, 0x0D, 0x53, 0x0C, 0x61, 0x48, 0xD7,
        0xEF, 0x3C, 0xCB, 0xC0, 0x2F, 0x89, 0xC2, 0x08, 0xE7, 0x54, 0xCA, 0x95, 0x9E, 0x42,
        0x0F, 0xE4, 0x8D, 0xC5, 0xCB, 0x60, 0x8C, 0xD1, 0x3B, 0x09, 0x82, 0xF1, 0x14, 0x12,
        0xA5, 0xA9, 0xBE, 0x0F, 0x4C, 0x5C, 0xE4, 0x5C, 0x34, 0x80, 0xCF, 0x1D, 0x32, 0x56,
        0x52, 0x76, 0xE6, 0x1B, 0xB2, 0x84, 0x7C, 0xBF, 0x8A, 0xAD, 0xBF, 0x6D, 0x82, 0xF6,
        0x70, 0x9F, 0xFB, 0x14, 0xA2, 0x4B, 0x21, 0xAD, 0xB7, 0x30, 0x9E, 0xA9, 0xE0, 0x08,
        0x39, 0x9F, 0xB8, 0x06, 0xAD, 0x14, 0x7B, 0xB9, 0xA6, 0x9C, 0xD6, 0x50, 0x6C, 0xD6,
        0x03, 0xD3, 0x01, 0x27, 0x68, 0xF1, 0xC0, 0xFB, 0x6E, 0x75, 0x67, 0xE1, 0x9F, 0xC0,
        0x73, 0x37, 0xBE, 0x4F, 0x54, 0x19, 0x0A, 0x9F, 0xDA, 0xAE, 0xDD, 0xDF, 0xB3, 0x89,
        0x7C, 0xB0, 0x8E, 0xEB, 0xEB, 0x17, 0x23, 0x97, 0xD2, 0x60, 0x62, 0x89, 0xA8, 0x5C,
        0x90, 0x44, 0x29, 0x82, 0x3A, 0x03, 0x49, 0xEE, 0xD8, 0x4C, 0x02, 0xB4, 0x82, 0x33,
    ];
    assert_eq!(data, expected);

    let input = "00000.UFF7THUFF7000001F8F7THUFF7UF00000000UFF7UFF7F7UFF7UF00000000UFF7UEUFF7T*000005F7UFF7UEUFF7UFF500000001F7T*00000.UFF7UF7QF7SK000.QOM:UPUFF7UFEA0000001+F7UFF7THUFF7UFEA0000001+F7UEUFF7UE0000003ZUFF7UF7QF7UFF7SK000000F7UF";
    let data = assemble_qr_data(input, ErrorCorrection::Low).unwrap();
    let expected = vec![
        0x27, 0x00, 0x00, 0x00, 0x00, 0x00, 0x00, 0x00, 0x00, 0xAA, 0xAA, 0xAA, 0xAA, 0xAA,
        0xAA, 0xAA, 0xAA, 0xAA, 0x55, 0x55, 0x55, 0x55, 0x55, 0x55, 0x50, 0x00, 0x00, 0x00,
        0x00, 0x00, 0x00, 0xAA, 0x05, 0x55, 0x55, 0x40, 0xAA, 0xAA, 0xAA, 0xBF, 0x55, 0x55,
        0x55, 0x55, 0x55, 0x55, 0x55, 0x55, 0x55, 0x50, 0x00, 0x00, 0x00, 0x00, 0x00, 0x00,
        0x00, 0x00, 0x00, 0x00, 0x0A, 0xAA, 0xAA, 0xAA, 0xAA, 0xAA, 0xAA, 0xAA, 0xAA, 0xAA,
        0xAA, 0xA5, 0x55, 0x55, 0x55, 0x55, 0x55, 0x55, 0x55, 0x55, 0x55, 0x55, 0x50, 0x00,
        0x00, 0x00, 0x00, 0x00, 0x00, 0x00, 0x00, 0x00, 0x00, 0x0A, 0xAA, 0xAA, 0xAA, 0xAA,
        0xAA, 0xAA, 0xAA, 0x55, 0x55, 0x55, 0x55, 0x55, 0x55, 0x55, 0x50, 0x00, 0x00, 0x00,
        0x00, 0x00, 0x00, 0x00, 0x00, 0x02, 0xAA, 0xAA, 0xAA, 0xAA, 0xAA, 0xAA, 0xAA, 0xAA,
        0xAA, 0xAA, 0xA9, 0x55, 0x55, 0x55, 0x55, 0x55, 0x55, 0x55, 0x55, 0x55, 0x55, 0x54,
        0x00, 0x00, 0x00, 0x00, 0x00, 0x00, 0x00, 0x00, 0x00, 0x00, 0x02, 0xAA, 0xAA, 0xAA,
        0xAA, 0xA8, 0x65, 0x0F, 0xE1, 0x7C, 0xBB, 0xAF, 0xFF, 0xEA, 0x12, 0xA4, 0x0F, 0x42,
        0x34, 0x13, 0xC8, 0x97, 0xF7, 0xD8, 0xF9, 0x27, 0x80, 0x2C, 0x43, 0x27, 0xDA, 0x3A,
        0xDB, 0xF9, 0xC1, 0x9D, 0x46, 0xDC, 0x22, 0x7C, 0xF2, 0xAE, 0x9F, 0xE7, 0xF6, 0xE9,
    ];
    println!("{:X?}", data);
    println!("{:X?}", expected);
    assert_eq!(data, expected);
}
