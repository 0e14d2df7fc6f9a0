//! From text to the codewords of a symbol: the choice of mode and version,
//! the bit stream, Reed-Solomon error correction and the interleaving of
//! blocks.

pub mod codeword;
pub mod field;
pub mod fit;
pub mod generator_table;
pub mod interleave;
pub mod logarithms;
pub mod mode;
pub mod packing;
pub mod powers;
pub mod reed_solomon;
pub mod stream;

pub use interleave::{assemble_qr_data, interleave_codewords};
pub use mode::{
    alphanumeric_value, get_count_bits_size, get_encoding_mode, get_required_bit_length,
    get_version, is_alphanumeric, EncodingMode, ErrorCorrection, QrError,
};
pub use packing::{alphanumeric_encode, byte_encode, numeric_encode, EncodedData};
pub use reed_solomon::{
    compute_generator_polynomial, galois_multiply, generate_error_correction_codes,
};
pub use stream::{encode_data, encode_text, prepare};
