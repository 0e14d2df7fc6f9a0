//! Static data of the symbol family: character capacities, the layout of
//! error-correction blocks, generator polynomials, alignment pattern
//! centres, version and format information words, and the log and antilog
//! tables of GF(256).
//!
//! Versions run from 1 to 40. Levels and modes are addressed by index:
//! level 0 is the weakest correction and 3 the strongest; mode 0 is numeric,
//! 1 alphanumeric, 2 byte.

pub mod alignment;
pub mod bch;
pub mod block;
pub mod capacity;
pub mod format;
pub mod galois;
pub mod generator;
pub mod layout;
pub mod remainder;
pub mod version;

pub use alignment::{get_alignment_pattern_locations, ALIGNMENT_CENTERS};
pub use block::BlockLayout;
pub use capacity::{get_capacity, CHARACTER_CAPACITIES};
pub use format::{get_format_bits, FORMAT_INFO};
pub use galois::{GALOIS_EXPONENTS, GALOIS_VALUES};
pub use generator::{get_generator_polynomial, GENERATOR_EXPONENTS};
pub use layout::{get_block_layout, DATA_CODEWORDS, ECC_DATA};
pub use remainder::get_remainder_bit_count;
pub use version::{get_version_bitstring, VERSION_INFO};
