//! From the codewords of a symbol to its modules: the fixed patterns, the
//! placement of the data, the masks and their penalties.

pub mod create;
pub mod data;
pub mod fixed;
pub mod grid;
pub mod landmarks;
pub mod patterns;
pub mod penalty;
pub mod placement;
pub mod qr;
pub mod room;
pub mod room_proof;
pub mod score;
pub mod symbol;

pub use qr::QR;
