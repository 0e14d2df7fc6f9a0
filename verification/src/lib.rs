//! A generator of QR code symbols.
//!
//! `encoder` turns a text into the codewords of a symbol: it picks the mode
//! and the version, writes the bit stream, adds the Reed-Solomon error
//! correction and interleaves the blocks. `drawer` turns the codewords into
//! the grid of modules: the fixed patterns, the data under the mask with
//! the least penalty, and the format information. `render` scales the grid
//! to pixels. `tables` holds the data of the symbol family.

use vstd::prelude::*;

pub mod bits;
pub mod bitsink;
pub mod drawer;
pub mod encoder;
pub mod render;
pub mod tables;
pub mod text;

verus! {

/// How much of a symbol can be restored when it is damaged.
#[derive(Copy, Clone, PartialEq, Eq, Debug, Structural)]
pub enum ErrorCorrection {
    /// About 7% of the codewords.
    Low,
    /// About 15% of the codewords.
    Medium,
    /// About 25% of the codewords.
    Quartile,
    /// About 30% of the codewords.
    High,
}

/// The level of the encoder that stands for a level.
pub open spec fn level_of(level: ErrorCorrection) -> encoder::ErrorCorrection {
    match level {
        ErrorCorrection::Low => encoder::ErrorCorrection::Low,
        ErrorCorrection::Medium => encoder::ErrorCorrection::Medium,
        ErrorCorrection::Quartile => encoder::ErrorCorrection::Quartile,
        ErrorCorrection::High => encoder::ErrorCorrection::High,
    }
}

/// Hands a level on to the encoder.
pub fn map_levels(level: ErrorCorrection) -> (mapped: encoder::ErrorCorrection)
    ensures
        mapped == level_of(level),
{
    match level {
        ErrorCorrection::Low => encoder::ErrorCorrection::Low,
        ErrorCorrection::Medium => encoder::ErrorCorrection::Medium,
        ErrorCorrection::Quartile => encoder::ErrorCorrection::Quartile,
        ErrorCorrection::High => encoder::ErrorCorrection::High,
    }
}

} // verus!
