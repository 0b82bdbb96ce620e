//! Integer ranges of the Koto runtime, with verified bounds arithmetic.

pub mod convert;
pub mod format;
pub mod laws;
pub mod range;

pub use range::{KInt, KRange, RangeError};
