//! Cross-module interfaces and helpers: errors, input parsing, progress
//! reporting and the random source.

pub mod errors;
pub mod input;
pub mod progress;
pub mod random;
