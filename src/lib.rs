//! A harness of statistical tests for pseudorandom-number generators, and a
//! collection of generators to test.
//!
//! The generators, the bit-level statistics the tests are built on, the
//! GF(2) matrix rank and the result scoring are verified here; the p-value
//! special functions live with the driver.

pub mod conditioning;
pub mod rngs;
pub mod scoring;
pub mod stats;
pub mod text;
pub mod utils;
