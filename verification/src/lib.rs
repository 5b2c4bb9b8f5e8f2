//! A small exact-arithmetic calculator for non-negative fractions.
//!
//! A `Fraction` is a pair of `u32` values, numerator and denominator, kept in
//! lowest terms by every arithmetic operation. Fractions are written and read
//! in the textual form `"numerator;denominator"`, and a whole expression such
//! as `"1;3x1;2"` pairs two fractions with one operator character.

pub mod arith;
pub mod error;
pub mod fraction;
pub mod parser;
pub mod text;
