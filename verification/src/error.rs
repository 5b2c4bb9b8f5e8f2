//! The error taxonomy of the calculator: every failure is a local validation
//! failure, returned synchronously to the caller.

use vstd::prelude::*;

verus! {

/// Everything that can go wrong while parsing or evaluating an expression.
#[derive(Clone, Copy, Debug, PartialEq, Eq, Structural)]
pub enum CalcError {
    /// No operator character was found, or the split around it does not give
    /// exactly two operand texts.
    MalformedExpression,
    /// The character at the operator position is none of `x`, `+`, `-`, `/`.
    UnknownOperator,
    /// The numerator text is not a decimal numeral that fits in `u32`.
    InvalidNumerator,
    /// The denominator text is not a decimal numeral that fits in `u32`, or
    /// it denotes zero.
    InvalidDenominator,
    /// A division whose second operand has numerator zero.
    DivisionByZero,
    /// A subtraction whose mathematical result would be negative.
    ArithmeticUnderflow,
}

impl CalcError {
    /// A short message for each failure, as a caller would print it.
    pub fn message(&self) -> (r: &'static str)
        ensures
            *self == CalcError::MalformedExpression ==> r@ == "Wrong input"@,
            *self == CalcError::UnknownOperator ==> r@ == "Unknown sign"@,
            *self == CalcError::InvalidNumerator ==> r@ == "Failed to parse numerator"@,
            *self == CalcError::InvalidDenominator ==> r@ == "Invalid denominator"@,
            *self == CalcError::DivisionByZero ==> r@ == "Division by zero"@,
            *self == CalcError::ArithmeticUnderflow ==> r@ == "Arithmetic underflow"@,
    {
        match self {
            CalcError::MalformedExpression => "Wrong input",
            CalcError::UnknownOperator => "Unknown sign",
            CalcError::InvalidNumerator => "Failed to parse numerator",
            CalcError::InvalidDenominator => "Invalid denominator",
            CalcError::DivisionByZero => "Division by zero",
            CalcError::ArithmeticUnderflow => "Arithmetic underflow",
        }
    }
}

} // verus!
