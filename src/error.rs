use vstd::prelude::*;

verus! {

/// Why a run of digits could not be read as a signed 64-bit integer.
#[derive(Debug, Clone, Copy, PartialEq, Eq, Structural)]
pub enum IntErrorKind {
    /// No digits at all.
    Empty,
    /// A character that is not a digit of the radix.
    InvalidDigit,
    /// The value exceeds `i64::MAX`.
    PosOverflow,
}

/// Every failure of parsing, preprocessing or evaluation.
#[derive(Debug, Clone)]
pub enum WgslError {
    UnknownOperation(String),
    InvalidIfBlock,
    NoExpression,
    NoClosingParenthesis,
    DuplicatePeriod,
    InvalidBase,
    ParseFloatError,
    ParseIntError(IntErrorKind),
    LeftoverChars(String),
    UndefinedVariable,
    InvalidExpression,
    NotFound,
}

} // verus!
