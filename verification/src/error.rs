//! The ways in which an expression can fail.
use vstd::prelude::*;

verus! {

/// Why an expression has no value.
#[derive(Clone, Copy, Debug, PartialEq, Eq, Structural)]
pub enum ErrorKind {
    /// A numeral that is no decimal number, such as `1.2.3` or a lone `.`.
    InvalidNumber,
    /// A character that belongs to no token.
    InvalidCharacter,
    /// A division whose divisor is zero.
    DivisionByZero,
    /// An operator without its operands, a parenthesis without its partner,
    /// or operands left over at the end.
    SyntaxError,
    /// A symbol that names none of the five operators.
    UnknownOperator,
}

impl ErrorKind {
    /// The text shown to the user for this error.
    pub open spec fn spec_message(self) -> Seq<char> {
        match self {
            ErrorKind::InvalidNumber => "Invalid number"@,
            ErrorKind::InvalidCharacter => "Invalid character"@,
            ErrorKind::DivisionByZero => "Division by zero"@,
            ErrorKind::SyntaxError => "Syntax error"@,
            ErrorKind::UnknownOperator => "Unknown operator"@,
        }
    }

    /// The text shown to the user for this error.
    pub fn message(self) -> (text: &'static str)
        ensures
            text@ == self.spec_message(),
    {
        match self {
            ErrorKind::InvalidNumber => "Invalid number",
            ErrorKind::InvalidCharacter => "Invalid character",
            ErrorKind::DivisionByZero => "Division by zero",
            ErrorKind::SyntaxError => "Syntax error",
            ErrorKind::UnknownOperator => "Unknown operator",
        }
    }
}

} // verus!
