use vstd::prelude::*;

verus! {

/// Raised when a division has a zero right-hand side.
#[derive(Clone, Copy, Debug, PartialEq, Eq, Structural)]
pub enum DivideByZeroError {
    DivideByZero,
}

/// Every way compiling or evaluating an expression can fail.
#[derive(Clone, Copy, Debug, PartialEq, Eq, Structural)]
pub enum InvalidExpressionError {
    /// The compiled program is malformed: an operator lacks an operand, or
    /// the evaluation does not end with exactly one value.
    InvalidExpression,
    InvalidDie,
    /// A character outside the grammar.
    InvalidToken(char),
    /// A division whose right-hand side is zero.
    DivideByZero,
    /// A literal, a die total or an intermediate result does not fit the
    /// integer types of the program.
    Overflow,
}

pub open spec fn divide_by_zero_text() -> Seq<char> {
    "Error: Attempted to divide by 0"@
}

impl DivideByZeroError {
    /// The error as a human-readable line.
    pub fn message(&self) -> (r: String)
        ensures
            r@ == divide_by_zero_text(),
    {
        String::from_str("Error: Attempted to divide by 0")
    }
}

pub open spec fn invalid_expression_text(e: InvalidExpressionError) -> Seq<char> {
    match e {
        InvalidExpressionError::InvalidExpression =>
            "Error: The expression could not be parsed, incorrect format?"@,
        InvalidExpressionError::InvalidDie => "Error: Die expression could not be parsed."@,
        InvalidExpressionError::InvalidToken(c) => "Error: Unexpected token '"@ + seq![c]
            + "' found while parsing"@,
        InvalidExpressionError::DivideByZero => divide_by_zero_text(),
        InvalidExpressionError::Overflow => "Error: A value does not fit in a 32-bit integer"@,
    }
}

/// Relies on `char::to_string`: the string holds that one character.
#[verifier::external_body]
fn char_text(c: char) -> (r: String)
    ensures
        r@ == seq![c],
{
    c.to_string()
}

impl InvalidExpressionError {
    /// The error as a human-readable line.
    pub fn message(&self) -> (r: String)
        ensures
            r@ == invalid_expression_text(*self),
    {
        match self {
            InvalidExpressionError::InvalidExpression => String::from_str(
                "Error: The expression could not be parsed, incorrect format?",
            ),
            InvalidExpressionError::InvalidDie => String::from_str(
                "Error: Die expression could not be parsed.",
            ),
            InvalidExpressionError::InvalidToken(c) => {
                let mut s = String::from_str("Error: Unexpected token '");
                let one = char_text(*c);
                s.append(one.as_str());
                s.append("' found while parsing");
                s
            },
            InvalidExpressionError::DivideByZero => String::from_str(
                "Error: Attempted to divide by 0",
            ),
            InvalidExpressionError::Overflow => String::from_str(
                "Error: A value does not fit in a 32-bit integer",
            ),
        }
    }
}

} // verus!
