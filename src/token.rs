use vstd::prelude::*;

verus! {

/// A die-roll descriptor: roll `number` dice of `sides` faces each and sum them.
#[derive(Clone, Copy, Debug, PartialEq, Eq, Structural)]
pub struct Die {
    pub number: u32,
    pub sides: u32,
}

/// One instruction of a compiled program.
#[derive(Clone, Copy, Debug, PartialEq, Eq, Structural)]
pub enum Token {
    Operand(u32),
    Plus,
    Minus,
    Times,
    Divide,
    Exponent,
    /// Only stands on the operator stack while compiling.
    LeftParen,
    Dice(Die),
}

/// How `Dice` tokens resolve to integers during one evaluation.
#[derive(Clone, Copy, Debug, PartialEq, Eq, Structural)]
pub enum RollType {
    /// A random roll of every die.
    Default,
    Average,
    Low,
    High,
}

/// Binding strength of an operator on the compiler's stack; `(` is highest and
/// acts as a barrier. Values carry no precedence.
pub open spec fn precedence(t: Token) -> int {
    match t {
        Token::Plus | Token::Minus => 1,
        Token::Times | Token::Divide => 2,
        Token::Exponent => 3,
        Token::LeftParen => 4,
        Token::Operand(_) | Token::Dice(_) => 0,
    }
}

pub fn operator_precedence(t: Token) -> (r: i32)
    ensures
        r == precedence(t),
{
    match t {
        Token::Plus | Token::Minus => 1,
        Token::Times | Token::Divide => 2,
        Token::Exponent => 3,
        Token::LeftParen => 4,
        Token::Operand(_) | Token::Dice(_) => 0,
    }
}

} // verus!
