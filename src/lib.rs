//! Arithmetic expressions with dice notation (`3d6+2`, `10+(3+2d6*2)+3(2d20)+d2`),
//! compiled once to a postfix program and evaluated under several roll policies.

pub mod compile;
pub mod equation;
pub mod errors;
pub mod eval;
pub mod laws;
pub mod roll;
pub mod token;

pub use equation::Equation;
pub use errors::{DivideByZeroError, InvalidExpressionError};
pub use token::{Die, RollType, Token};
