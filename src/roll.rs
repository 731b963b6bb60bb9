//! One-shot evaluation: compile, evaluate once, and discard the program.
use crate::compile::compile;
use crate::equation::{advantage_outcome, disadvantage_outcome, Equation};
use crate::errors::InvalidExpressionError;
use crate::eval::roll_outcome;
use vstd::prelude::*;

verus! {

/// Compiles `input` and rolls it once.
pub fn roll(input: &str) -> (r: Result<i32, InvalidExpressionError>)
    ensures
        match compile(input@) {
            Ok(p) => roll_outcome(p, r),
            Err(e) => r == Err::<i32, InvalidExpressionError>(e),
        },
{
    match Equation::new(input) {
        Ok(eq) => eq.roll(),
        Err(e) => Err(e),
    }
}

/// Compiles `input`, rolls it twice and keeps the greater result.
pub fn advantage(input: &str) -> (r: Result<i32, InvalidExpressionError>)
    ensures
        match compile(input@) {
            Ok(p) => advantage_outcome(p, r),
            Err(e) => r == Err::<i32, InvalidExpressionError>(e),
        },
{
    match Equation::new(input) {
        Ok(eq) => eq.advantage(),
        Err(e) => Err(e),
    }
}

/// Compiles `input`, rolls it twice and keeps the lesser result.
pub fn disadvantage(input: &str) -> (r: Result<i32, InvalidExpressionError>)
    ensures
        match compile(input@) {
            Ok(p) => disadvantage_outcome(p, r),
            Err(e) => r == Err::<i32, InvalidExpressionError>(e),
        },
{
    match Equation::new(input) {
        Ok(eq) => eq.disadvantage(),
        Err(e) => Err(e),
    }
}

} // verus!
