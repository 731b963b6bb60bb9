use crate::compile::{compile, infix_to_postfix};
use crate::errors::InvalidExpressionError;
use crate::eval::{evaluation, process, roll_outcome};
use crate::token::{RollType, Token};
use vstd::prelude::*;

verus! {

/// Both results, or the first error.
pub open spec fn both(a: Result<i32, InvalidExpressionError>, b: Result<i32, InvalidExpressionError>) -> Result<
    (i32, i32),
    InvalidExpressionError,
> {
    match (a, b) {
        (Ok(x), Ok(y)) => Ok((x, y)),
        (Err(e), _) => Err(e),
        (Ok(_), Err(e)) => Err(e),
    }
}

/// The greater of two results, or the first error.
pub open spec fn keep_higher(a: Result<i32, InvalidExpressionError>, b: Result<i32, InvalidExpressionError>) -> Result<
    i32,
    InvalidExpressionError,
> {
    match both(a, b) {
        Ok((x, y)) => Ok(if x >= y { x } else { y }),
        Err(e) => Err(e),
    }
}

/// The lesser of two results, or the first error.
pub open spec fn keep_lower(a: Result<i32, InvalidExpressionError>, b: Result<i32, InvalidExpressionError>) -> Result<
    i32,
    InvalidExpressionError,
> {
    match both(a, b) {
        Ok((x, y)) => Ok(if x <= y { x } else { y }),
        Err(e) => Err(e),
    }
}

/// `r` is the better of two independent rolls of `prog`.
pub open spec fn advantage_outcome(prog: Seq<Token>, r: Result<i32, InvalidExpressionError>) -> bool {
    exists|a: Result<i32, InvalidExpressionError>, b: Result<i32, InvalidExpressionError>|
        #[trigger] roll_outcome(prog, a) && #[trigger] roll_outcome(prog, b) && r == keep_higher(a, b)
}

/// `r` is the worse of two independent rolls of `prog`.
pub open spec fn disadvantage_outcome(prog: Seq<Token>, r: Result<i32, InvalidExpressionError>) -> bool {
    exists|a: Result<i32, InvalidExpressionError>, b: Result<i32, InvalidExpressionError>|
        #[trigger] roll_outcome(prog, a) && #[trigger] roll_outcome(prog, b) && r == keep_lower(a, b)
}

/// An expression compiled once, to be evaluated any number of times.
pub struct Equation {
    compiled_equation: Vec<Token>,
}

impl View for Equation {
    type V = Seq<Token>;

    /// The compiled postfix program.
    closed spec fn view(&self) -> Seq<Token> {
        self.compiled_equation@
    }
}

impl Equation {
    /// Compiles an expression; fails on the first character outside the
    /// grammar, or on a literal too large for a `u32`.
    pub fn new(input: &str) -> (r: Result<Equation, InvalidExpressionError>)
        ensures
            match compile(input@) {
                Ok(p) => r is Ok && r->Ok_0@ == p,
                Err(e) => r == Err::<Equation, InvalidExpressionError>(e),
            },
    {
        match infix_to_postfix(input) {
            Ok(compiled_equation) => Ok(Equation { compiled_equation }),
            Err(e) => Err(e),
        }
    }

    /// One random outcome: every die is rolled.
    pub fn roll(&self) -> (r: Result<i32, InvalidExpressionError>)
        ensures
            roll_outcome(self@, r),
    {
        process(&self.compiled_equation, RollType::Default)
    }

    /// The result with every die at its average value.
    pub fn average(&self) -> (r: Result<i32, InvalidExpressionError>)
        ensures
            r == evaluation(self@, RollType::Average),
    {
        process(&self.compiled_equation, RollType::Average)
    }

    /// The results of `low` and `high`, as a pair.
    pub fn range(&self) -> (r: Result<(i32, i32), InvalidExpressionError>)
        ensures
            r == both(evaluation(self@, RollType::Low), evaluation(self@, RollType::High)),
    {
        let low = match self.low() {
            Ok(v) => v,
            Err(e) => return Err(e),
        };
        let high = match self.high() {
            Ok(v) => v,
            Err(e) => return Err(e),
        };
        Ok((low, high))
    }

    /// The result with every die at its lowest face.
    pub fn low(&self) -> (r: Result<i32, InvalidExpressionError>)
        ensures
            r == evaluation(self@, RollType::Low),
    {
        process(&self.compiled_equation, RollType::Low)
    }

    /// The result with every die at its highest face.
    pub fn high(&self) -> (r: Result<i32, InvalidExpressionError>)
        ensures
            r == evaluation(self@, RollType::High),
    {
        process(&self.compiled_equation, RollType::High)
    }

    /// Rolls twice and keeps the greater result.
    pub fn advantage(&self) -> (r: Result<i32, InvalidExpressionError>)
        ensures
            advantage_outcome(self@, r),
    {
        let first = self.roll();
        let second = self.roll();
        let r = match (first, second) {
            (Ok(a), Ok(b)) => Ok(if a >= b { a } else { b }),
            (Err(e), _) => Err(e),
            (Ok(_), Err(e)) => Err(e),
        };
        assert(roll_outcome(self@, first) && roll_outcome(self@, second) && r == keep_higher(first, second));
        r
    }

    /// Rolls twice and keeps the lesser result.
    pub fn disadvantage(&self) -> (r: Result<i32, InvalidExpressionError>)
        ensures
            disadvantage_outcome(self@, r),
    {
        let first = self.roll();
        let second = self.roll();
        let r = match (first, second) {
            (Ok(a), Ok(b)) => Ok(if a <= b { a } else { b }),
            (Err(e), _) => Err(e),
            (Ok(_), Err(e)) => Err(e),
        };
        assert(roll_outcome(self@, first) && roll_outcome(self@, second) && r == keep_lower(first, second));
        r
    }
}

} // verus!
