use crate::errors::InvalidExpressionError;
use crate::token::{operator_precedence, precedence, Die, Token};
use vstd::prelude::*;

verus! {

/// Whether `char::is_whitespace` holds of a character (Unicode's White_Space
/// property, a fixed table).
pub uninterp spec fn white_space(c: char) -> bool;

/// Relies on `char::is_whitespace`: the answer depends on the character alone.
#[verifier::external_body]
fn is_white_space(c: char) -> (r: bool)
    ensures
        r == white_space(c),
{
    c.is_whitespace()
}

/// The compiler's working state after some prefix of the input.
pub struct ScanState {
    /// The postfix program built so far.
    pub output: Seq<Token>,
    /// Operators (and `(` markers) waiting for their right-hand side.
    pub stack: Seq<Token>,
    /// The last output token is a literal whose digits are still being read.
    pub after_operand: bool,
    /// The last output token is a die whose `sides` digits are still being read.
    pub after_die: bool,
    /// The last character read was `)`.
    pub after_close: bool,
}

pub open spec fn initial_state() -> ScanState {
    ScanState {
        output: Seq::empty(),
        stack: Seq::empty(),
        after_operand: false,
        after_die: false,
        after_close: false,
    }
}

/// The two flags describe the last output token.
pub open spec fn state_wf(st: ScanState) -> bool {
    &&& st.after_operand ==> st.output.len() > 0 && st.output.last() is Operand
    &&& st.after_die ==> st.output.len() > 0 && st.output.last() is Dice
    &&& !(st.after_operand && st.after_die)
}

pub open spec fn is_digit(c: char) -> bool {
    '0' <= c && c <= '9'
}

pub open spec fn digit_value(c: char) -> int {
    c as int - '0' as int
}

/// Moves operators from the stack to the output while the top binds at least
/// as tightly as `prec`; `(` stops it.
pub open spec fn pop_while_tighter(output: Seq<Token>, stack: Seq<Token>, prec: int) -> (Seq<
    Token>, Seq<Token>)
    decreases stack.len(),
{
    if stack.len() == 0 || stack.last() is LeftParen || precedence(stack.last()) < prec {
        (output, stack)
    } else {
        pop_while_tighter(output.push(stack.last()), stack.drop_last(), prec)
    }
}

/// Moves operators from the stack to the output up to the nearest `(`, which
/// is discarded.
pub open spec fn pop_to_paren(output: Seq<Token>, stack: Seq<Token>) -> (Seq<Token>, Seq<Token>)
    decreases stack.len(),
{
    if stack.len() == 0 {
        (output, stack)
    } else if stack.last() is LeftParen {
        (output, stack.drop_last())
    } else {
        pop_to_paren(output.push(stack.last()), stack.drop_last())
    }
}

/// Moves every remaining stack entry to the output, top first.
pub open spec fn drain(output: Seq<Token>, stack: Seq<Token>) -> Seq<Token>
    decreases stack.len(),
{
    if stack.len() == 0 {
        output
    } else {
        drain(output.push(stack.last()), stack.drop_last())
    }
}

/// Pushes a binary operator after popping the tighter ones; a `+` or `-`
/// with no value before it (no literal, die or `)`) gets a `0` left operand.
pub open spec fn push_operator(st: ScanState, op: Token) -> ScanState {
    let unary = (op is Plus || op is Minus) && !st.after_operand && !st.after_die
        && !st.after_close;
    let out = if unary {
        st.output.push(Token::Operand(0))
    } else {
        st.output
    };
    let popped = pop_while_tighter(out, st.stack, precedence(op));
    ScanState {
        output: popped.0,
        stack: popped.1.push(op),
        after_operand: false,
        after_die: false,
        after_close: false,
    }
}

/// One decimal digit: extends the literal or the die sides being read, or
/// starts a new literal.
pub open spec fn scan_digit(st: ScanState, c: char) -> Result<ScanState, InvalidExpressionError> {
    let last = st.output.len() - 1;
    if st.after_operand {
        let v = st.output.last()->Operand_0 * 10 + digit_value(c);
        if v > u32::MAX {
            Err(InvalidExpressionError::Overflow)
        } else {
            Ok(ScanState { output: st.output.update(last, Token::Operand(v as u32)), ..st })
        }
    } else if st.after_die {
        let d = st.output.last()->Dice_0;
        let v = d.sides * 10 + digit_value(c);
        if v > u32::MAX {
            Err(InvalidExpressionError::Overflow)
        } else {
            Ok(
                ScanState {
                    output: st.output.update(last, Token::Dice(Die { number: d.number, sides: v as u32 })),
                    ..st
                },
            )
        }
    } else {
        Ok(
            ScanState {
                output: st.output.push(Token::Operand(digit_value(c) as u32)),
                after_operand: true,
                after_close: false,
                ..st
            },
        )
    }
}

/// `d`: the literal just read becomes the dice count, else one die.
pub open spec fn scan_dice(st: ScanState) -> ScanState {
    let out = if st.after_operand {
        st.output.drop_last().push(
            Token::Dice(Die { number: st.output.last()->Operand_0, sides: 0 }),
        )
    } else {
        st.output.push(Token::Dice(Die { number: 1, sides: 0 }))
    };
    ScanState { output: out, after_operand: false, after_die: true, after_close: false, ..st }
}

/// `(`: right after a value it also pushes an implicit `*`.
pub open spec fn scan_open(st: ScanState) -> ScanState {
    let stack = if st.after_operand || st.after_die {
        st.stack.push(Token::Times)
    } else {
        st.stack
    };
    ScanState {
        output: st.output,
        stack: stack.push(Token::LeftParen),
        after_operand: false,
        after_die: false,
        after_close: false,
    }
}

pub open spec fn scan_close(st: ScanState) -> ScanState {
    let popped = pop_to_paren(st.output, st.stack);
    ScanState {
        output: popped.0,
        stack: popped.1,
        after_operand: false,
        after_die: false,
        after_close: true,
    }
}

/// The effect of one input character.
pub open spec fn scan_char(st: ScanState, c: char) -> Result<ScanState, InvalidExpressionError> {
    if white_space(c) {
        Ok(st)
    } else if is_digit(c) {
        scan_digit(st, c)
    } else if c == '(' {
        Ok(scan_open(st))
    } else if c == ')' {
        Ok(scan_close(st))
    } else if c == '+' {
        Ok(push_operator(st, Token::Plus))
    } else if c == '-' {
        Ok(push_operator(st, Token::Minus))
    } else if c == '*' {
        Ok(push_operator(st, Token::Times))
    } else if c == '/' {
        Ok(push_operator(st, Token::Divide))
    } else if c == '^' {
        Ok(push_operator(st, Token::Exponent))
    } else if c == 'd' {
        Ok(scan_dice(st))
    } else {
        Err(InvalidExpressionError::InvalidToken(c))
    }
}

/// The state after scanning `s` from the left; the first failing character
/// decides the error.
pub open spec fn scan(s: Seq<char>) -> Result<ScanState, InvalidExpressionError>
    decreases s.len(),
{
    if s.len() == 0 {
        Ok(initial_state())
    } else {
        match scan(s.drop_last()) {
            Ok(st) => scan_char(st, s.last()),
            Err(e) => Err(e),
        }
    }
}

/// The postfix program for an expression.
pub open spec fn compile(s: Seq<char>) -> Result<Seq<Token>, InvalidExpressionError> {
    match scan(s) {
        Ok(st) => Ok(drain(st.output, st.stack)),
        Err(e) => Err(e),
    }
}

/// Every state the scan reaches is well formed.
pub proof fn lemma_scan_wf(s: Seq<char>)
    requires
        scan(s) is Ok,
    ensures
        state_wf(scan(s)->Ok_0),
    decreases s.len(),
{
    if s.len() > 0 {
        lemma_scan_wf(s.drop_last());
    }
}

/// Once a prefix fails, the whole input fails with the same error.
pub proof fn lemma_scan_error_sticks(s: Seq<char>, k: int)
    requires
        0 <= k <= s.len(),
        scan(s.take(k)) is Err,
    ensures
        scan(s) == scan(s.take(k)),
    decreases s.len() - k,
{
    if k < s.len() {
        assert(s.take(k + 1).drop_last() == s.take(k));
        lemma_scan_error_sticks(s, k + 1);
    } else {
        assert(s.take(k) == s);
    }
}

/// Pops into `output` while the stack's top binds at least as tightly as `prec`.
fn pop_tighter(output: &mut Vec<Token>, stack: &mut Vec<Token>, prec: i32)
    ensures
        (final(output)@, final(stack)@) == pop_while_tighter(old(output)@, old(stack)@, prec as int),
{
    loop
        invariant
            pop_while_tighter(output@, stack@, prec as int) == pop_while_tighter(
                old(output)@,
                old(stack)@,
                prec as int,
            ),
        decreases stack.len(),
    {
        if stack.len() == 0 {
            return;
        }
        let top = stack[stack.len() - 1];
        if matches!(top, Token::LeftParen) || operator_precedence(top) < prec {
            return;
        }
        let t = stack.pop().unwrap();
        output.push(t);
    }
}

/// Translates an infix expression into a postfix program.
pub fn infix_to_postfix(input: &str) -> (r: Result<Vec<Token>, InvalidExpressionError>)
    ensures
        match compile(input@) {
            Ok(p) => r is Ok && r->Ok_0@ == p,
            Err(e) => r == Err::<Vec<Token>, InvalidExpressionError>(e),
        },
{
    let n = input.unicode_len();
    let mut output: Vec<Token> = Vec::new();
    let mut stack: Vec<Token> = Vec::new();
    let mut after_operand = false;
    let mut after_die = false;
    let mut after_close = false;
    let mut i: usize = 0;
    while i < n
        invariant
            n == input@.len(),
            i <= n,
            scan(input@.take(i as int)) == Ok::<ScanState, InvalidExpressionError>(
                ScanState { output: output@, stack: stack@, after_operand, after_die, after_close },
            ),
            state_wf(ScanState { output: output@, stack: stack@, after_operand, after_die, after_close }),
        decreases n - i,
    {
        let c = input.get_char(i);
        let ghost st = ScanState { output: output@, stack: stack@, after_operand, after_die, after_close };
        assert(input@.take(i + 1).drop_last() == input@.take(i as int));
        if is_white_space(c) {
        } else if '0' <= c && c <= '9' {
            let digit = (c as u32) - ('0' as u32);
            if after_operand {
                let last = output.len() - 1;
                if let Token::Operand(v) = output[last] {
                    if v > (u32::MAX - digit) / 10 {
                        proof {
                            lemma_scan_error_sticks(input@, i + 1);
                        }
                        return Err(InvalidExpressionError::Overflow);
                    }
                    output.set(last, Token::Operand(v * 10 + digit));
                }
            } else if after_die {
                let last = output.len() - 1;
                if let Token::Dice(d) = output[last] {
                    if d.sides > (u32::MAX - digit) / 10 {
                        proof {
                            lemma_scan_error_sticks(input@, i + 1);
                        }
                        return Err(InvalidExpressionError::Overflow);
                    }
                    output.set(last, Token::Dice(Die { number: d.number, sides: d.sides * 10 + digit }));
                }
            } else {
                output.push(Token::Operand(digit));
                after_operand = true;
                after_close = false;
            }
        } else if c == '(' {
            if after_operand || after_die {
                stack.push(Token::Times);
            }
            stack.push(Token::LeftParen);
            after_operand = false;
            after_die = false;
            after_close = false;
        } else if c == ')' {
            loop
                invariant_except_break
                    pop_to_paren(output@, stack@) == pop_to_paren(st.output, st.stack),
                ensures
                    (output@, stack@) == pop_to_paren(st.output, st.stack),
                decreases stack.len(),
            {
                match stack.pop() {
                    None => break,
                    Some(Token::LeftParen) => break,
                    Some(t) => output.push(t),
                }
            }
            after_operand = false;
            after_die = false;
            after_close = true;
        } else if c == '+' || c == '-' || c == '*' || c == '/' || c == '^' {
            let op = if c == '+' {
                Token::Plus
            } else if c == '-' {
                Token::Minus
            } else if c == '*' {
                Token::Times
            } else if c == '/' {
                Token::Divide
            } else {
                Token::Exponent
            };
            if (c == '+' || c == '-') && !after_operand && !after_die && !after_close {
                output.push(Token::Operand(0));
            }
            pop_tighter(&mut output, &mut stack, operator_precedence(op));
            stack.push(op);
            after_operand = false;
            after_die = false;
            after_close = false;
        } else if c == 'd' {
            if after_operand {
                if let Some(Token::Operand(count)) = output.pop() {
                    output.push(Token::Dice(Die { number: count, sides: 0 }));
                }
            } else {
                output.push(Token::Dice(Die { number: 1, sides: 0 }));
            }
            after_operand = false;
            after_die = true;
            after_close = false;
        } else {
            proof {
                lemma_scan_error_sticks(input@, i + 1);
            }
            return Err(InvalidExpressionError::InvalidToken(c));
        }
        assert(scan(input@.take(i + 1)) == scan_char(st, c));
        assert(scan_char(st, c) == Ok::<ScanState, InvalidExpressionError>(
            ScanState { output: output@, stack: stack@, after_operand, after_die, after_close },
        ));
        i = i + 1;
    }
    assert(input@.take(n as int) == input@);
    let ghost done = ScanState { output: output@, stack: stack@, after_operand, after_die, after_close };
    while stack.len() > 0
        invariant
            drain(output@, stack@) == drain(done.output, done.stack),
        decreases stack.len(),
    {
        let t = stack.pop().unwrap();
        output.push(t);
    }
    Ok(output)
}

} // verus!
