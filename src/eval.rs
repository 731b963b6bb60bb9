use crate::errors::InvalidExpressionError;
use crate::token::{Die, RollType, Token};
use rand::Rng;
use vstd::prelude::*;

verus! {

pub open spec fn fits_i32(x: int) -> bool {
    i32::MIN <= x && x <= i32::MAX
}

pub open spec fn magnitude(x: int) -> int {
    if x < 0 {
        -x
    } else {
        x
    }
}

/// A die whose count and largest total both fit an `i32`; any other die is
/// an overflow.
pub open spec fn die_fits(d: Die) -> bool {
    d.number <= i32::MAX && d.number * d.sides <= i32::MAX
}

/// The value a die takes under a policy that does not roll.
pub open spec fn fixed_value(d: Die, policy: RollType) -> int {
    match policy {
        RollType::Low => d.number as int,
        RollType::High => d.number * d.sides,
        RollType::Average => d.number * (d.sides + 1) / 2,
        RollType::Default => 0,
    }
}

/// The totals a random roll of `d` can give: one to `sides` points per die,
/// and nothing from a die without faces.
pub open spec fn roll_in_range(d: Die, v: int) -> bool {
    if d.number == 0 || d.sides == 0 {
        v == 0
    } else {
        d.number <= v && v <= d.number * d.sides
    }
}

/// The value of each token of `prog` under a policy that does not roll
/// (only the entries of fitting dice are ever read).
pub open spec fn fixed_values(prog: Seq<Token>, policy: RollType) -> Seq<i32> {
    Seq::new(
        prog.len(),
        |i: int|
            match prog[i] {
                Token::Dice(d) => if die_fits(d) {
                    fixed_value(d, policy) as i32
                } else {
                    0
                },
                _ => 0,
            },
    )
}

/// `vals` holds a possible random roll for each fitting die of `prog`.
pub open spec fn rolled_values(prog: Seq<Token>, vals: Seq<i32>) -> bool {
    &&& vals.len() == prog.len()
    &&& forall|i: int|
        0 <= i < prog.len() && #[trigger] prog[i] is Dice && die_fits(prog[i]->Dice_0)
            ==> roll_in_range(prog[i]->Dice_0, vals[i] as int)
}

/// Integer division rounding toward zero.
pub open spec fn trunc_div(a: int, b: int) -> int {
    let q = magnitude(a) / magnitude(b);
    if (a < 0) == (b < 0) {
        q
    } else {
        -q
    }
}

pub open spec fn pow(b: int, e: nat) -> int
    decreases e,
{
    if e == 0 {
        1
    } else {
        b * pow(b, (e - 1) as nat)
    }
}

/// `b` to the power `e`; an exponent below one gives one.
pub open spec fn power(b: int, e: int) -> int {
    if e <= 0 {
        1
    } else {
        pow(b, e as nat)
    }
}

/// A binary operator applied to its left and right operands.
pub open spec fn combine(op: Token, l: int, r: int) -> Result<int, InvalidExpressionError> {
    let v = match op {
        Token::Plus => l + r,
        Token::Minus => l - r,
        Token::Times => l * r,
        Token::Divide => trunc_div(l, r),
        _ => power(l, r),
    };
    if op is Divide && r == 0 {
        Err(InvalidExpressionError::DivideByZero)
    } else if fits_i32(v) {
        Ok(v)
    } else {
        Err(InvalidExpressionError::Overflow)
    }
}

pub open spec fn is_binary(t: Token) -> bool {
    t is Plus || t is Minus || t is Times || t is Divide || t is Exponent
}

/// One token executed on the value stack; `v` is the value a die takes.
pub open spec fn step(stack: Seq<i32>, t: Token, v: i32) -> Result<Seq<i32>, InvalidExpressionError> {
    match t {
        Token::Operand(x) => if x <= i32::MAX {
            Ok(stack.push(x as i32))
        } else {
            Err(InvalidExpressionError::Overflow)
        },
        Token::Dice(d) => if die_fits(d) {
            Ok(stack.push(v))
        } else {
            Err(InvalidExpressionError::Overflow)
        },
        Token::LeftParen => Ok(stack),
        _ => if stack.len() < 2 {
            Err(InvalidExpressionError::InvalidExpression)
        } else {
            let n = stack.len();
            match combine(t, stack[n - 2] as int, stack[n - 1] as int) {
                Ok(x) => Ok(stack.take(n - 2).push(x as i32)),
                Err(e) => Err(e),
            }
        },
    }
}

/// The value stack after running `prog`, token `i` reading `vals[i]`.
pub open spec fn run_stack(prog: Seq<Token>, vals: Seq<i32>) -> Result<
    Seq<i32>,
    InvalidExpressionError,
>
    decreases prog.len(),
{
    if prog.len() == 0 {
        Ok(Seq::empty())
    } else {
        match run_stack(prog.drop_last(), vals) {
            Ok(s) => step(s, prog.last(), vals[prog.len() - 1]),
            Err(e) => Err(e),
        }
    }
}

/// The result of running `prog`: the one value left on the stack.
pub open spec fn run(prog: Seq<Token>, vals: Seq<i32>) -> Result<i32, InvalidExpressionError> {
    match run_stack(prog, vals) {
        Ok(s) => if s.len() == 1 {
            Ok(s[0])
        } else {
            Err(InvalidExpressionError::InvalidExpression)
        },
        Err(e) => Err(e),
    }
}

/// The result of `prog` under a policy that does not roll.
pub open spec fn evaluation(prog: Seq<Token>, policy: RollType) -> Result<i32, InvalidExpressionError> {
    run(prog, fixed_values(prog, policy))
}

/// `r` is a possible result of `prog` with every die rolled.
pub open spec fn roll_outcome(prog: Seq<Token>, r: Result<i32, InvalidExpressionError>) -> bool {
    exists|vals: Seq<i32>| #[trigger] rolled_values(prog, vals) && run(prog, vals) == r
}

/// Once a prefix of the program fails, the whole run fails with that error.
pub proof fn lemma_run_error_sticks(prog: Seq<Token>, vals: Seq<i32>, k: int)
    requires
        0 <= k <= prog.len(),
        run_stack(prog.take(k), vals) is Err,
    ensures
        run_stack(prog, vals) == run_stack(prog.take(k), vals),
    decreases prog.len() - k,
{
    if k < prog.len() {
        assert(prog.take(k + 1).drop_last() == prog.take(k));
        lemma_run_error_sticks(prog, vals, k + 1);
    } else {
        assert(prog.take(k) == prog);
    }
}

proof fn lemma_pow_trivial_bases(b: int, e: nat)
    requires
        e >= 1,
    ensures
        b == 0 ==> pow(b, e) == 0,
        b == 1 ==> pow(b, e) == 1,
        b == -1 ==> pow(b, e) == if e % 2 == 0 {
            1int
        } else {
            -1int
        },
    decreases e,
{
    assert(pow(b, e) == b * pow(b, (e - 1) as nat));
    if e > 1 {
        lemma_pow_trivial_bases(b, (e - 1) as nat);
        if e % 2 == 0 {
            assert((e - 1) as nat % 2 == 1);
        } else {
            assert((e - 1) as nat % 2 == 0);
        }
    } else {
        assert(pow(b, 0) == 1);
    }
}

/// Past the base's magnitude 2, each further factor at least doubles the magnitude.
proof fn lemma_pow_grows(b: int, k: nat, e: nat)
    requires
        magnitude(b) >= 2,
        k < e,
    ensures
        magnitude(pow(b, e)) >= 2 * magnitude(pow(b, k)),
    decreases e,
{
    let p = pow(b, (e - 1) as nat);
    assert(magnitude(b * p) == magnitude(b) * magnitude(p)) by (nonlinear_arith);
    assert(magnitude(b) * magnitude(p) >= 2 * magnitude(p)) by (nonlinear_arith)
        requires
            magnitude(b) >= 2,
            magnitude(p) >= 0,
    ;
    if k + 1 < e {
        lemma_pow_grows(b, k, (e - 1) as nat);
    }
}

/// `b` to the power `e`, or `None` where that does not fit an `i32`.
fn checked_power(b: i32, e: i32) -> (r: Option<i32>)
    ensures
        r matches Some(x) ==> x == power(b as int, e as int),
        r is None <==> !fits_i32(power(b as int, e as int)),
{
    if e <= 0 {
        return Some(1);
    }
    proof {
        lemma_pow_trivial_bases(b as int, e as nat);
    }
    if b == 0 {
        return Some(0);
    }
    if b == 1 {
        return Some(1);
    }
    if b == -1 {
        return Some(if e % 2 == 0 { 1 } else { -1 });
    }
    let mut acc: i32 = 1;
    let mut k: i32 = 0;
    while k < e
        invariant
            0 <= k <= e,
            magnitude(b as int) >= 2,
            acc as int == pow(b as int, k as nat),
        decreases e - k,
    {
        assert(magnitude(b as int * acc as int) <= 0x4000_0000_0000_0000) by (nonlinear_arith)
            requires
                fits_i32(acc as int),
                fits_i32(b as int),
        ;
        let next = (b as i64) * (acc as i64);
        assert(pow(b as int, (k + 1) as nat) == b as int * pow(b as int, k as nat));
        if next < i32::MIN as i64 || next > i32::MAX as i64 {
            proof {
                if k + 1 < e {
                    lemma_pow_grows(b as int, (k + 1) as nat, e as nat);
                }
            }
            return None;
        }
        acc = next as i32;
        k = k + 1;
    }
    Some(acc)
}

/// Magnitude of an `i32` as an `i64`.
fn magnitude_of(x: i32) -> (r: i64)
    ensures
        r == magnitude(x as int),
{
    if x < 0 {
        -(x as i64)
    } else {
        x as i64
    }
}

/// A binary operator applied to two stack values.
fn combine_values(op: Token, l: i32, r: i32) -> (res: Result<i32, InvalidExpressionError>)
    requires
        is_binary(op),
    ensures
        res == (match combine(op, l as int, r as int) {
            Ok(v) => Ok(v as i32),
            Err(e) => Err(e),
        }),
{
    let v: i64 = match op {
        Token::Plus => l as i64 + r as i64,
        Token::Minus => l as i64 - r as i64,
        Token::Times => {
            assert(magnitude(l as int * r as int) <= 0x4000_0000_0000_0000) by (nonlinear_arith)
                requires
                    fits_i32(l as int),
                    fits_i32(r as int),
            ;
            l as i64 * r as i64
        },
        Token::Divide => {
            if r == 0 {
                return Err(InvalidExpressionError::DivideByZero);
            }
            let q = (magnitude_of(l) as u64 / magnitude_of(r) as u64) as i64;
            if (l < 0) == (r < 0) {
                q
            } else {
                -q
            }
        },
        _ => match checked_power(l, r) {
            Some(x) => x as i64,
            None => return Err(InvalidExpressionError::Overflow),
        },
    };
    if v < i32::MIN as i64 || v > i32::MAX as i64 {
        return Err(InvalidExpressionError::Overflow);
    }
    Ok(v as i32)
}

fn fits(d: Die) -> (r: bool)
    ensures
        r == die_fits(d),
{
    assert(d.number * d.sides <= 0xffff_ffff * 0xffff_ffff) by (nonlinear_arith)
        requires
            d.number <= 0xffff_ffff,
            d.sides <= 0xffff_ffff,
    ;
    d.number <= i32::MAX as u32 && d.number as u64 * d.sides as u64 <= i32::MAX as u64
}

/// Runs a compiled program, token `i` taking `values[i]` where it is a die.
pub fn evaluate(program: &Vec<Token>, values: &Vec<i32>) -> (r: Result<i32, InvalidExpressionError>)
    requires
        values.len() == program.len(),
    ensures
        r == run(program@, values@),
{
    let mut stack: Vec<i32> = Vec::new();
    let mut i: usize = 0;
    while i < program.len()
        invariant
            i <= program.len(),
            values.len() == program.len(),
            run_stack(program@.take(i as int), values@) == Ok::<Seq<i32>, InvalidExpressionError>(
                stack@,
            ),
        decreases program.len() - i,
    {
        let ghost before = stack@;
        assert(program@.take(i + 1).drop_last() == program@.take(i as int));
        match program[i] {
            Token::Operand(x) => {
                if x > i32::MAX as u32 {
                    proof {
                        lemma_run_error_sticks(program@, values@, i + 1);
                    }
                    return Err(InvalidExpressionError::Overflow);
                }
                stack.push(x as i32);
            },
            Token::Dice(d) => {
                if !fits(d) {
                    proof {
                        lemma_run_error_sticks(program@, values@, i + 1);
                    }
                    return Err(InvalidExpressionError::Overflow);
                }
                stack.push(values[i]);
            },
            Token::LeftParen => {},
            op => {
                if stack.len() < 2 {
                    proof {
                        lemma_run_error_sticks(program@, values@, i + 1);
                    }
                    return Err(InvalidExpressionError::InvalidExpression);
                }
                let rhs = stack.pop().unwrap();
                let lhs = stack.pop().unwrap();
                assert(stack@ == before.take(before.len() - 2));
                match combine_values(op, lhs, rhs) {
                    Ok(v) => stack.push(v),
                    Err(e) => {
                        proof {
                            lemma_run_error_sticks(program@, values@, i + 1);
                        }
                        return Err(e);
                    },
                }
            },
        }
        i = i + 1;
    }
    assert(program@.take(program.len() as int) == program@);
    if stack.len() != 1 {
        return Err(InvalidExpressionError::InvalidExpression);
    }
    Ok(stack[0])
}

/// Relies on `rand::thread_rng` and `Rng::gen_range`: a value drawn from
/// `1..=sides`, a range that is not empty for `sides >= 1`.
#[verifier::external_body]
fn draw_face(sides: u32) -> (r: u32)
    requires
        sides >= 1,
    ensures
        1 <= r <= sides,
{
    rand::thread_rng().gen_range(1..=sides)
}

/// The value a fitting die takes under `policy`; `Default` rolls it.
fn die_value(d: Die, policy: RollType) -> (v: i32)
    requires
        die_fits(d),
    ensures
        policy is Default ==> roll_in_range(d, v as int),
        !(policy is Default) ==> v as int == fixed_value(d, policy),
{
    match policy {
        RollType::Low => d.number as i32,
        RollType::High => {
            assert(d.number * d.sides <= 0xffff_ffff * 0xffff_ffff) by (nonlinear_arith)
                requires
                    d.number <= 0xffff_ffff,
                    d.sides <= 0xffff_ffff,
            ;
            (d.number as u64 * d.sides as u64) as i32
        },
        RollType::Average => {
            assert(d.number * (d.sides + 1) == d.number * d.sides + d.number) by (nonlinear_arith);
            assert(d.number * d.sides <= 0xffff_ffff * 0xffff_ffff) by (nonlinear_arith)
                requires
                    d.number <= 0xffff_ffff,
                    d.sides <= 0xffff_ffff,
            ;
            ((d.number as u64 * (d.sides as u64 + 1)) / 2) as i32
        },
        RollType::Default => {
            if d.number == 0 || d.sides == 0 {
                return 0;
            }
            assert(d.sides <= d.number * d.sides) by (nonlinear_arith)
                requires
                    d.number >= 1,
            ;
            let mut total: i32 = 0;
            let mut k: u32 = 0;
            while k < d.number
                invariant
                    die_fits(d),
                    d.sides >= 1,
                    d.sides <= i32::MAX,
                    k <= d.number,
                    k <= total,
                    total <= k * d.sides,
                decreases d.number - k,
            {
                let face = draw_face(d.sides);
                assert((k + 1) * d.sides <= d.number * d.sides) by (nonlinear_arith)
                    requires
                        k + 1 <= d.number,
                ;
                assert((k + 1) * d.sides == k * d.sides + d.sides) by (nonlinear_arith);
                total = total + face as i32;
                k = k + 1;
            }
            total
        },
    }
}

/// The value of each token of `program` under `policy`.
fn dice_values(program: &Vec<Token>, policy: RollType) -> (vals: Vec<i32>)
    ensures
        policy is Default ==> rolled_values(program@, vals@),
        !(policy is Default) ==> vals@ == fixed_values(program@, policy),
{
    let mut vals: Vec<i32> = Vec::new();
    let mut i: usize = 0;
    while i < program.len()
        invariant
            i <= program.len(),
            vals.len() == i,
            forall|j: int|
                0 <= j < i && #[trigger] program@[j] is Dice && die_fits(program@[j]->Dice_0)
                    ==> (if policy is Default {
                    roll_in_range(program@[j]->Dice_0, vals@[j] as int)
                } else {
                    vals@[j] as int == fixed_value(program@[j]->Dice_0, policy)
                }),
            !(policy is Default) ==> forall|j: int|
                0 <= j < i ==> #[trigger] vals@[j] == fixed_values(program@, policy)[j],
        decreases program.len() - i,
    {
        let v = match program[i] {
            Token::Dice(d) => {
                if !fits(d) {
                    0
                } else {
                    die_value(d, policy)
                }
            },
            _ => 0,
        };
        vals.push(v);
        i = i + 1;
    }
    proof {
        if !(policy is Default) {
            assert(vals@ == fixed_values(program@, policy));
        }
    }
    vals
}

/// Runs a compiled program under `policy`: every die is rolled under
/// `Default`, and takes its fixed value otherwise.
pub fn process(program: &Vec<Token>, policy: RollType) -> (r: Result<i32, InvalidExpressionError>)
    ensures
        policy is Default ==> roll_outcome(program@, r),
        !(policy is Default) ==> r == evaluation(program@, policy),
{
    let vals = dice_values(program, policy);
    let r = evaluate(program, &vals);
    proof {
        if policy is Default {
            assert(rolled_values(program@, vals@) && run(program@, vals@) == r);
        }
    }
    r
}

} // verus!
