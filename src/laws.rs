//! General properties of compilation and evaluation, proved over the models.
use crate::compile::{
    compile, drain, is_digit, lemma_scan_error_sticks, lemma_scan_wf, pop_to_paren, pop_while_tighter, scan,
    scan_char, white_space,
};
use crate::equation::both;
use crate::errors::InvalidExpressionError;
use crate::eval::{
    die_fits, evaluation, lemma_run_error_sticks, roll_in_range, roll_outcome, rolled_values, run,
    combine, fixed_value, fixed_values, run_stack,
};
use crate::token::{Die, RollType, Token};
use vstd::prelude::*;

verus! {

/// The characters the grammar accepts besides white space.
pub open spec fn in_grammar(c: char) -> bool {
    is_digit(c) || c == '(' || c == ')' || c == '+' || c == '-' || c == '*' || c == '/' || c
        == '^' || c == 'd'
}

/// A division whose right-hand operand is zero makes the whole evaluation
/// fail with `DivideByZero`, whatever follows it.
pub proof fn law_divide_by_zero(prog: Seq<Token>, vals: Seq<i32>, k: int)
    requires
        0 <= k < prog.len(),
        prog[k] is Divide,
        run_stack(prog.take(k), vals) is Ok,
        run_stack(prog.take(k), vals)->Ok_0.len() >= 2,
        run_stack(prog.take(k), vals)->Ok_0.last() == 0,
    ensures
        run(prog, vals) == Err::<i32, InvalidExpressionError>(InvalidExpressionError::DivideByZero),
{
    assert(prog.take(k + 1).drop_last() == prog.take(k));
    assert(prog.take(k + 1).last() == prog[k]);
    lemma_run_error_sticks(prog, vals, k + 1);
}

/// The first character that is neither white space nor in the grammar makes
/// compilation fail with `InvalidToken` of that character, provided the text
/// before it compiles.
pub proof fn law_first_invalid_character(s: Seq<char>, k: int)
    requires
        0 <= k < s.len(),
        scan(s.take(k)) is Ok,
        !white_space(s[k]),
        !in_grammar(s[k]),
    ensures
        compile(s) == Err::<Seq<Token>, InvalidExpressionError>(
            InvalidExpressionError::InvalidToken(s[k]),
        ),
{
    assert(s.take(k + 1).drop_last() == s.take(k));
    assert(s.take(k + 1).last() == s[k]);
    lemma_scan_error_sticks(s, k + 1);
}

/// `range` yields `low` and `high` together: the pair exactly when both
/// succeed, and otherwise the first of their errors.
pub proof fn law_range_is_low_and_high(prog: Seq<Token>)
    ensures
        both(evaluation(prog, RollType::Low), evaluation(prog, RollType::High)) matches Ok((l, h))
            ==> evaluation(prog, RollType::Low) == Ok::<i32, InvalidExpressionError>(l)
            && evaluation(prog, RollType::High) == Ok::<i32, InvalidExpressionError>(h),
        evaluation(prog, RollType::Low) is Err ==> both(
            evaluation(prog, RollType::Low),
            evaluation(prog, RollType::High),
        ) == Err::<(i32, i32), InvalidExpressionError>(evaluation(prog, RollType::Low)->Err_0),
        evaluation(prog, RollType::Low) is Ok && evaluation(prog, RollType::High) is Err ==> both(
            evaluation(prog, RollType::Low),
            evaluation(prog, RollType::High),
        ) == Err::<(i32, i32), InvalidExpressionError>(evaluation(prog, RollType::High)->Err_0),
{
}

/// A roll of a single die term `NdM` (with `M >= 1` and `N * M` within
/// `i32`) lies in `[N, N * M]`.
pub proof fn law_single_die_roll_in_range(d: Die, r: Result<i32, InvalidExpressionError>)
    requires
        d.sides >= 1,
        die_fits(d),
        roll_outcome(seq![Token::Dice(d)], r),
    ensures
        r is Ok,
        d.number <= r->Ok_0 <= d.number * d.sides,
{
    let prog = seq![Token::Dice(d)];
    let vals = choose|vals: Seq<i32>| #[trigger] rolled_values(prog, vals) && run(prog, vals) == r;
    assert(prog.drop_last() =~= Seq::<Token>::empty());
    assert(prog[0] is Dice);
    assert(roll_in_range(d, vals[0] as int));
    assert(run_stack(prog.drop_last(), vals) == Ok::<Seq<i32>, InvalidExpressionError>(Seq::empty()));
    assert(run_stack(prog, vals) == Ok::<Seq<i32>, InvalidExpressionError>(seq![vals[0]]));
    if d.number == 0 {
        assert(d.number * d.sides == 0) by (nonlinear_arith)
            requires
                d.number == 0,
        ;
    }
}

pub open spec fn no_dice(p: Seq<Token>) -> bool {
    forall|i: int| 0 <= i < p.len() ==> !(#[trigger] p[i] is Dice)
}

proof fn lemma_pop_tighter_no_dice(output: Seq<Token>, stack: Seq<Token>, prec: int)
    requires
        no_dice(output),
        no_dice(stack),
    ensures
        no_dice(pop_while_tighter(output, stack, prec).0),
        no_dice(pop_while_tighter(output, stack, prec).1),
    decreases stack.len(),
{
    if !(stack.len() == 0 || stack.last() is LeftParen
        || crate::token::precedence(stack.last()) < prec) {
        assert(no_dice(output.push(stack.last())));
        assert(no_dice(stack.drop_last()));
        lemma_pop_tighter_no_dice(output.push(stack.last()), stack.drop_last(), prec);
    }
}

proof fn lemma_pop_to_paren_no_dice(output: Seq<Token>, stack: Seq<Token>)
    requires
        no_dice(output),
        no_dice(stack),
    ensures
        no_dice(pop_to_paren(output, stack).0),
        no_dice(pop_to_paren(output, stack).1),
    decreases stack.len(),
{
    if stack.len() > 0 {
        assert(no_dice(output.push(stack.last())));
        assert(no_dice(stack.drop_last()));
        if !(stack.last() is LeftParen) {
            lemma_pop_to_paren_no_dice(output.push(stack.last()), stack.drop_last());
        }
    }
}

proof fn lemma_drain_no_dice(output: Seq<Token>, stack: Seq<Token>)
    requires
        no_dice(output),
        no_dice(stack),
    ensures
        no_dice(drain(output, stack)),
    decreases stack.len(),
{
    if stack.len() > 0 {
        assert(no_dice(output.push(stack.last())));
        assert(no_dice(stack.drop_last()));
        lemma_drain_no_dice(output.push(stack.last()), stack.drop_last());
    }
}

/// Text without `d` compiles to a program without dice.
proof fn lemma_scan_no_dice(s: Seq<char>)
    requires
        forall|i: int| 0 <= i < s.len() ==> s[i] != 'd',
        scan(s) is Ok,
    ensures
        no_dice(scan(s)->Ok_0.output),
        no_dice(scan(s)->Ok_0.stack),
        !scan(s)->Ok_0.after_die,
    decreases s.len(),
{
    if s.len() > 0 {
        let pre = s.drop_last();
        lemma_scan_no_dice(pre);
        lemma_scan_wf(pre);
        let st = scan(pre)->Ok_0;
        let c = s.last();
        assert(c == s[s.len() - 1]);
        let out = if (c == '+' || c == '-') && !st.after_operand && !st.after_die
            && !st.after_close {
            st.output.push(Token::Operand(0))
        } else {
            st.output
        };
        assert(no_dice(out));
        assert(no_dice(st.output.push(Token::Operand(0))));
        lemma_pop_tighter_no_dice(out, st.stack, crate::token::precedence(Token::Plus));
        lemma_pop_tighter_no_dice(out, st.stack, crate::token::precedence(Token::Times));
        lemma_pop_tighter_no_dice(out, st.stack, crate::token::precedence(Token::Exponent));
        lemma_pop_to_paren_no_dice(st.output, st.stack);
        let next = scan_char(st, c)->Ok_0;
        if is_digit(c) && st.after_operand {
            let last = st.output.len() - 1;
            assert forall|i: int| 0 <= i < next.output.len() implies !(#[trigger] next.output[i] is Dice) by {
                if i != last {
                    assert(next.output[i] == st.output[i]);
                }
            }
        }
        assert(no_dice(st.stack.push(Token::Times)));
        assert(no_dice(st.stack.push(Token::LeftParen)));
        assert(no_dice(st.stack.push(Token::Times).push(Token::LeftParen)));
        assert(no_dice(pop_while_tighter(out, st.stack, 1).1.push(Token::Plus)));
        assert(no_dice(pop_while_tighter(out, st.stack, 1).1.push(Token::Minus)));
        assert(no_dice(pop_while_tighter(out, st.stack, 2).1.push(Token::Times)));
        assert(no_dice(pop_while_tighter(out, st.stack, 2).1.push(Token::Divide)));
        assert(no_dice(pop_while_tighter(out, st.stack, 3).1.push(Token::Exponent)));
    }
}

/// Without dice the values handed to the dice are never read.
proof fn lemma_run_ignores_values(prog: Seq<Token>, v1: Seq<i32>, v2: Seq<i32>)
    requires
        no_dice(prog),
    ensures
        run_stack(prog, v1) == run_stack(prog, v2),
    decreases prog.len(),
{
    if prog.len() > 0 {
        assert(no_dice(prog.drop_last()));
        lemma_run_ignores_values(prog.drop_last(), v1, v2);
        assert(!(prog[prog.len() - 1] is Dice));
    }
}

/// An expression written without dice notation gives the same result when
/// rolled and under the average, low and high policies.
pub proof fn law_no_dice_same_result(s: Seq<char>, r: Result<i32, InvalidExpressionError>)
    requires
        forall|i: int| 0 <= i < s.len() ==> s[i] != 'd',
        compile(s) is Ok,
        roll_outcome(compile(s)->Ok_0, r),
    ensures
        r == evaluation(compile(s)->Ok_0, RollType::Low),
        r == evaluation(compile(s)->Ok_0, RollType::Average),
        r == evaluation(compile(s)->Ok_0, RollType::High),
{
    let prog = compile(s)->Ok_0;
    lemma_scan_no_dice(s);
    lemma_drain_no_dice(scan(s)->Ok_0.output, scan(s)->Ok_0.stack);
    let vals = choose|vals: Seq<i32>| #[trigger] rolled_values(prog, vals) && run(prog, vals) == r;
    lemma_run_ignores_values(prog, vals, crate::eval::fixed_values(prog, RollType::Low));
    lemma_run_ignores_values(prog, vals, crate::eval::fixed_values(prog, RollType::Average));
    lemma_run_ignores_values(prog, vals, crate::eval::fixed_values(prog, RollType::High));
}

/// Programs of literals, dice with at least one face, `+` and `*`: every
/// value in them only grows with the dice.
pub open spec fn additive_program(p: Seq<Token>) -> bool {
    forall|i: int|
        0 <= i < p.len() ==> match #[trigger] p[i] {
            Token::Operand(_) | Token::Plus | Token::Times => true,
            Token::Dice(d) => d.sides >= 1,
            _ => false,
        }
}

/// Every fitting die takes a non-negative value in `lo` no greater than in `hi`.
pub open spec fn dice_bounded(p: Seq<Token>, lo: Seq<i32>, hi: Seq<i32>) -> bool {
    forall|i: int|
        0 <= i < p.len() && #[trigger] p[i] is Dice && die_fits(p[i]->Dice_0) ==> 0 <= lo[i]
            <= hi[i]
}

proof fn lemma_monotone(p: Seq<Token>, lo: Seq<i32>, hi: Seq<i32>)
    requires
        additive_program(p),
        dice_bounded(p, lo, hi),
        run_stack(p, hi) is Ok,
    ensures
        run_stack(p, lo) is Ok,
        run_stack(p, lo)->Ok_0.len() == run_stack(p, hi)->Ok_0.len(),
        forall|j: int|
            0 <= j < run_stack(p, lo)->Ok_0.len() ==> 0 <= #[trigger] run_stack(p, lo)->Ok_0[j]
                <= run_stack(p, hi)->Ok_0[j],
    decreases p.len(),
{
    if p.len() > 0 {
        let q = p.drop_last();
        let n = p.len() - 1;
        assert(additive_program(q)) by {
            assert forall|i: int| 0 <= i < q.len() implies match #[trigger] q[i] {
                Token::Operand(_) | Token::Plus | Token::Times => true,
                Token::Dice(d) => d.sides >= 1,
                _ => false,
            } by {
                assert(q[i] == p[i]);
            }
        }
        assert(dice_bounded(q, lo, hi)) by {
            assert forall|i: int|
                0 <= i < q.len() && #[trigger] q[i] is Dice && die_fits(q[i]->Dice_0) implies 0
                <= lo[i] <= hi[i] by {
                assert(q[i] == p[i]);
            }
        }
        lemma_monotone(q, lo, hi);
        let sl = run_stack(q, lo)->Ok_0;
        let sh = run_stack(q, hi)->Ok_0;
        let t = p[n];
        assert(t == p.last());
        match t {
            Token::Plus | Token::Times => {
                let m = sh.len();
                let (a1, b1) = (sl[m - 2] as int, sl[m - 1] as int);
                let (a2, b2) = (sh[m - 2] as int, sh[m - 1] as int);
                assert(0 <= a1 <= a2 && 0 <= b1 <= b2);
                assert(0 <= a1 * b1 <= a2 * b2) by (nonlinear_arith)
                    requires
                        0 <= a1 <= a2,
                        0 <= b1 <= b2,
                ;
                let v1 = combine(t, a1, b1)->Ok_0;
                let v2 = combine(t, a2, b2)->Ok_0;
                let rl = run_stack(p, lo)->Ok_0;
                let rh = run_stack(p, hi)->Ok_0;
                assert forall|j: int| 0 <= j < rl.len() implies 0 <= #[trigger] rl[j] <= rh[j] by {
                    if j < m - 2 {
                        assert(rl[j] == sl[j] && rh[j] == sh[j]);
                    }
                }
            },
            Token::Operand(_) => {
                let rl = run_stack(p, lo)->Ok_0;
                let rh = run_stack(p, hi)->Ok_0;
                assert forall|j: int| 0 <= j < rl.len() implies 0 <= #[trigger] rl[j] <= rh[j] by {
                    if j < sl.len() {
                        assert(rl[j] == sl[j] && rh[j] == sh[j]);
                    }
                }
            },
            Token::Dice(d) => {
                let rl = run_stack(p, lo)->Ok_0;
                let rh = run_stack(p, hi)->Ok_0;
                assert(0 <= lo[n] <= hi[n]);
                assert forall|j: int| 0 <= j < rl.len() implies 0 <= #[trigger] rl[j] <= rh[j] by {
                    if j < sl.len() {
                        assert(rl[j] == sl[j] && rh[j] == sh[j]);
                    }
                }
            },
            _ => {},
        }
    }
}

/// The low, average and high values of a die with at least one face are ordered.
proof fn lemma_die_values_ordered(d: Die)
    requires
        d.sides >= 1,
        die_fits(d),
    ensures
        0 <= fixed_value(d, RollType::Low) <= fixed_value(d, RollType::Average),
        fixed_value(d, RollType::Average) <= fixed_value(d, RollType::High) <= i32::MAX,
{
    let n = d.number as int;
    let s = d.sides as int;
    assert(n * (s + 1) >= 2 * n && n * (s + 1) <= 2 * (n * s)) by (nonlinear_arith)
        requires
            n >= 0,
            s >= 1,
    ;
}

proof fn lemma_fixed_bounded(p: Seq<Token>, lo: RollType, hi: RollType)
    requires
        additive_program(p),
        (lo == RollType::Low && hi == RollType::Average) || (lo == RollType::Average && hi
            == RollType::High),
    ensures
        dice_bounded(p, fixed_values(p, lo), fixed_values(p, hi)),
{
    assert forall|i: int|
        0 <= i < p.len() && #[trigger] p[i] is Dice && die_fits(p[i]->Dice_0) implies 0
        <= fixed_values(p, lo)[i] <= fixed_values(p, hi)[i] by {
        lemma_die_values_ordered(p[i]->Dice_0);
    }
}

/// For a program of literals, dice with at least one face, `+` and `*`:
/// where the high evaluation succeeds, the low and average ones do too, and
/// low <= average <= high.
pub proof fn law_low_average_high_ordered(p: Seq<Token>)
    requires
        additive_program(p),
        evaluation(p, RollType::High) is Ok,
    ensures
        evaluation(p, RollType::Low) is Ok,
        evaluation(p, RollType::Average) is Ok,
        evaluation(p, RollType::Low)->Ok_0 <= evaluation(p, RollType::Average)->Ok_0,
        evaluation(p, RollType::Average)->Ok_0 <= evaluation(p, RollType::High)->Ok_0,
{
    lemma_fixed_bounded(p, RollType::Average, RollType::High);
    lemma_fixed_bounded(p, RollType::Low, RollType::Average);
    lemma_monotone(p, fixed_values(p, RollType::Average), fixed_values(p, RollType::High));
    lemma_monotone(p, fixed_values(p, RollType::Low), fixed_values(p, RollType::Average));
}

/// For the same programs, where the high evaluation succeeds, every roll
/// succeeds and lies between the low and the high result.
pub proof fn law_roll_between_low_and_high(p: Seq<Token>, r: Result<i32, InvalidExpressionError>)
    requires
        additive_program(p),
        evaluation(p, RollType::High) is Ok,
        roll_outcome(p, r),
    ensures
        r is Ok,
        evaluation(p, RollType::Low) is Ok,
        evaluation(p, RollType::Low)->Ok_0 <= r->Ok_0 <= evaluation(p, RollType::High)->Ok_0,
{
    let vals = choose|vals: Seq<i32>| #[trigger] rolled_values(p, vals) && run(p, vals) == r;
    let low = fixed_values(p, RollType::Low);
    let high = fixed_values(p, RollType::High);
    assert forall|i: int|
        0 <= i < p.len() && #[trigger] p[i] is Dice && die_fits(p[i]->Dice_0) implies 0 <= low[i]
        <= vals[i] && vals[i] <= high[i] by {
        let d = p[i]->Dice_0;
        lemma_die_values_ordered(d);
        assert(roll_in_range(d, vals[i] as int));
        if d.number == 0 {
            assert(d.number * d.sides == 0) by (nonlinear_arith)
                requires
                    d.number == 0,
            ;
        }
    }
    assert(dice_bounded(p, vals, high));
    assert(dice_bounded(p, low, vals));
    lemma_monotone(p, vals, high);
    lemma_monotone(p, low, vals);
}

} // verus!
