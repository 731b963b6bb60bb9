use dice_forge::eval::evaluate;
use dice_forge::roll;
use dice_forge::{Die, DivideByZeroError, Equation, InvalidExpressionError, Token};

fn eq(s: &str) -> Equation {
    Equation::new(s).expect("compiles")
}

#[test]
fn no_dice_all_policies_agree() {
    for s in ["3+2*5", "2(1 - 5) ^ 2 + -3 * 2", "7/2", "(0-7)/2", "2^3^2"] {
        let e = eq(s);
        let r = e.roll().unwrap();
        assert_eq!(r, e.average().unwrap());
        assert_eq!(r, e.low().unwrap());
        assert_eq!(r, e.high().unwrap());
    }
}

#[test]
fn low_average_high_ordered() {
    let e = eq("2d6+3*d4+1");
    let (l, a, h) = (e.low().unwrap(), e.average().unwrap(), e.high().unwrap());
    assert_eq!((l, a, h), (6, 14, 25));
    assert!(l <= a && a <= h);
    for _n in 0..200 {
        let r = e.roll().unwrap();
        assert!(l <= r && r <= h);
    }
}

#[test]
fn thousand_rolls_in_range() {
    let e = eq("10d20");
    for _n in 0..1000 {
        let r = e.roll().unwrap();
        assert!((10..=200).contains(&r));
    }
}

#[test]
fn one_d_two_shows_both_faces() {
    let e = eq("1d2");
    let mut seen = [false, false];
    for _n in 0..1000 {
        let r = e.roll().unwrap();
        assert!(r == 1 || r == 2);
        seen[(r - 1) as usize] = true;
    }
    assert!(seen[0] && seen[1]);
}

#[test]
fn range_is_low_and_high() {
    let e = eq("3d5+10/2^2");
    assert_eq!(e.range().unwrap(), (e.low().unwrap(), e.high().unwrap()));
    assert_eq!(e.range().unwrap(), (5, 17));
}

#[test]
fn divide_by_zero_anywhere() {
    for s in ["1/0", "5/(2-2)", "3 + 4/(1-1) * 2"] {
        assert_eq!(eq(s).roll(), Err(InvalidExpressionError::DivideByZero));
        assert_eq!(eq(s).low(), Err(InvalidExpressionError::DivideByZero));
    }
    assert_eq!(roll::roll("1/0"), Err(InvalidExpressionError::DivideByZero));
}

#[test]
fn first_invalid_character() {
    assert!(matches!(
        Equation::new("test"),
        Err(InvalidExpressionError::InvalidToken('t'))
    ));
    assert!(matches!(
        Equation::new("1 + 2x + y"),
        Err(InvalidExpressionError::InvalidToken('x'))
    ));
    assert_eq!(roll::advantage("3D6"), Err(InvalidExpressionError::InvalidToken('D')));
}

#[test]
fn average_rounding() {
    assert_eq!(eq("1d4").average().unwrap(), 2);
    assert_eq!(eq("3d4").average().unwrap(), 7);
    assert_eq!(eq("3d5").average().unwrap(), 9);
    assert_eq!(eq("d6").average().unwrap(), 3);
}

#[test]
fn truncating_division_and_left_exponent() {
    assert_eq!(eq("7/2").roll().unwrap(), 3);
    assert_eq!(eq("(0-7)/2").roll().unwrap(), -3);
    assert_eq!(eq("-7/2").roll().unwrap(), -3);
    assert_eq!(eq("2^3^2").roll().unwrap(), 64);
    assert_eq!(eq("3^0").roll().unwrap(), 1);
    assert_eq!(eq("3^1").roll().unwrap(), 3);
    assert_eq!(eq("2^(0-1)").roll().unwrap(), 1);
    assert_eq!(eq("(0-2)^3").roll().unwrap(), -8);
}

#[test]
fn implicit_multiplication() {
    assert_eq!(eq("3(2)").roll().unwrap(), 6);
    assert_eq!(eq("2d1(4)").roll().unwrap(), 8);
    assert_eq!(eq("10+(3+2d6*2)+3(2d20)+d2").low().unwrap(), 24);
    assert_eq!(eq("10+(3+2d6*2)+3(2d20)+d2").high().unwrap(), 159);
}

#[test]
fn white_space_is_ignored() {
    assert_eq!(eq(" 1 +\t2\n* 3 ").roll().unwrap(), 7);
    assert_eq!(eq("1 0 d 2 0").high().unwrap(), 200);
}

#[test]
fn overflow_is_reported() {
    assert!(matches!(
        Equation::new("99999999999"),
        Err(InvalidExpressionError::Overflow)
    ));
    assert_eq!(eq("2147483647+1").roll(), Err(InvalidExpressionError::Overflow));
    assert_eq!(eq("2147483648").roll(), Err(InvalidExpressionError::Overflow));
    assert_eq!(eq("2^31").roll(), Err(InvalidExpressionError::Overflow));
    assert_eq!(eq("(0-2)^31").roll().unwrap(), i32::MIN);
    assert_eq!(eq("1^2000000000").roll().unwrap(), 1);
    assert_eq!(eq("3d2000000000").low(), Err(InvalidExpressionError::Overflow));
}

#[test]
fn malformed_programs() {
    assert_eq!(eq("").roll(), Err(InvalidExpressionError::InvalidExpression));
    assert_eq!(eq("1+").roll(), Err(InvalidExpressionError::InvalidExpression));
    assert_eq!(eq("*2").roll(), Err(InvalidExpressionError::InvalidExpression));
    assert_eq!(eq("(1)(2)").roll(), Err(InvalidExpressionError::InvalidExpression));
    assert_eq!(eq("(1+2").roll().unwrap(), 3);
}

#[test]
fn dice_without_faces_count_nothing_when_rolled() {
    assert_eq!(eq("2d").roll().unwrap(), 0);
    assert_eq!(eq("0d6").roll().unwrap(), 0);
    assert_eq!(eq("2d").low().unwrap(), 2);
}

#[test]
fn evaluate_reads_given_dice_values() {
    let program = vec![
        Token::Dice(Die { number: 2, sides: 6 }),
        Token::Operand(3),
        Token::Plus,
    ];
    assert_eq!(evaluate(&program, &vec![7, 0, 0]), Ok(10));
    assert_eq!(evaluate(&program, &vec![12, 0, 0]), Ok(15));
}

#[test]
fn advantage_and_disadvantage() {
    assert_eq!(eq("d1+4").advantage().unwrap(), 5);
    assert_eq!(eq("d1+4").disadvantage().unwrap(), 5);
    assert_eq!(roll::advantage("2+3"), Ok(5));
    assert_eq!(roll::disadvantage("2*3"), Ok(6));
    for _n in 0..100 {
        let a = roll::advantage("1d2").unwrap();
        let d = roll::disadvantage("1d2").unwrap();
        assert!((1..=2).contains(&a) && (1..=2).contains(&d));
    }
    assert_eq!(eq("1/0").advantage(), Err(InvalidExpressionError::DivideByZero));
}

#[test]
fn error_messages() {
    assert_eq!(
        DivideByZeroError::DivideByZero.message(),
        "Error: Attempted to divide by 0"
    );
    assert_eq!(
        InvalidExpressionError::InvalidToken('x').message(),
        "Error: Unexpected token 'x' found while parsing"
    );
    assert_eq!(
        InvalidExpressionError::InvalidExpression.message(),
        "Error: The expression could not be parsed, incorrect format?"
    );
    assert_eq!(
        InvalidExpressionError::InvalidDie.message(),
        "Error: Die expression could not be parsed."
    );
    assert_eq!(
        InvalidExpressionError::Overflow.message(),
        "Error: A value does not fit in a 32-bit integer"
    );
}

#[test]
fn value_after_parenthesis_is_binary() {
    assert_eq!(eq("(1-5)+2").roll().unwrap(), -2);
    assert_eq!(eq("(2)-3").roll().unwrap(), -1);
    assert_eq!(eq("10+(3+2)+3(2)+1").roll().unwrap(), 22);
}
