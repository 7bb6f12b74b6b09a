use calculator::{hundredth, render, Arithmetic, ErrorKind, Operator, Shape};

type Floats = Arithmetic<
    fn(&Vec<char>) -> Result<f64, ErrorKind>,
    fn(f64) -> bool,
    fn(Operator, f64, f64) -> f64,
>;

fn number(text: &Vec<char>) -> Result<f64, ErrorKind> {
    let literal: String = text.iter().collect();
    literal.parse().map_err(|_| ErrorKind::InvalidNumber)
}

fn is_zero(value: f64) -> bool {
    value == 0.0
}

fn combine(operator: Operator, a: f64, b: f64) -> f64 {
    match operator {
        Operator::Add => a + b,
        Operator::Subtract => a - b,
        Operator::Multiply => a * b,
        Operator::Divide => a / b,
        Operator::Power => a.powf(b),
    }
}

fn floats() -> Floats {
    Arithmetic { number, is_zero, combine }
}

fn apply_op(op: char, b: f64, a: f64) -> Result<f64, ErrorKind> {
    calculator::apply_op(op, b, a, &floats())
}

fn evaluate(expression: &str) -> Result<f64, ErrorKind> {
    calculator::evaluate(expression, &floats())
}

fn format_result(n: f64) -> String {
    let shape = if n.is_nan() {
        Shape::NotANumber
    } else if n.fract() == 0.0 {
        Shape::Whole
    } else {
        Shape::Fractional
    };
    render(shape, &format!("{:.*}", shape.fraction_digits(), n))
}

fn assert_float_eq(a: f64, b: f64) {
    assert!((a - b).abs() < 1e-9, "Expected {}, got {}", b, a);
}

#[test]
fn test_simple_addition() {
    assert_float_eq(evaluate("5 + 3").unwrap(), 8.0);
}

#[test]
fn test_simple_subtraction() {
    assert_float_eq(evaluate("10 - 4").unwrap(), 6.0);
}

#[test]
fn test_simple_multiplication() {
    assert_float_eq(evaluate("7 * 3").unwrap(), 21.0);
}

#[test]
fn test_simple_division() {
    assert_float_eq(evaluate("20 / 4").unwrap(), 5.0);
}

#[test]
fn test_order_of_operations() {
    assert_float_eq(evaluate("5 + 2 * 3").unwrap(), 11.0);
}

#[test]
fn test_parentheses() {
    assert_float_eq(evaluate("(5 + 2) * 3").unwrap(), 21.0);
}

#[test]
fn test_floating_point() {
    assert_float_eq(evaluate("1.5 + 2.5").unwrap(), 4.0);
}

#[test]
fn test_unary_minus() {
    assert_float_eq(evaluate("10 * -2").unwrap(), -20.0);
}

#[test]
fn test_exponentiation() {
    assert_float_eq(evaluate("2 ^ 3").unwrap(), 8.0);
}

#[test]
fn test_percentage() {
    assert_float_eq(evaluate("50%").unwrap(), 0.5);
    assert_float_eq(evaluate("200 + 10%").unwrap(), 220.0);
    assert_float_eq(evaluate("100 * 50%").unwrap(), 50.0);
    assert_float_eq(evaluate("100 - 25%").unwrap(), 75.0);
}

#[test]
fn test_complex_expression() {
    assert_float_eq(evaluate("3 + 4 * 2 / ( 1 - 5 ) ^ 2").unwrap(), 3.5);
}

#[test]
fn test_division_by_zero() {
    assert!(evaluate("10 / 0").is_err());
}

#[test]
fn test_syntax_error() {
    assert!(evaluate("5 * + 3").is_err());
}

#[test]
fn subtraction_groups_to_the_left() {
    assert_eq!(evaluate("8 - 3 - 2"), Ok(3.0));
}

#[test]
fn power_groups_to_the_left() {
    assert_eq!(evaluate("2 ^ 3 ^ 2"), Ok(64.0));
}

#[test]
fn multiplication_binds_tighter_than_addition() {
    assert_eq!(evaluate("5 + 2 * 3"), Ok(11.0));
    assert_eq!(evaluate("(5 + 2) * 3"), Ok(21.0));
    assert_eq!(evaluate("2 * 3 ^ 2"), Ok(18.0));
}

#[test]
fn percent_depends_on_the_operator_in_front() {
    assert_eq!(evaluate("200 + 10%"), Ok(220.0));
    assert_eq!(evaluate("100 * 50%"), Ok(50.0));
    assert_eq!(evaluate("50%"), Ok(0.5));
    assert_eq!(evaluate("100 - 25%"), Ok(75.0));
    assert_eq!(evaluate("2 * 50 + 10%"), Ok(110.0));
    assert_eq!(evaluate("100 + (50%)"), Ok(100.5));
    assert_float_eq(evaluate("200 + -10%").unwrap(), 199.9);
}

#[test]
fn unary_minus_follows_an_operator() {
    assert_eq!(evaluate("10 * -2"), Ok(-20.0));
    assert_eq!(evaluate("-3 - 2"), Ok(-5.0));
    assert_eq!(evaluate("(-3) * 2"), Ok(-6.0));
    assert_eq!(evaluate("5 -3"), Ok(2.0));
}

#[test]
fn division_by_zero_is_its_own_error() {
    assert_eq!(evaluate("10 / 0"), Err(ErrorKind::DivisionByZero));
    assert_eq!(evaluate("10 / (5 - 5)"), Err(ErrorKind::DivisionByZero));
}

#[test]
fn an_operator_without_operands_is_a_syntax_error() {
    assert_eq!(evaluate("5 * + 3"), Err(ErrorKind::SyntaxError));
    assert_eq!(evaluate(""), Err(ErrorKind::SyntaxError));
    assert_eq!(evaluate("+"), Err(ErrorKind::SyntaxError));
}

#[test]
fn the_first_error_is_reported() {
    assert_eq!(evaluate("1 / 0 + $"), Err(ErrorKind::DivisionByZero));
    assert_eq!(evaluate("1 / 1 + $"), Err(ErrorKind::InvalidCharacter));
    assert_eq!(evaluate("$ + 1 / 0"), Err(ErrorKind::InvalidCharacter));
    assert_eq!(evaluate("1 / 0 + 1.2.3"), Err(ErrorKind::DivisionByZero));
    assert_eq!(evaluate("1 + 1.2.3 / 0"), Err(ErrorKind::InvalidNumber));
    assert_eq!(evaluate("2 * (1 / 0"), Err(ErrorKind::DivisionByZero));
    assert_eq!(evaluate("2 * (1 / 1"), Err(ErrorKind::SyntaxError));
    assert_eq!(evaluate("(1 / 0"), Err(ErrorKind::DivisionByZero));
    assert_eq!(evaluate("1 / 0 * 2"), Err(ErrorKind::DivisionByZero));
}

#[test]
fn numerals_parse_as_decimal_numbers() {
    assert_eq!(evaluate("5."), Ok(5.0));
    assert_eq!(evaluate(".5"), Ok(0.5));
    assert_eq!(evaluate("-.5"), Ok(-0.5));
    assert_eq!(evaluate("1 2 . 5"), Ok(12.5));
    assert_eq!(evaluate("0.1 + 0.2"), Ok(0.1 + 0.2));
}

#[test]
fn power_takes_fractions_and_negative_numbers() {
    assert_float_eq(evaluate("4 ^ 0.5").unwrap(), 2.0);
    assert_float_eq(evaluate("2 ^ -1").unwrap(), 0.5);
    assert_float_eq(evaluate("(1 - 5) ^ 2").unwrap(), 16.0);
}

#[test]
fn apply_op_rejects_what_is_no_operator() {
    assert_eq!(apply_op('(', 1.0, 2.0), Err(ErrorKind::UnknownOperator));
    assert_eq!(apply_op('%', 1.0, 2.0), Err(ErrorKind::UnknownOperator));
    assert_eq!(apply_op(' ', 1.0, 2.0), Err(ErrorKind::UnknownOperator));
}

#[test]
fn apply_op_takes_the_right_operand_first() {
    assert_eq!(apply_op('+', 1.0, 2.0), Ok(3.0));
    assert_eq!(apply_op('-', 1.0, 2.0), Ok(1.0));
    assert_eq!(apply_op('*', 4.0, 2.5), Ok(10.0));
    assert_eq!(apply_op('/', 4.0, 2.0), Ok(0.5));
    assert_eq!(apply_op('^', 3.0, 2.0), Ok(8.0));
}

#[test]
fn apply_op_does_not_divide_by_zero() {
    assert_eq!(apply_op('/', 0.0, 2.0), Err(ErrorKind::DivisionByZero));
    assert_eq!(apply_op('/', -0.0, 2.0), Err(ErrorKind::DivisionByZero));
    assert_eq!(apply_op('/', 2.0, 0.0), Ok(0.0));
    assert_eq!(apply_op('*', 0.0, 2.0), Ok(0.0));
    assert_eq!(apply_op('^', 0.0, 0.0), Ok(1.0));
    assert_eq!(apply_op('/', 0.5, 1.0), Ok(2.0));
    assert_eq!(apply_op('/', 1e-300, 1.0), Ok(1.0 / 1e-300));
}

#[test]
fn a_hundredth_is_the_number_divided_by_a_hundred() {
    assert_eq!(hundredth(50.0, &floats()), Ok(0.5));
    assert_eq!(hundredth(-10.0, &floats()), Ok(-0.1));
    assert_eq!(hundredth(7.0, &floats()), Ok(7.0 / 100.0));
    assert_eq!(hundredth(0.0, &floats()), Ok(0.0));
}

#[test]
fn results_are_shown_without_needless_zeros() {
    assert_eq!(format_result(8.0), "8");
    assert_eq!(format_result(3.5), "3.5");
    assert_eq!(format_result(0.125), "0.125");
    assert_eq!(format_result(-20.0), "-20");
    assert_eq!(format_result(100.0), "100");
    assert_eq!(format_result(1.0 / 3.0), "0.33333333");
    assert_eq!(format_result(10.000000001), "10");
    assert_eq!(format_result(f64::NAN), "Error");
    assert_eq!(format_result(f64::INFINITY), "inf");
}

#[test]
fn a_shown_result_evaluates_to_itself() {
    for text in ["5 + 3", "7 / 2", "1 / 8", "10 * -2", "200 + 10%", "2 ^ 0.5", "1 / 3"] {
        let value = evaluate(text).unwrap();
        let again = evaluate(&format_result(value)).unwrap();
        assert!((value - again).abs() < 1e-8, "{} became {}", value, again);
    }
}
