use calculator::{compile, evaluate, execute, Arithmetic, ErrorKind, Instr, Operator, Program, Scale};
use std::cell::RefCell;

type Integers = Arithmetic<
    fn(&Vec<char>) -> Result<i64, ErrorKind>,
    fn(i64) -> bool,
    fn(Operator, i64, i64) -> i64,
>;

fn integer(text: &Vec<char>) -> Result<i64, ErrorKind> {
    let literal: String = text.iter().collect();
    literal.parse().map_err(|_| ErrorKind::InvalidNumber)
}

fn is_zero(value: i64) -> bool {
    value == 0
}

fn combine(operator: Operator, left: i64, right: i64) -> i64 {
    match operator {
        Operator::Add => left.wrapping_add(right),
        Operator::Subtract => left.wrapping_sub(right),
        Operator::Multiply => left.wrapping_mul(right),
        Operator::Divide => left.checked_div(right).unwrap_or(0),
        Operator::Power => left.wrapping_pow(right.clamp(0, 64) as u32),
    }
}

fn integers() -> Integers {
    Arithmetic { number: integer, is_zero, combine }
}

fn whole(expression: &str) -> Result<i64, ErrorKind> {
    evaluate(expression, &integers())
}

fn push(text: &str, scale: Scale) -> Instr {
    Instr::Push { text: text.chars().collect(), scale }
}

fn run(program: &Program) -> Result<i64, ErrorKind> {
    assert!(program.can_run());
    execute(program, &integers())
}

#[test]
fn the_left_operand_comes_first() {
    assert_eq!(whole("7 - 2"), Ok(5));
    assert_eq!(whole("2 - 7"), Ok(-5));
    assert_eq!(whole("7 / 2"), Ok(3));
    assert_eq!(whole("2 ^ 5"), Ok(32));
    assert_eq!(whole("5 ^ 2"), Ok(25));
}

#[test]
fn whole_numbers_follow_the_same_rules() {
    assert_eq!(whole("8 - 3 - 2"), Ok(3));
    assert_eq!(whole("2 ^ 3 ^ 2"), Ok(64));
    assert_eq!(whole("5 + 2 * 3"), Ok(11));
    assert_eq!(whole("(5 + 2) * 3"), Ok(21));
    assert_eq!(whole("3 + 4 * 2 / (1 - 5) ^ 2"), Ok(3));
    assert_eq!(whole("10 * -2"), Ok(-20));
}

#[test]
fn a_percentage_is_a_hundredth_first() {
    assert_eq!(whole("300%"), Ok(3));
    assert_eq!(whole("250%"), Ok(2));
    assert_eq!(whole("50%"), Ok(0));
    assert_eq!(whole("7 * 300%"), Ok(21));
    assert_eq!(whole("200 + 300%"), Ok(800));
    assert_eq!(whole("200 - 100%"), Ok(0));
    assert_eq!(whole("200 + 10%"), Ok(200));
    assert_eq!(whole("2 * 50 + 200%"), Ok(300));
    assert_eq!(whole("200 + -300%"), Ok(197));
    assert_eq!(whole("200 + (300%)"), Ok(203));
}

#[test]
fn the_arithmetic_is_asked_in_order() {
    let asked: RefCell<Vec<String>> = RefCell::new(Vec::new());
    let arithmetic = Arithmetic {
        number: |text: &Vec<char>| -> Result<i64, ErrorKind> {
            asked.borrow_mut().push(format!("read {}", text.iter().collect::<String>()));
            integer(text)
        },
        is_zero: |value: i64| -> bool {
            asked.borrow_mut().push(format!("zero? {}", value));
            value == 0
        },
        combine: |operator: Operator, left: i64, right: i64| -> i64 {
            asked.borrow_mut().push(format!("{} {} {}", left, operator.symbol(), right));
            combine(operator, left, right)
        },
    };
    assert_eq!(evaluate("400 + 50% / 2", &arithmetic), Ok(400));
    assert_eq!(
        *asked.borrow(),
        vec![
            "read 400", "read 50", "read 100", "50 / 100", "400 * 0", "read 2", "zero? 2",
            "0 / 2", "400 + 0",
        ]
    );
    asked.borrow_mut().clear();
    assert_eq!(evaluate("6 / (3 - 3) + 1", &arithmetic), Err(ErrorKind::DivisionByZero));
    assert_eq!(
        *asked.borrow(),
        vec!["read 6", "read 3", "read 3", "3 - 3", "zero? 0"]
    );
    asked.borrow_mut().clear();
    assert_eq!(evaluate("1.5 + 1 / 0", &arithmetic), Err(ErrorKind::InvalidNumber));
    assert_eq!(*asked.borrow(), vec!["read 1.5"]);
}

#[test]
fn errors_of_the_arithmetic_come_out() {
    assert_eq!(whole("10 / 0"), Err(ErrorKind::DivisionByZero));
    assert_eq!(whole("0 / 0"), Err(ErrorKind::DivisionByZero));
    assert_eq!(whole("1.5 + 1"), Err(ErrorKind::InvalidNumber));
    assert_eq!(whole("1 / 0 + $"), Err(ErrorKind::DivisionByZero));
    assert_eq!(whole("1 / 1 + $"), Err(ErrorKind::InvalidCharacter));
    assert_eq!(whole("1.5 + $"), Err(ErrorKind::InvalidNumber));
}

#[test]
fn errors_of_the_expression_come_out() {
    assert_eq!(whole(""), Err(ErrorKind::SyntaxError));
    assert_eq!(whole("5 * + 3"), Err(ErrorKind::SyntaxError));
    assert_eq!(whole("(5"), Err(ErrorKind::SyntaxError));
    assert_eq!(whole("5)"), Err(ErrorKind::SyntaxError));
    assert_eq!(whole("(2)(3)"), Err(ErrorKind::SyntaxError));
    assert_eq!(whole("1.2.3"), Err(ErrorKind::InvalidNumber));
    assert_eq!(whole("2 # 3"), Err(ErrorKind::InvalidCharacter));
}

#[test]
fn programs_run_step_by_step() {
    let program = Program {
        code: vec![
            push("7", Scale::Unit),
            push("2", Scale::Unit),
            Instr::Apply(Operator::Subtract),
            push("400", Scale::PercentOfTop),
            Instr::Apply(Operator::Multiply),
        ],
        outcome: Ok(()),
    };
    assert_eq!(run(&program), Ok(100));
    assert_eq!(run(&Program { code: vec![push("500", Scale::Percent)], outcome: Ok(()) }), Ok(5));
    assert_eq!(
        run(&Program { code: vec![push("1", Scale::Unit)], outcome: Err(ErrorKind::SyntaxError) }),
        Err(ErrorKind::SyntaxError)
    );
    assert_eq!(
        run(&Program { code: vec![push("1.5", Scale::Unit)], outcome: Ok(()) }),
        Err(ErrorKind::InvalidNumber)
    );
    assert_eq!(
        run(&Program { code: vec![], outcome: Err(ErrorKind::InvalidCharacter) }),
        Err(ErrorKind::InvalidCharacter)
    );
}

#[test]
fn programs_that_cannot_run_are_told_apart() {
    let sound = |code: Vec<Instr>, outcome: Result<(), ErrorKind>| {
        Program { code, outcome }.can_run()
    };
    assert!(sound(vec![push("1", Scale::Unit)], Ok(())));
    assert!(sound(vec![], Err(ErrorKind::SyntaxError)));
    assert!(sound(vec![push("1", Scale::Unit), push("2", Scale::Unit)], Err(ErrorKind::SyntaxError)));
    assert!(sound(
        vec![push("1", Scale::Unit), push("2", Scale::PercentOfTop), Instr::Apply(Operator::Add)],
        Ok(())
    ));
    assert!(!sound(vec![], Ok(())));
    assert!(!sound(vec![push("x", Scale::Unit)], Ok(())));
    assert!(!sound(vec![push("1.2.3", Scale::Unit)], Err(ErrorKind::SyntaxError)));
    assert!(!sound(vec![push("", Scale::Unit)], Ok(())));
    assert!(!sound(vec![push("1", Scale::Unit), push("2", Scale::Unit)], Ok(())));
    assert!(!sound(vec![push("1", Scale::PercentOfTop)], Ok(())));
    assert!(!sound(vec![push("1", Scale::PercentOfTop)], Err(ErrorKind::SyntaxError)));
    assert!(!sound(vec![push("1", Scale::Unit), Instr::Apply(Operator::Add)], Ok(())));
    assert!(!sound(
        vec![Instr::Apply(Operator::Add), push("1", Scale::Unit)],
        Err(ErrorKind::SyntaxError)
    ));
}

#[test]
fn every_compiled_program_can_run() {
    for text in ["", "5 + 3", "5 * + 3", "(((", ")))", "+ 10%", "1 +", "3 (+ 4)", "1 / 0 + $"] {
        assert!(compile(text).can_run(), "{}", text);
    }
}
