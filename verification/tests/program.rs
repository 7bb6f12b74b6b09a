use calculator::{compile, ErrorKind, Instr, Machine, Operator, Program, Scale, Token};

fn push(text: &str) -> Instr {
    Instr::Push { text: text.chars().collect(), scale: Scale::Unit }
}

fn push_scaled(text: &str, scale: Scale) -> Instr {
    Instr::Push { text: text.chars().collect(), scale }
}

fn number(text: &str, percent: bool) -> Token {
    Token::Number { text: text.chars().collect(), percent }
}

fn done(code: Vec<Instr>) -> Program {
    Program { code, outcome: Ok(()) }
}

fn stopped(code: Vec<Instr>, kind: ErrorKind) -> Program {
    Program { code, outcome: Err(kind) }
}

#[test]
fn operands_keep_their_order_and_operators_follow() {
    assert_eq!(compile("5 + 3"), done(vec![push("5"), push("3"), Instr::Apply(Operator::Add)]));
    assert_eq!(
        compile("5 + 2 * 3"),
        done(vec![
            push("5"),
            push("2"),
            push("3"),
            Instr::Apply(Operator::Multiply),
            Instr::Apply(Operator::Add),
        ])
    );
    assert_eq!(
        compile("5 * 2 + 3"),
        done(vec![
            push("5"),
            push("2"),
            Instr::Apply(Operator::Multiply),
            push("3"),
            Instr::Apply(Operator::Add),
        ])
    );
}

#[test]
fn equal_strength_groups_to_the_left() {
    assert_eq!(
        compile("8 - 3 - 2"),
        done(vec![
            push("8"),
            push("3"),
            Instr::Apply(Operator::Subtract),
            push("2"),
            Instr::Apply(Operator::Subtract),
        ])
    );
    assert_eq!(
        compile("2 ^ 3 ^ 2"),
        done(vec![
            push("2"),
            push("3"),
            Instr::Apply(Operator::Power),
            push("2"),
            Instr::Apply(Operator::Power),
        ])
    );
    assert_eq!(
        compile("8 / 4 * 2"),
        done(vec![
            push("8"),
            push("4"),
            Instr::Apply(Operator::Divide),
            push("2"),
            Instr::Apply(Operator::Multiply),
        ])
    );
}

#[test]
fn parentheses_group_first() {
    assert_eq!(
        compile("(5 + 2) * 3"),
        done(vec![
            push("5"),
            push("2"),
            Instr::Apply(Operator::Add),
            push("3"),
            Instr::Apply(Operator::Multiply),
        ])
    );
    assert_eq!(
        compile("3 + 4 * 2 / ( 1 - 5 ) ^ 2"),
        done(vec![
            push("3"),
            push("4"),
            push("2"),
            Instr::Apply(Operator::Multiply),
            push("1"),
            push("5"),
            Instr::Apply(Operator::Subtract),
            push("2"),
            Instr::Apply(Operator::Power),
            Instr::Apply(Operator::Divide),
            Instr::Apply(Operator::Add),
        ])
    );
    assert_eq!(compile("((7))"), done(vec![push("7")]));
}

#[test]
fn a_minus_sign_where_an_operand_is_expected_belongs_to_the_numeral() {
    assert_eq!(
        compile("10 * -2"),
        done(vec![push("10"), push("-2"), Instr::Apply(Operator::Multiply)])
    );
    assert_eq!(compile("-7"), done(vec![push("-7")]));
    assert_eq!(
        compile("(-7 - -1)"),
        done(vec![push("-7"), push("-1"), Instr::Apply(Operator::Subtract)])
    );
    assert_eq!(
        compile("(4) -1"),
        done(vec![push("4"), push("1"), Instr::Apply(Operator::Subtract)])
    );
    assert_eq!(compile("- 5"), done(vec![push("-5")]));
}

#[test]
fn percent_is_relative_behind_plus_and_minus_only() {
    assert_eq!(
        compile("200 + 10%"),
        done(vec![
            push("200"),
            push_scaled("10", Scale::PercentOfTop),
            Instr::Apply(Operator::Add),
        ])
    );
    assert_eq!(
        compile("100 - 25%"),
        done(vec![
            push("100"),
            push_scaled("25", Scale::PercentOfTop),
            Instr::Apply(Operator::Subtract),
        ])
    );
    assert_eq!(
        compile("100 * 50%"),
        done(vec![
            push("100"),
            push_scaled("50", Scale::Percent),
            Instr::Apply(Operator::Multiply),
        ])
    );
    assert_eq!(compile("50%"), done(vec![push_scaled("50", Scale::Percent)]));
    assert_eq!(
        compile("100 + (50%)"),
        done(vec![push("100"), push_scaled("50", Scale::Percent), Instr::Apply(Operator::Add)])
    );
    assert_eq!(
        compile("200 + -10%"),
        done(vec![push("200"), push_scaled("-10", Scale::Percent), Instr::Apply(Operator::Add)])
    );
    assert_eq!(
        compile("1 + 2 * 3 + 4%"),
        done(vec![
            push("1"),
            push("2"),
            push("3"),
            Instr::Apply(Operator::Multiply),
            Instr::Apply(Operator::Add),
            push_scaled("4", Scale::PercentOfTop),
            Instr::Apply(Operator::Add),
        ])
    );
}

#[test]
fn white_space_means_nothing() {
    assert_eq!(compile(" 5\t+\n3\r"), compile("5+3"));
    assert_eq!(compile("1 2 + 3"), done(vec![push("12"), push("3"), Instr::Apply(Operator::Add)]));
    assert_eq!(compile("5 \u{c} %"), done(vec![push_scaled("5", Scale::Percent)]));
    assert_eq!(compile("5\u{a0}+ 3"), stopped(vec![push("5")], ErrorKind::InvalidCharacter));
    assert_eq!(compile("5\u{b}+ 3"), compile("5+3"));
    assert_eq!(compile("5\u{85}+ 3"), stopped(vec![push("5")], ErrorKind::InvalidCharacter));
}

#[test]
fn what_is_no_decimal_number_is_an_invalid_number() {
    assert_eq!(compile("1.2.3"), stopped(vec![], ErrorKind::InvalidNumber));
    assert_eq!(compile("."), stopped(vec![], ErrorKind::InvalidNumber));
    assert_eq!(compile("-"), stopped(vec![], ErrorKind::InvalidNumber));
    assert_eq!(compile("-."), stopped(vec![], ErrorKind::InvalidNumber));
    assert_eq!(compile("2 * -"), stopped(vec![push("2")], ErrorKind::InvalidNumber));
    assert_eq!(compile("4(-)3"), stopped(vec![push("4")], ErrorKind::InvalidNumber));
    assert_eq!(compile("+1..%"), stopped(vec![], ErrorKind::InvalidNumber));
    assert_eq!(compile("7."), done(vec![push("7.")]));
    assert_eq!(compile(".7"), done(vec![push(".7")]));
}

#[test]
fn what_belongs_to_no_token_is_an_invalid_character() {
    assert_eq!(compile("2 & 3"), stopped(vec![push("2")], ErrorKind::InvalidCharacter));
    assert_eq!(compile("x"), stopped(vec![], ErrorKind::InvalidCharacter));
    assert_eq!(compile("%"), stopped(vec![], ErrorKind::InvalidCharacter));
    assert_eq!(compile("(5)%"), stopped(vec![push("5")], ErrorKind::InvalidCharacter));
    assert_eq!(compile("5%%"), stopped(vec![push_scaled("5", Scale::Percent)], ErrorKind::InvalidCharacter));
    assert_eq!(compile("1e5"), stopped(vec![push("1")], ErrorKind::InvalidCharacter));
    assert_eq!(compile("\u{663}"), stopped(vec![], ErrorKind::InvalidCharacter));
}

#[test]
fn missing_operands_are_a_syntax_error() {
    assert_eq!(compile("5 * + 3"), stopped(vec![push("5")], ErrorKind::SyntaxError));
    assert_eq!(compile(""), stopped(vec![], ErrorKind::SyntaxError));
    assert_eq!(compile("   "), stopped(vec![], ErrorKind::SyntaxError));
    assert_eq!(compile("+ 3"), stopped(vec![push("3")], ErrorKind::SyntaxError));
    assert_eq!(compile("3 +"), stopped(vec![push("3")], ErrorKind::SyntaxError));
    assert_eq!(compile("+ 10%"), stopped(vec![], ErrorKind::SyntaxError));
    assert_eq!(compile("()"), stopped(vec![], ErrorKind::SyntaxError));
    assert_eq!(compile("(+3)"), stopped(vec![push("3")], ErrorKind::SyntaxError));
}

#[test]
fn parentheses_without_partner_are_a_syntax_error() {
    assert_eq!(compile("5)"), stopped(vec![push("5")], ErrorKind::SyntaxError));
    assert_eq!(compile("(5"), stopped(vec![push("5")], ErrorKind::SyntaxError));
    assert_eq!(compile("2 * (5"), stopped(vec![push("2"), push("5")], ErrorKind::SyntaxError));
    assert_eq!(
        compile("(1 + 2"),
        stopped(vec![push("1"), push("2"), Instr::Apply(Operator::Add)], ErrorKind::SyntaxError)
    );
    assert_eq!(
        compile("1 + 2) * 3"),
        stopped(vec![push("1"), push("2"), Instr::Apply(Operator::Add)], ErrorKind::SyntaxError)
    );
}

#[test]
fn operands_left_over_are_a_syntax_error() {
    assert_eq!(compile("(2)(3)"), stopped(vec![push("2"), push("3")], ErrorKind::SyntaxError));
    assert_eq!(
        compile("5 + (3) 4"),
        stopped(
            vec![push("5"), push("3"), push("4"), Instr::Apply(Operator::Add)],
            ErrorKind::SyntaxError
        )
    );
    assert_eq!(
        compile("3 (+ 4)"),
        done(vec![push("3"), push("4"), Instr::Apply(Operator::Add)])
    );
}

#[test]
fn what_was_asked_before_an_error_is_kept() {
    assert_eq!(
        compile("1 / 0 + $"),
        stopped(
            vec![push("1"), push("0"), Instr::Apply(Operator::Divide)],
            ErrorKind::InvalidCharacter
        )
    );
}

#[test]
fn every_program_runs_on_a_stack() {
    let texts = [
        "5 + 3", "5 * + 3", "(((", ")))", "1 + 2) * 3", "200 + 10%", "+ 10%", "1 2 3", "2 ^ 3 ^ 2",
        "(1 + 2) * (3 - 4) / 5", "", "-", "- 1 - - 1", "1 +", "((1)", "1 / 0 + $", "3 (+ 4)",
    ];
    for text in texts {
        let program = compile(text);
        let mut height: usize = 0;
        for instr in &program.code {
            match instr {
                Instr::Push { scale: Scale::PercentOfTop, .. } => {
                    assert!(height >= 1, "{}", text);
                    height += 1;
                }
                Instr::Push { .. } => height += 1,
                Instr::Apply(_) => {
                    assert!(height >= 2, "{}", text);
                    height -= 1;
                }
            }
        }
        if program.outcome.is_ok() {
            assert_eq!(height, 1, "{}", text);
        }
    }
}

#[test]
fn the_controller_takes_tokens_one_by_one() {
    let mut machine = Machine::new();
    assert!(machine.operand_expected());
    machine.accept(number("200", false));
    assert!(!machine.operand_expected());
    machine.accept(Token::Operator(Operator::Add));
    assert!(machine.operand_expected());
    machine.accept(Token::LeftParen);
    assert!(machine.operand_expected());
    machine.accept(number("10", true));
    machine.accept(Token::RightParen);
    assert!(!machine.operand_expected());
    assert_eq!(machine.failure(), None);
    assert_eq!(
        machine.finish(),
        done(vec![push("200"), push_scaled("10", Scale::Percent), Instr::Apply(Operator::Add)])
    );
}

#[test]
fn a_stopped_controller_stays_stopped() {
    let mut machine = Machine::new();
    machine.accept(Token::RightParen);
    assert_eq!(machine.failure(), Some(ErrorKind::SyntaxError));
    machine.accept(number("1", false));
    machine.fail(ErrorKind::InvalidCharacter);
    assert_eq!(machine.failure(), Some(ErrorKind::SyntaxError));
    assert_eq!(machine.finish(), stopped(vec![], ErrorKind::SyntaxError));

    let mut machine = Machine::new();
    machine.accept(number("1", false));
    machine.fail(ErrorKind::InvalidCharacter);
    assert_eq!(machine.finish(), stopped(vec![push("1")], ErrorKind::InvalidCharacter));
}
