use calculator::readout::{is_white_space_char, key_from_label};
use calculator::{Effect, Key, Operator, Readout};

fn line(text: &str) -> Readout {
    Readout { text: text.to_string(), is_result: false }
}

fn result(text: &str) -> Readout {
    Readout { text: text.to_string(), is_result: true }
}

fn pressed(mut readout: Readout, label: &str) -> Readout {
    readout.press(label);
    readout
}

fn erased(mut readout: Readout) -> Readout {
    readout.backspace();
    readout
}

fn typed(labels: &[&str]) -> Readout {
    let mut readout = Readout::new();
    for label in labels {
        readout.press(label);
    }
    readout
}

#[test]
fn a_new_line_shows_a_zero() {
    assert_eq!(Readout::new(), line("0"));
}

#[test]
fn labels_name_keys() {
    for label in ["0", "1", "2", "3", "4", "5", "6", "7", "8", "9", "(", ")"] {
        assert_eq!(key_from_label(label), Some(Key::Symbol));
    }
    assert_eq!(key_from_label("."), Some(Key::Point));
    assert_eq!(key_from_label("C"), Some(Key::Clear));
    assert_eq!(key_from_label("+/-"), Some(Key::Sign));
    assert_eq!(key_from_label("%"), Some(Key::Percent));
    assert_eq!(key_from_label("="), Some(Key::Equals));
    assert_eq!(key_from_label("+"), Some(Key::Operator(Operator::Add)));
    assert_eq!(key_from_label("-"), Some(Key::Operator(Operator::Subtract)));
    assert_eq!(key_from_label("*"), Some(Key::Operator(Operator::Multiply)));
    assert_eq!(key_from_label("/"), Some(Key::Operator(Operator::Divide)));
    assert_eq!(key_from_label("^"), Some(Key::Operator(Operator::Power)));
    for label in ["", "c", "q", " ", "10", "+/", "+/-1", "-/+", "+-", "\u{663}", "=="] {
        assert_eq!(key_from_label(label), None, "{:?}", label);
    }
}

#[test]
fn digits_replace_a_zero_and_follow_anything_else() {
    assert_eq!(pressed(line("0"), "7"), line("7"));
    assert_eq!(pressed(line("7"), "0"), line("70"));
    assert_eq!(pressed(line("5 + "), "3"), line("5 + 3"));
    assert_eq!(pressed(line("0"), "("), line("("));
    assert_eq!(pressed(line("(5"), ")"), line("(5)"));
    assert_eq!(pressed(line(""), "1"), line("1"));
    assert_eq!(pressed(line("00"), "1"), line("001"));
}

#[test]
fn a_digit_replaces_a_result() {
    assert_eq!(pressed(result("8"), "7"), line("7"));
    assert_eq!(pressed(result("Syntax error"), "("), line("("));
    assert_eq!(pressed(result("0"), "0"), line("0"));
}

#[test]
fn one_decimal_point_for_each_number() {
    assert_eq!(pressed(line("0"), "."), line("0."));
    assert_eq!(pressed(line("0."), "."), line("0."));
    assert_eq!(pressed(line("1.5"), "."), line("1.5"));
    assert_eq!(pressed(line("1.5 + 2"), "."), line("1.5 + 2."));
    assert_eq!(pressed(line("1.5 + 2.5"), "."), line("1.5 + 2.5"));
    assert_eq!(pressed(line("1.5 + "), "."), line("1.5 + ."));
    assert_eq!(pressed(line("(1.5"), "."), line("(1.5"));
    assert_eq!(pressed(line("1.5)"), "."), line("1.5)."));
    assert_eq!(pressed(line("1.5%"), "."), line("1.5%"));
    assert_eq!(pressed(line(""), "."), line("."));
    assert_eq!(pressed(result("8"), "."), result("8."));
}

#[test]
fn clear_brings_the_zero_back() {
    let mut readout = line("5 + 3");
    assert_eq!(readout.press("C"), Effect::Cleared);
    assert_eq!(readout, line("0"));
    assert_eq!(pressed(result("8"), "C"), line("0"));
}

#[test]
fn the_sign_goes_in_front_of_the_last_digits() {
    assert_eq!(pressed(line("5"), "+/-"), line("-5"));
    assert_eq!(pressed(line("0"), "+/-"), line("0"));
    assert_eq!(pressed(line("1.5"), "+/-"), line("-1.5"));
    assert_eq!(pressed(line("5 + 3"), "+/-"), line("5 + -3"));
    assert_eq!(pressed(line("5 + "), "+/-"), line("5 + -"));
    assert_eq!(pressed(line("(12"), "+/-"), line("(-12"));
    assert_eq!(pressed(line("-5"), "+/-"), line("--5"));
    assert_eq!(pressed(line("5%"), "+/-"), line("5%-"));
    assert_eq!(pressed(line(""), "+/-"), line("-"));
    assert_eq!(pressed(line("00"), "+/-"), line("-00"));
    assert_eq!(pressed(result("8"), "+/-"), result("-8"));
    assert_eq!(pressed(line("2\u{d7}3"), "+/-"), line("2\u{d7}-3"));
}

#[test]
fn percent_follows_a_digit_or_a_closing_parenthesis() {
    assert_eq!(pressed(line("10"), "%"), line("10%"));
    assert_eq!(pressed(line("(1 + 2)"), "%"), line("(1 + 2)%"));
    assert_eq!(pressed(line("0"), "%"), line("0%"));
    assert_eq!(pressed(line("10%"), "%"), line("10%"));
    assert_eq!(pressed(line("5 + "), "%"), line("5 + "));
    assert_eq!(pressed(line("5."), "%"), line("5."));
    assert_eq!(pressed(line("("), "%"), line("("));
    assert_eq!(pressed(line(""), "%"), line(""));
    assert_eq!(pressed(result("8"), "%"), result("8%"));
}

#[test]
fn operators_stand_between_spaces() {
    assert_eq!(pressed(line("5"), "+"), line("5 + "));
    assert_eq!(pressed(line("5 + "), "-"), line("5 + - "));
    assert_eq!(pressed(line("  5 * 2\t"), "/"), line("5 * 2 / "));
    assert_eq!(pressed(line("0"), "^"), line("0 ^ "));
    assert_eq!(pressed(line(""), "*"), line(" * "));
    assert_eq!(pressed(line(" \u{a0}\u{3000} "), "*"), line(" * "));
    assert_eq!(pressed(line("\u{2003}7\u{85}"), "-"), line("7 - "));
    assert_eq!(pressed(result("8"), "+"), line("8 + "));
}

#[test]
fn equals_asks_for_the_value() {
    let mut readout = line("5 + 3");
    assert_eq!(readout.press("="), Effect::Evaluate);
    assert_eq!(readout, line("5 + 3"));
    readout.show(String::from("8"));
    assert_eq!(readout, result("8"));
}

#[test]
fn what_is_no_key_changes_nothing() {
    let mut readout = line("5 + 3");
    assert_eq!(readout.press("x"), Effect::Nothing);
    assert_eq!(readout.press(""), Effect::Nothing);
    assert_eq!(readout.press("12"), Effect::Nothing);
    assert_eq!(readout.press("7"), Effect::Nothing);
    assert_eq!(readout, line("5 + 37"));
}

#[test]
fn backspace_takes_the_last_character() {
    assert_eq!(erased(line("123")), line("12"));
    assert_eq!(erased(line("12")), line("1"));
    assert_eq!(erased(line("1")), line("0"));
    assert_eq!(erased(line("")), line("0"));
    assert_eq!(erased(line("0")), line("0"));
    assert_eq!(erased(line("5 + 3")), line("5 + "));
}

#[test]
fn backspace_takes_an_operator_with_the_space_behind_it() {
    assert_eq!(erased(line("5 + ")), line("5 "));
    assert_eq!(erased(line("5 ")), line(""));
    assert_eq!(erased(line("  ")), line(""));
    assert_eq!(erased(line(" ")), line("0"));
}

#[test]
fn backspace_clears_a_result() {
    assert_eq!(erased(result("8")), line("0"));
    assert_eq!(erased(result("Division by zero")), line("0"));
    assert_eq!(erased(result("")), line("0"));
}

#[test]
fn backspace_counts_bytes() {
    assert_eq!(erased(line("\u{e9}")), line(""));
    assert_eq!(erased(line("a\u{e9}")), line("a"));
}

#[test]
fn white_space_of_unicode() {
    for c in [
        '\t', '\n', '\u{b}', '\u{c}', '\r', ' ', '\u{85}', '\u{a0}', '\u{1680}', '\u{2000}',
        '\u{2005}', '\u{200a}', '\u{2028}', '\u{2029}', '\u{202f}', '\u{205f}', '\u{3000}',
    ] {
        assert!(is_white_space_char(c), "{:?}", c);
        assert!(c.is_whitespace(), "{:?}", c);
    }
    for c in ['\u{8}', '\u{e}', '0', 'a', '\u{200b}', '\u{180e}', '\u{2060}', '\u{feff}', '\u{1f}'] {
        assert!(!is_white_space_char(c), "{:?}", c);
        assert!(!c.is_whitespace(), "{:?}", c);
    }
}

#[test]
fn an_expression_is_typed_key_by_key() {
    assert_eq!(typed(&["2", "0", "0", "+", "1", "0", "%"]), line("200 + 10%"));
    assert_eq!(typed(&["(", "5", "+", "2", ")", "*", "3"]), line("(5 + 2) * 3"));
    assert_eq!(typed(&["1", ".", "5", ".", "+", ".", "5"]), line("1.5 + .5"));
    assert_eq!(typed(&["1", "0", "*", "2", "+/-"]), line("10 * -2"));
    assert_eq!(typed(&["7", "C", "8"]), line("8"));
}
