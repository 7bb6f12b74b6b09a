//! From characters to tokens.
//!
//! White space carries no meaning anywhere in an expression, not even inside
//! a numeral, so it is removed first ([`significant_chars`]).  The tokenizer
//! then works on what is left, one token per call ([`next_token`]).
use crate::error::ErrorKind;
use crate::operator::Operator;
use vstd::prelude::*;

verus! {

/// The white space of ASCII: the space, and the five characters from the
/// horizontal tab to the carriage return.
pub open spec fn is_space(c: char) -> bool {
    c == ' ' || ('\t' <= c && c <= '\r')
}

/// The ten ASCII digits.
pub open spec fn is_digit(c: char) -> bool {
    '0' <= c && c <= '9'
}

/// The characters a numeral is made of: digits and the decimal point.
pub open spec fn is_numeral_char(c: char) -> bool {
    is_digit(c) || c == '.'
}

/// `text` without its white space, the other characters in their order.
pub open spec fn significant(text: Seq<char>) -> Seq<char> {
    text.filter(|c: char| !is_space(c))
}

/// Where the run of digits and decimal points that covers position `from`
/// ends: the first position at or after `from` that holds neither, or the end
/// of `chars`.
pub open spec fn numeral_end(chars: Seq<char>, from: int) -> int
    decreases chars.len() - from,
{
    if 0 <= from < chars.len() && is_numeral_char(chars[from]) {
        numeral_end(chars, from + 1)
    } else {
        from
    }
}

/// Whether a leading minus sign opens `text`.
pub open spec fn is_negated(text: Seq<char>) -> bool {
    text.len() > 0 && text[0] == '-'
}

/// Whether `text` is a decimal number: an optional minus sign, then digits
/// with at most one decimal point among them, before them or after them, and
/// at least one digit.  So `5`, `-5.`, `.5` and `0.25` are numbers, while
/// `.`, `-`, `1.2.3` and the empty text are not.
pub open spec fn is_number(text: Seq<char>) -> bool {
    let start: int = if is_negated(text) { 1 } else { 0 };
    &&& forall|i: int| start <= i < text.len() ==> is_numeral_char(#[trigger] text[i])
    &&& exists|i: int| start <= i < text.len() && is_digit(#[trigger] text[i])
    &&& forall|i: int, j: int|
        #![trigger text[i], text[j]]
        start <= i < j < text.len() ==> !(text[i] == '.' && text[j] == '.')
}

/// A token as a mathematical value.
pub enum TokenView {
    /// A numeral: its characters, the sign included, and whether a percent
    /// sign follows it directly.
    Number { text: Seq<char>, percent: bool },
    /// One of the five binary operators.
    Operator(Operator),
    /// `(`
    LeftParen,
    /// `)`
    RightParen,
}

/// What stands at a position of an expression, as a mathematical value.
pub enum ScanView {
    /// Nothing: the expression ends here.
    End,
    /// A token, and the position behind it.
    Token { token: TokenView, next: int },
    /// Something that is no token.
    Invalid(ErrorKind),
}

/// The numeral that occupies `chars[start..end]`, with the percent sign that
/// may follow it.
pub open spec fn scan_number(chars: Seq<char>, start: int, end: int) -> ScanView {
    let text = chars.subrange(start, end);
    if !is_number(text) {
        ScanView::Invalid(ErrorKind::InvalidNumber)
    } else if end < chars.len() && chars[end] == '%' {
        ScanView::Token { token: TokenView::Number { text, percent: true }, next: end + 1 }
    } else {
        ScanView::Token { token: TokenView::Number { text, percent: false }, next: end }
    }
}

/// The token that starts at position `at` of `chars`, which hold no white
/// space.
///
/// A digit or a decimal point starts a numeral, which takes in every digit
/// and decimal point that follows.  A minus sign starts a numeral too where
/// an operand is expected (at the start, after an operator, after an opening
/// parenthesis); elsewhere it is the subtraction operator.  A percent sign
/// directly behind a numeral belongs to it; anywhere else it is an invalid
/// character, like every character not named here.
pub open spec fn scan(chars: Seq<char>, at: int, operand_expected: bool) -> ScanView {
    if !(0 <= at < chars.len()) {
        ScanView::End
    } else if is_numeral_char(chars[at]) || (chars[at] == '-' && operand_expected) {
        scan_number(chars, at, numeral_end(chars, at + 1))
    } else if chars[at] == '(' {
        ScanView::Token { token: TokenView::LeftParen, next: at + 1 }
    } else if chars[at] == ')' {
        ScanView::Token { token: TokenView::RightParen, next: at + 1 }
    } else {
        match Operator::spec_from_symbol(chars[at]) {
            Ok(operator) => ScanView::Token { token: TokenView::Operator(operator), next: at + 1 },
            Err(_) => ScanView::Invalid(ErrorKind::InvalidCharacter),
        }
    }
}

/// A run of numeral characters ends at or behind the position where it is
/// entered, and inside the text.
pub proof fn lemma_numeral_end_bounds(chars: Seq<char>, from: int)
    requires
        0 <= from <= chars.len(),
    ensures
        from <= numeral_end(chars, from) <= chars.len(),
    decreases chars.len() - from,
{
    if from < chars.len() && is_numeral_char(chars[from]) {
        lemma_numeral_end_bounds(chars, from + 1);
    }
}

/// A token takes up at least one character, and none behind the end.
pub proof fn lemma_scan_advances(chars: Seq<char>, at: int, operand_expected: bool)
    ensures
        scan(chars, at, operand_expected) matches ScanView::Token { next, .. } ==> at < next
            <= chars.len(),
{
    if 0 <= at < chars.len() {
        lemma_numeral_end_bounds(chars, at + 1);
    }
}

/// A token.
#[derive(Debug, PartialEq, Eq)]
pub enum Token {
    /// A numeral: its characters, the sign included, and whether a percent
    /// sign follows it directly.
    Number { text: Vec<char>, percent: bool },
    /// One of the five binary operators.
    Operator(Operator),
    /// `(`
    LeftParen,
    /// `)`
    RightParen,
}

impl View for Token {
    type V = TokenView;

    open spec fn view(&self) -> TokenView {
        match *self {
            Token::Number { text, percent } => TokenView::Number { text: text@, percent },
            Token::Operator(operator) => TokenView::Operator(operator),
            Token::LeftParen => TokenView::LeftParen,
            Token::RightParen => TokenView::RightParen,
        }
    }
}

/// What [`next_token`] found.
#[derive(Debug, PartialEq, Eq)]
pub enum Scan {
    /// Nothing: the expression ends here.
    End,
    /// A token, and the position behind it.
    Token { token: Token, next: usize },
    /// Something that is no token.
    Invalid(ErrorKind),
}

impl View for Scan {
    type V = ScanView;

    open spec fn view(&self) -> ScanView {
        match *self {
            Scan::End => ScanView::End,
            Scan::Token { token, next } => ScanView::Token { token: token@, next: next as int },
            Scan::Invalid(kind) => ScanView::Invalid(kind),
        }
    }
}

/// Whether `c` is ASCII white space.
pub fn is_space_char(c: char) -> (space: bool)
    ensures
        space == is_space(c),
{
    c == ' ' || ('\t' <= c && c <= '\r')
}

/// Whether `c` is a digit or the decimal point.
pub fn is_numeral_part(c: char) -> (part: bool)
    ensures
        part == is_numeral_char(c),
{
    ('0' <= c && c <= '9') || c == '.'
}

/// The characters of `text`.
pub fn chars_of(text: &str) -> (chars: Vec<char>)
    ensures
        chars@ == text@,
{
    let mut chars: Vec<char> = Vec::new();
    let source = text.chars();
    for c in it: source
        invariant
            it.seq() == text@,
            chars@ == text@.take(it.index()),
    {
        chars.push(c);
        assert(text@.take(it.index() + 1) =~= text@.take(it.index()).push(c));
    }
    assert(text@.take(text@.len() as int) =~= text@);
    chars
}

/// Removes the white space from `text`.
pub fn significant_chars(text: &str) -> (chars: Vec<char>)
    ensures
        chars@ == significant(text@),
{
    let mut chars: Vec<char> = Vec::new();
    let source = text.chars();
    proof {
        reveal(Seq::filter);
        assert(text@.take(0) =~= Seq::<char>::empty());
    }
    for c in it: source
        invariant
            it.seq() == text@,
            chars@ == significant(text@.take(it.index())),
    {
        proof {
            let seen = text@.take(it.index());
            assert(text@.take(it.index() + 1) =~= seen.push(c));
            seen.lemma_filter_push(c, |c: char| !is_space(c));
        }
        if !is_space_char(c) {
            chars.push(c);
        }
    }
    proof {
        assert(text@.take(text@.len() as int) =~= text@);
    }
    chars
}

/// Whether `text` is a decimal number.
pub fn is_decimal_number(text: &Vec<char>) -> (number: bool)
    ensures
        number == is_number(text@),
{
    let start: usize = if text.len() > 0 && text[0] == '-' { 1 } else { 0 };
    let mut digit: Option<usize> = None;
    let mut point: Option<usize> = None;
    let mut i: usize = start;
    while i < text.len()
        invariant
            start <= i <= text.len(),
            start == (if is_negated(text@) { 1int } else { 0int }),
            forall|k: int| start <= k < i ==> is_numeral_char(#[trigger] text@[k]),
            digit matches Some(d) ==> start <= d < i && is_digit(text@[d as int]),
            digit is None ==> forall|k: int| start <= k < i ==> !is_digit(#[trigger] text@[k]),
            point matches Some(p) ==> start <= p < i && text@[p as int] == '.',
            point matches Some(p) ==> forall|k: int|
                start <= k < i && k != p ==> #[trigger] text@[k] != '.',
            point is None ==> forall|k: int| start <= k < i ==> #[trigger] text@[k] != '.',
        decreases text.len() - i,
    {
        let c = text[i];
        if c == '.' {
            if let Some(p) = point {
                assert(text@[p as int] == '.' && text@[i as int] == '.');
                return false;
            }
            point = Some(i);
        } else if '0' <= c && c <= '9' {
            digit = Some(i);
        } else {
            assert(!is_numeral_char(text@[i as int]));
            return false;
        }
        i += 1;
    }
    match digit {
        Some(d) => {
            assert(is_digit(text@[d as int]));
            true
        },
        None => false,
    }
}

/// Reads the token that starts at position `at` of `chars`, which hold no
/// white space.  `operand_expected` says whether a minus sign here would open
/// a numeral.
pub fn next_token(chars: &Vec<char>, at: usize, operand_expected: bool) -> (found: Scan)
    ensures
        found@ == scan(chars@, at as int, operand_expected),
        found matches Scan::Token { next, .. } ==> at < next <= chars.len(),
{
    if at >= chars.len() {
        return Scan::End;
    }
    let c = chars[at];
    if is_numeral_part(c) || (c == '-' && operand_expected) {
        let mut text: Vec<char> = Vec::new();
        text.push(c);
        let mut end: usize = at + 1;
        assert(text@ =~= chars@.subrange(at as int, end as int));
        while end < chars.len() && is_numeral_part(chars[end])
            invariant
                at < end <= chars.len(),
                numeral_end(chars@, end as int) == numeral_end(chars@, at + 1),
                text@ == chars@.subrange(at as int, end as int),
            decreases chars.len() - end,
        {
            text.push(chars[end]);
            end += 1;
            assert(text@ =~= chars@.subrange(at as int, end as int));
        }
        if !is_decimal_number(&text) {
            Scan::Invalid(ErrorKind::InvalidNumber)
        } else if end < chars.len() && chars[end] == '%' {
            Scan::Token { token: Token::Number { text, percent: true }, next: end + 1 }
        } else {
            Scan::Token { token: Token::Number { text, percent: false }, next: end }
        }
    } else if c == '(' {
        Scan::Token { token: Token::LeftParen, next: at + 1 }
    } else if c == ')' {
        Scan::Token { token: Token::RightParen, next: at + 1 }
    } else {
        match Operator::from_symbol(c) {
            Ok(operator) => Scan::Token { token: Token::Operator(operator), next: at + 1 },
            Err(_) => Scan::Invalid(ErrorKind::InvalidCharacter),
        }
    }
}

} // verus!
