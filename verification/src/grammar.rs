//! What an expression means, and that the controller gets it right.
//!
//! The controller is described by what it does with each token.  This module
//! says what comes out of it on the expressions of this grammar:
//!
//! ```text
//! expr   := term (binop term)*
//! term   := number | '(' expr ')'
//! number := ['-'] digits ['%']
//! binop  := '+' | '-' | '*' | '/' | '^'
//! ```
//!
//! An [`Expr`] is such an expression, grouped as binding strength and
//! grouping to the left demand.  Its program is its postfix form
//! ([`Expr::postfix`]), and [`lemma_expression_compiles`] proves that this is
//! the program that the library gives to every way of writing it down.
use crate::decimal::{
    all_are, fixed_point, is_digits, is_whole_number, lemma_strip_fixed_point,
    lemma_without_trailing, rendered, without_trailing, Shape,
};
use crate::error::ErrorKind;
use crate::evaluator::{lemma_quotient_by_zero, may_read, may_yield, Arithmetic};
use crate::lexer::{
    is_digit, is_negated, is_number, is_numeral_char, is_space, numeral_end, significant,
    TokenView,
};
use crate::compiler::{program_of, run};
use crate::machine::{scale_behind, Pending, State};
use crate::operator::Operator;
use crate::program::{InstrView, ProgramView, Scale};
use vstd::prelude::*;

verus! {

/// An expression, as a tree.
pub enum Expr {
    /// A numeral, with or without a percent sign behind it.
    Number { text: Seq<char>, percent: bool },
    /// An expression in parentheses.
    Group(Box<Expr>),
    /// Two expressions with an operator between them.
    Binary { operator: Operator, left: Box<Expr>, right: Box<Expr> },
}

impl Expr {
    /// How tightly the expression holds together: as tightly as its
    /// operator, if it is made with one, and tighter than any operator
    /// otherwise.
    pub open spec fn level(self) -> u8 {
        match self {
            Expr::Binary { operator, .. } => operator.spec_precedence(),
            _ => 4,
        }
    }

    /// Whether the tree is grouped as its text is read: every numeral is a
    /// decimal number, the left operand of an operator binds at least as
    /// tightly as the operator (equal strength groups to the left), and the
    /// right operand binds tighter.
    pub open spec fn well_formed(self) -> bool
        decreases self,
    {
        match self {
            Expr::Number { text, .. } => is_number(text),
            Expr::Group(inner) => inner.well_formed(),
            Expr::Binary { operator, left, right } => {
                &&& left.well_formed()
                &&& right.well_formed()
                &&& left.level() >= operator.spec_precedence()
                &&& right.level() > operator.spec_precedence()
            },
        }
    }

    /// The expression written down without white space.
    pub open spec fn spelling(self) -> Seq<char>
        decreases self,
    {
        match self {
            Expr::Number { text, percent } => if percent {
                text.push('%')
            } else {
                text
            },
            Expr::Group(inner) => seq!['('] + inner.spelling() + seq![')'],
            Expr::Binary { operator, left, right } => left.spelling() + seq![
                operator.spec_symbol(),
            ] + right.spelling(),
        }
    }

    /// The postfix form of the expression, when `before` is the operator
    /// that stands directly in front of it: the left operand, the right
    /// operand, then the operator.  Parentheses leave no trace but the
    /// order.  A numeral with a percent sign takes its scale from the
    /// operator directly in front of it.
    pub open spec fn postfix(self, before: Option<Operator>) -> Seq<InstrView>
        decreases self,
    {
        match self {
            Expr::Number { text, percent } => seq![
                InstrView::Push { text, scale: scale_behind(before, text, percent) },
            ],
            Expr::Group(inner) => inner.postfix(None),
            Expr::Binary { operator, left, right } => left.postfix(before) + right.postfix(
                Some(operator),
            ) + seq![InstrView::Apply(operator)],
        }
    }

    /// The state of the controller after the tokens of the expression.
    pub open spec fn after(self, state: State) -> State
        decreases self,
    {
        match self {
            Expr::Number { text, percent } => state.accept(TokenView::Number { text, percent }),
            Expr::Group(inner) => inner.after(state.accept(TokenView::LeftParen)).accept(
                TokenView::RightParen,
            ),
            Expr::Binary { operator, left, right } => right.after(
                left.after(state).accept(TokenView::Operator(operator)),
            ),
        }
    }

    /// A stopped controller reads no expression.
    pub proof fn lemma_after_failure(self, state: State)
        requires
            state.failure is Some,
        ensures
            self.after(state) == state,
        decreases self,
    {
        match self {
            Expr::Number { .. } => {},
            Expr::Group(inner) => {
                inner.lemma_after_failure(state);
            },
            Expr::Binary { operator, left, right } => {
                left.lemma_after_failure(state);
                right.lemma_after_failure(state);
            },
        }
    }

    /// What the controller has made of a well-formed expression once the
    /// operators that the expression left waiting are put out: the postfix
    /// form of the expression behind what was put out before, one operand
    /// more on the stack, and the operator stack as it was.  This holds
    /// wherever the expression may stand: where the operator that waits in
    /// front of it, if there is one, binds less tightly than `level` and has
    /// its left operand.
    pub proof fn lemma_after_unwind(self, state: State, level: u8)
        requires
            self.well_formed(),
            state.failure is None,
            1 <= level <= self.level(),
            state.top_operator() matches Some(top) ==> top.spec_precedence() < level && state.depth
                >= 1,
        ensures
            self.after(state).unwind(level) == (State {
                pending: state.pending,
                depth: state.depth + 1,
                code: state.code + self.postfix(state.top_operator()),
                operand_expected: false,
                failure: None,
            }),
            self.after(state).failure is None,
        decreases self,
    {
        let goal = State {
            pending: state.pending,
            depth: state.depth + 1,
            code: state.code + self.postfix(state.top_operator()),
            operand_expected: false,
            failure: None,
        };
        match self {
            Expr::Number { text, percent } => {
                let pushed = self.after(state);
                assert(pushed.code =~= goal.code);
                assert(pushed.top_operator() == state.top_operator());
                assert(pushed.unwind(level) == pushed);
            },
            Expr::Group(inner) => {
                let opened = state.accept(TokenView::LeftParen);
                assert(opened.top_operator() is None);
                inner.lemma_after_unwind(opened, 1);
                let closed = inner.after(opened).accept(TokenView::RightParen);
                assert(opened.pending.drop_last() =~= state.pending);
                assert(closed == goal);
                assert(closed.top_operator() == state.top_operator());
                assert(closed.unwind(level) == closed);
            },
            Expr::Binary { operator, left, right } => {
                let strength = operator.spec_precedence();
                left.lemma_after_unwind(state, strength);
                let waiting = left.after(state).accept(TokenView::Operator(operator));
                assert(waiting.pending.last() == Pending::Operator(operator));
                assert(waiting.top_operator() == Some(operator));
                right.lemma_after_unwind(waiting, (strength + 1) as u8);
                let read = right.after(waiting);
                let complete = read.unwind((strength + 1) as u8);
                lemma_unwind_twice(read, (strength + 1) as u8, level);
                let applied = complete.apply_top();
                assert(complete.top_operator() == Some(operator));
                assert(applied.pending =~= state.pending);
                assert(applied.code =~= goal.code);
                assert(applied == goal);
                assert(applied.top_operator() == state.top_operator());
                assert(applied.unwind(level) == applied);
                assert(complete.unwind(level) == applied);
            },
        }
    }

    /// Reading the spelling of a well-formed expression, wherever it stands
    /// in a text, is reading its tokens, provided that an operand is
    /// expected there and that the expression ends where the text ends, a
    /// parenthesis closes or an operator follows.  Behind it an operator is
    /// expected.
    pub proof fn lemma_run_spelling(self, chars: Seq<char>, at: int, state: State)
        requires
            self.well_formed(),
            0 <= at,
            at + self.spelling().len() <= chars.len(),
            chars.subrange(at, at + self.spelling().len()) == self.spelling(),
            ends_term(chars, at + self.spelling().len()),
            state.failure is None ==> state.operand_expected,
        ensures
            run(chars, at, state) == run(chars, at + self.spelling().len(), self.after(state)),
            self.after(state).failure is None ==> !self.after(state).operand_expected,
        decreases self,
    {
        let end = at + self.spelling().len();
        let spelled = chars.subrange(at, end);
        if state.failure is Some {
            self.lemma_after_failure(state);
        } else {
            match self {
                Expr::Number { text, percent } => {
                    let stop = at + text.len();
                    assert(text.len() > 0);
                    assert forall|i: int| 0 <= i < text.len() implies chars[at + i] == text[i] by {
                        assert(spelled[i] == chars[at + i]);
                    }
                    assert(chars[at] == text[0]);
                    if percent {
                        assert(spelled[text.len() as int] == '%');
                    }
                    assert forall|i: int| at + 1 <= i < stop implies is_numeral_char(
                        #[trigger] chars[i],
                    ) by {
                        assert(is_numeral_char(text[i - at]));
                    }
                    lemma_numeral_run(chars, at + 1, stop);
                    assert(chars.subrange(at, stop) =~= text);
                },
                Expr::Group(inner) => {
                    let close = end - 1;
                    assert(spelled[0] == '(');
                    assert(spelled[close - at] == ')');
                    let opened = state.accept(TokenView::LeftParen);
                    assert(chars.subrange(at + 1, close) =~= inner.spelling()) by {
                        assert forall|i: int| 0 <= i < inner.spelling().len() implies chars[at + 1
                            + i] == inner.spelling()[i] by {
                            assert(spelled[i + 1] == chars[at + 1 + i]);
                        }
                    }
                    inner.lemma_run_spelling(chars, at + 1, opened);
                    let read = inner.after(opened);
                    if read.failure is Some {
                        assert(run(chars, close, read) == read);
                        assert(run(chars, end, read) == read);
                    }
                },
                Expr::Binary { operator, left, right } => {
                    let sign = at + left.spelling().len();
                    assert(spelled[sign - at] == operator.spec_symbol());
                    assert(chars.subrange(at, sign) =~= left.spelling()) by {
                        assert forall|i: int| 0 <= i < left.spelling().len() implies chars[at + i]
                            == left.spelling()[i] by {
                            assert(spelled[i] == chars[at + i]);
                        }
                    }
                    assert(chars.subrange(sign + 1, end) =~= right.spelling()) by {
                        assert forall|i: int| 0 <= i < right.spelling().len() implies chars[sign
                            + 1 + i] == right.spelling()[i] by {
                            assert(spelled[sign + 1 - at + i] == chars[sign + 1 + i]);
                        }
                    }
                    left.lemma_run_spelling(chars, at, state);
                    let read = left.after(state);
                    let waiting = read.accept(TokenView::Operator(operator));
                    if read.failure is Some {
                        right.lemma_after_failure(read);
                        assert(run(chars, sign, read) == read);
                        assert(run(chars, end, read) == read);
                    } else if waiting.failure is Some {
                        right.lemma_after_failure(waiting);
                        assert(run(chars, sign + 1, waiting) == waiting);
                        assert(run(chars, end, waiting) == waiting);
                    } else {
                        right.lemma_run_spelling(chars, sign + 1, waiting);
                    }
                },
            }
        }
    }
}

/// Whether a term may end in front of position `at` of `chars`: the text
/// ends there, a parenthesis closes, or an operator follows.
pub open spec fn ends_term(chars: Seq<char>, at: int) -> bool {
    at >= chars.len() || chars[at] == ')' || Operator::spec_from_symbol(chars[at]) is Ok
}

/// A run of digits and decimal points ends where the first other character
/// stands.
pub proof fn lemma_numeral_run(chars: Seq<char>, from: int, to: int)
    requires
        0 <= from <= to <= chars.len(),
        forall|i: int| from <= i < to ==> is_numeral_char(#[trigger] chars[i]),
        to < chars.len() ==> !is_numeral_char(chars[to]),
    ensures
        numeral_end(chars, from) == to,
    decreases to - from,
{
    if from < to {
        lemma_numeral_run(chars, from + 1, to);
    }
}

/// Unwinding to a level after unwinding to a higher one is unwinding to the
/// level at once.
pub proof fn lemma_unwind_twice(state: State, high: u8, low: u8)
    requires
        low <= high,
    ensures
        state.unwind(high).unwind(low) == state.unwind(low),
    decreases state.pending.len(),
{
    if state.failure is None && state.top_operator() is Some
        && state.top_operator().unwrap().spec_precedence() >= high {
        let applied = state.apply_top();
        if applied.failure is None {
            lemma_unwind_twice(applied, high, low);
        }
    }
}

/// The library gives every well-formed expression its postfix form, and no
/// error, however the expression is spaced out.
pub proof fn lemma_expression_compiles(expression: Expr, text: Seq<char>)
    requires
        expression.well_formed(),
        significant(text) == expression.spelling(),
    ensures
        program_of(text) == (ProgramView {
            code: expression.postfix(None),
            outcome: Ok(()),
        }),
{
    let chars = expression.spelling();
    let start = State::initial();
    assert(chars.subrange(0, chars.len() as int) =~= chars);
    expression.lemma_run_spelling(chars, 0, start);
    expression.lemma_after_unwind(start, 1);
    let read = expression.after(start);
    assert(run(chars, chars.len() as int, read) == read);
    assert(start.code + expression.postfix(None) =~= expression.postfix(None));
}

/// A numeral as an expression.
pub open spec fn numeral(text: Seq<char>) -> Expr {
    Expr::Number { text, percent: false }
}

/// A numeral as a step of a program.
pub open spec fn push(text: Seq<char>) -> InstrView {
    InstrView::Push { text, scale: Scale::Unit }
}

/// Of two operators in a row the first goes first, so that operators of
/// equal strength group to the left, unless the second binds tighter: in
/// `8 - 3 - 2` the first subtraction is made first, in `5 + 2 * 3` the
/// multiplication.
pub proof fn lemma_two_operators(
    a: Seq<char>,
    first: Operator,
    b: Seq<char>,
    second: Operator,
    c: Seq<char>,
    text: Seq<char>,
)
    requires
        is_number(a),
        is_number(b),
        is_number(c),
        significant(text) == a + seq![first.spec_symbol()] + b + seq![second.spec_symbol()] + c,
    ensures
        program_of(text) == (ProgramView {
            code: if second.spec_precedence() > first.spec_precedence() {
                seq![
                    push(a),
                    push(b),
                    push(c),
                    InstrView::Apply(second),
                    InstrView::Apply(first),
                ]
            } else {
                seq![
                    push(a),
                    push(b),
                    InstrView::Apply(first),
                    push(c),
                    InstrView::Apply(second),
                ]
            },
            outcome: Ok(()),
        }),
{
    reveal_with_fuel(Expr::well_formed, 3);
    reveal_with_fuel(Expr::spelling, 3);
    reveal_with_fuel(Expr::postfix, 3);
    let tree = if second.spec_precedence() > first.spec_precedence() {
        Expr::Binary {
            operator: first,
            left: Box::new(numeral(a)),
            right: Box::new(
                Expr::Binary {
                    operator: second,
                    left: Box::new(numeral(b)),
                    right: Box::new(numeral(c)),
                },
            ),
        }
    } else {
        Expr::Binary {
            operator: second,
            left: Box::new(
                Expr::Binary {
                    operator: first,
                    left: Box::new(numeral(a)),
                    right: Box::new(numeral(b)),
                },
            ),
            right: Box::new(numeral(c)),
        }
    };
    assert(tree.well_formed());
    assert(tree.spelling() =~= significant(text));
    lemma_expression_compiles(tree, text);
    if second.spec_precedence() > first.spec_precedence() {
        assert(tree.postfix(None) =~= seq![
            push(a),
            push(b),
            push(c),
            InstrView::Apply(second),
            InstrView::Apply(first),
        ]);
    } else {
        assert(tree.postfix(None) =~= seq![
            push(a),
            push(b),
            InstrView::Apply(first),
            push(c),
            InstrView::Apply(second),
        ]);
    }
}

/// What stands in parentheses goes first, whatever the operators: in
/// `(5 + 2) * 3` the addition.
pub proof fn lemma_parentheses_first(
    a: Seq<char>,
    inner: Operator,
    b: Seq<char>,
    outer: Operator,
    c: Seq<char>,
    text: Seq<char>,
)
    requires
        is_number(a),
        is_number(b),
        is_number(c),
        significant(text) == seq!['('] + a + seq![inner.spec_symbol()] + b + seq![')'] + seq![
            outer.spec_symbol(),
        ] + c,
    ensures
        program_of(text) == (ProgramView {
            code: seq![
                push(a),
                push(b),
                InstrView::Apply(inner),
                push(c),
                InstrView::Apply(outer),
            ],
            outcome: Ok(()),
        }),
{
    reveal_with_fuel(Expr::well_formed, 2);
    reveal_with_fuel(Expr::spelling, 2);
    reveal_with_fuel(Expr::postfix, 2);
    let sum = Expr::Binary {
        operator: inner,
        left: Box::new(numeral(a)),
        right: Box::new(numeral(b)),
    };
    let group = Expr::Group(Box::new(sum));
    let tree = Expr::Binary { operator: outer, left: Box::new(group), right: Box::new(numeral(c)) };
    assert(sum.well_formed());
    assert(sum.spelling() =~= a + seq![inner.spec_symbol()] + b);
    assert(sum.postfix(None) =~= seq![push(a), push(b), InstrView::Apply(inner)]);
    assert(group.well_formed());
    assert(group.spelling() =~= seq!['('] + a + seq![inner.spec_symbol()] + b + seq![')']);
    assert(group.postfix(None) == sum.postfix(None));
    assert(tree.well_formed());
    assert(tree.spelling() =~= significant(text));
    lemma_expression_compiles(tree, text);
    assert(tree.postfix(None) =~= seq![
        push(a),
        push(b),
        InstrView::Apply(inner),
        push(c),
        InstrView::Apply(outer),
    ]);
}

/// A percentage behind `+` or `-` is taken of the operand in front of the
/// operator, as in `200 + 10%`; behind another operator it is a hundredth,
/// as in `100 * 50%`, and so it is where the numeral has a minus sign of its
/// own.
pub proof fn lemma_percent_behind_operator(
    a: Seq<char>,
    operator: Operator,
    b: Seq<char>,
    text: Seq<char>,
)
    requires
        is_number(a),
        is_number(b),
        significant(text) == a + seq![operator.spec_symbol()] + b + seq!['%'],
    ensures
        program_of(text) == (ProgramView {
            code: seq![
                push(a),
                InstrView::Push {
                    text: b,
                    scale: if operator.spec_is_additive() && !is_negated(b) {
                        Scale::PercentOfTop
                    } else {
                        Scale::Percent
                    },
                },
                InstrView::Apply(operator),
            ],
            outcome: Ok(()),
        }),
{
    reveal_with_fuel(Expr::well_formed, 3);
    reveal_with_fuel(Expr::spelling, 3);
    reveal_with_fuel(Expr::postfix, 3);
    let tree = Expr::Binary {
        operator,
        left: Box::new(numeral(a)),
        right: Box::new(Expr::Number { text: b, percent: true }),
    };
    assert(tree.well_formed());
    assert(tree.spelling() =~= significant(text));
    lemma_expression_compiles(tree, text);
    assert(tree.postfix(None) =~= seq![
        push(a),
        InstrView::Push { text: b, scale: scale_behind(Some(operator), b, true) },
        InstrView::Apply(operator),
    ]);
}

/// A minus sign behind an operator belongs to the numeral behind it, as in
/// `10 * -2`.
pub proof fn lemma_minus_behind_operator(
    a: Seq<char>,
    operator: Operator,
    b: Seq<char>,
    text: Seq<char>,
)
    requires
        is_number(a),
        is_number(b),
        !is_negated(b),
        significant(text) == a + seq![operator.spec_symbol()] + seq!['-'] + b,
    ensures
        is_number(seq!['-'] + b),
        program_of(text) == (ProgramView {
            code: seq![push(a), push(seq!['-'] + b), InstrView::Apply(operator)],
            outcome: Ok(()),
        }),
{
    reveal_with_fuel(Expr::well_formed, 3);
    reveal_with_fuel(Expr::spelling, 3);
    reveal_with_fuel(Expr::postfix, 3);
    let signed = seq!['-'] + b;
    assert(is_number(signed)) by {
        let digit = choose|i: int| 0 <= i < b.len() && is_digit(#[trigger] b[i]);
        assert(signed[digit + 1] == b[digit]);
        assert forall|i: int| 1 <= i < signed.len() implies is_numeral_char(
            #[trigger] signed[i],
        ) by {
            assert(signed[i] == b[i - 1]);
            assert(is_numeral_char(b[i - 1]));
        }
        assert forall|i: int, j: int|
            #![trigger signed[i], signed[j]]
            1 <= i < j < signed.len() implies !(signed[i] == '.' && signed[j] == '.') by {
            assert(signed[i] == b[i - 1] && signed[j] == b[j - 1]);
        }
    }
    let tree = Expr::Binary {
        operator,
        left: Box::new(numeral(a)),
        right: Box::new(numeral(signed)),
    };
    assert(tree.well_formed());
    assert(tree.spelling() =~= significant(text));
    lemma_expression_compiles(tree, text);
    assert(tree.postfix(None) =~= seq![push(a), push(signed), InstrView::Apply(operator)]);
}

/// A division by a numeral that reads as zero has no value: the error
/// [`ErrorKind::DivisionByZero`] is a result that the expression may give,
/// which makes it the result where the arithmetic is a matter of its
/// arguments alone.
pub proof fn lemma_division_by_zero<V, N, Z, C>(
    a: Seq<char>,
    b: Seq<char>,
    text: Seq<char>,
    arithmetic: Arithmetic<N, Z, C>,
    dividend: V,
    divisor: V,
) where
    N: Fn(&Vec<char>) -> Result<V, ErrorKind>,
    Z: Fn(V) -> bool,
    C: Fn(Operator, V, V) -> V,

    requires
        is_number(a),
        is_number(b),
        significant(text) == a + seq!['/'] + b,
        may_read(arithmetic, a, Ok::<V, ErrorKind>(dividend)),
        may_read(arithmetic, b, Ok::<V, ErrorKind>(divisor)),
        call_ensures(arithmetic.is_zero, (divisor,), true),
    ensures
        may_yield(
            program_of(text),
            arithmetic,
            Err::<V, ErrorKind>(ErrorKind::DivisionByZero),
        ),
{
    let tree = Expr::Binary {
        operator: Operator::Divide,
        left: Box::new(numeral(a)),
        right: Box::new(numeral(b)),
    };
    let code = seq![push(a), push(b), InstrView::Apply(Operator::Divide)];
    assert(program_of(text).code == code && program_of(text).outcome is Ok) by {
        reveal_with_fuel(Expr::well_formed, 2);
        reveal_with_fuel(Expr::spelling, 2);
        reveal_with_fuel(Expr::postfix, 2);
        assert(tree.well_formed());
        assert(tree.spelling() =~= significant(text));
        lemma_expression_compiles(tree, text);
        assert(tree.postfix(None) =~= code);
    }
    lemma_quotient_by_zero(a, b, arithmetic, dividend, divisor);
}

/// A percentage by itself is a hundredth, as in `50%`.
pub proof fn lemma_percent_alone(a: Seq<char>, text: Seq<char>)
    requires
        is_number(a),
        significant(text) == a.push('%'),
    ensures
        program_of(text) == (ProgramView {
            code: seq![InstrView::Push { text: a, scale: Scale::Percent }],
            outcome: Ok(()),
        }),
{
    lemma_expression_compiles(Expr::Number { text: a, percent: true }, text);
}

/// Text without white space has nothing to lose.
pub proof fn lemma_significant_all(text: Seq<char>)
    requires
        forall|i: int| 0 <= i < text.len() ==> !is_space(#[trigger] text[i]),
    ensures
        significant(text) == text,
    decreases text.len(),
{
    reveal(Seq::filter);
    if text.len() > 0 {
        lemma_significant_all(text.drop_last());
        assert(text.drop_last().push(text.last()) =~= text);
    }
}

/// A numeral by itself is an expression: its program puts its number on the
/// stack, and that is all.
pub proof fn lemma_numeral_compiles(text: Seq<char>)
    requires
        is_number(text),
    ensures
        program_of(text) == (ProgramView {
            code: seq![InstrView::Push { text, scale: Scale::Unit }],
            outcome: Ok(()),
        }),
{
    assert forall|i: int| 0 <= i < text.len() implies !is_space(#[trigger] text[i]) by {
        if i == 0 && is_negated(text) {
        } else {
            assert(is_numeral_char(text[i]));
        }
    }
    lemma_significant_all(text);
    lemma_expression_compiles(Expr::Number { text, percent: false }, text);
}

/// What the display shows of a number is a numeral, so that it can be
/// evaluated in its turn: its program puts that one number on the stack.
pub proof fn lemma_rendered_compiles(shape: Shape, whole: Seq<char>, fraction: Seq<char>)
    requires
        shape != Shape::NotANumber,
        is_whole_number(whole),
        is_digits(fraction),
    ensures
        is_number(rendered(shape, fixed_point(shape, whole, fraction))),
        program_of(rendered(shape, fixed_point(shape, whole, fraction))) == (ProgramView {
            code: seq![
                InstrView::Push {
                    text: rendered(shape, fixed_point(shape, whole, fraction)),
                    scale: Scale::Unit,
                },
            ],
            outcome: Ok(()),
        }),
{
    let shown = rendered(shape, fixed_point(shape, whole, fraction));
    let start: int = if is_negated(whole) { 1 } else { 0 };
    assert(is_digit(whole[start]));
    if shape == Shape::Whole {
        assert(is_number(whole));
    } else {
        assert(whole.last() != '.') by {
            assert(is_digit(whole[whole.len() - 1]));
        }
        lemma_strip_fixed_point(whole, fraction);
        if all_are(fraction, '0') {
            assert(is_number(whole));
        } else {
            lemma_without_trailing(fraction, '0');
            let digits = without_trailing(fraction, '0');
            assert(digits == fraction.take(digits.len() as int));
            assert(shown == whole + seq!['.'] + digits);
            assert(is_negated(shown) == is_negated(whole));
            assert(shown[start] == whole[start]);
            assert forall|i: int| start <= i < shown.len() implies is_numeral_char(
                #[trigger] shown[i],
            ) by {
                if i < whole.len() {
                    assert(shown[i] == whole[i]);
                } else if i > whole.len() {
                    assert(shown[i] == fraction[i - whole.len() - 1]);
                }
            }
            assert forall|i: int, j: int|
                #![trigger shown[i], shown[j]]
                start <= i < j < shown.len() implies !(shown[i] == '.' && shown[j] == '.') by {
                if i < whole.len() {
                    assert(shown[i] == whole[i]);
                    assert(is_digit(whole[i]));
                } else if j > whole.len() {
                    assert(shown[j] == fraction[j - whole.len() - 1]);
                }
            }
            assert(is_number(shown));
        }
    }
    lemma_numeral_compiles(shown);
}

} // verus!
