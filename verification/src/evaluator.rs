//! Running a program on numbers of the caller's choice.
//!
//! The library knows expressions, not numbers.  Whoever evaluates one brings
//! an [`Arithmetic`] along: how to read a numeral, how to tell zero, and how
//! to combine two numbers by an operator.  The rest is here: the operand
//! stack, the order of the operands, what a percent sign makes of a number,
//! and the refusal to divide by zero.
//!
//! What the functions of an arithmetic return is their business, so the
//! contracts here speak of what they *may* return: an evaluation is right if
//! its result is one that the steps of the program, taken in order on an
//! operand stack, may give.  With functions whose results depend on their
//! arguments alone that is one result ([`lemma_result_unique`]).
use crate::compiler::{compile, program_of};
use crate::error::ErrorKind;
use crate::lexer::{is_digit, is_number};
use crate::operator::Operator;
use crate::program::{
    height, instr_views, lemma_height_prefix, lemma_height_push, only_numbers, Instr, InstrView,
    Program, ProgramView, Scale,
};
use vstd::prelude::*;

verus! {

/// The arithmetic of a number type `V`.
pub struct Arithmetic<N, Z, C> {
    /// Reads a numeral, such as `12.5` or `-3`, as a number.  It is never
    /// asked to read what is no decimal number.  Its type is
    /// `Fn(&Vec<char>) -> Result<V, ErrorKind>`.
    pub number: N,
    /// Tells whether a number is zero, by which nothing can be divided.  Its
    /// type is `Fn(V) -> bool`.
    pub is_zero: Z,
    /// Combines a left and a right operand by an operator: their sum,
    /// difference, product or quotient, or the left one raised to the power
    /// of the right one.  Its type is `Fn(Operator, V, V) -> V`.
    pub combine: C,
}

/// The numeral by which a percentage is divided.
pub open spec fn hundred() -> Seq<char> {
    seq!['1', '0', '0']
}

/// Whether the arithmetic takes whatever an evaluation may hand to it:
/// `number` every decimal number, the others every number.
pub open spec fn total<V, N, Z, C>(arithmetic: Arithmetic<N, Z, C>) -> bool where
    N: Fn(&Vec<char>) -> Result<V, ErrorKind>,
    Z: Fn(V) -> bool,
    C: Fn(Operator, V, V) -> V,
 {
    &&& forall|text: &Vec<char>| is_number(text@) ==> call_requires(arithmetic.number, (text,))
    &&& forall|value: V| call_requires(arithmetic.is_zero, (value,))
    &&& forall|operator: Operator, left: V, right: V|
        call_requires(arithmetic.combine, (operator, left, right))
}

/// Whether the arithmetic is a matter of its arguments alone: the same
/// numeral reads as the same number, and the same numbers give the same
/// answer.
pub open spec fn functional<V, N, Z, C>(arithmetic: Arithmetic<N, Z, C>) -> bool where
    N: Fn(&Vec<char>) -> Result<V, ErrorKind>,
    Z: Fn(V) -> bool,
    C: Fn(Operator, V, V) -> V,
 {
    &&& forall|one: &Vec<char>, other: &Vec<char>, x: Result<V, ErrorKind>, y: Result<V, ErrorKind>|
        one@ == other@ && #[trigger] call_ensures(arithmetic.number, (one,), x)
            && #[trigger] call_ensures(arithmetic.number, (other,), y) ==> x == y
    &&& forall|value: V, x: bool, y: bool| #[trigger]
        call_ensures(arithmetic.is_zero, (value,), x) && #[trigger] call_ensures(
            arithmetic.is_zero,
            (value,),
            y,
        ) ==> x == y
    &&& forall|operator: Operator, left: V, right: V, x: V, y: V| #[trigger]
        call_ensures(arithmetic.combine, (operator, left, right), x) && #[trigger] call_ensures(
            arithmetic.combine,
            (operator, left, right),
            y,
        ) ==> x == y
}

/// Whether `read` is what the numeral `text` may read as.
pub open spec fn may_read<V, N, Z, C>(
    arithmetic: Arithmetic<N, Z, C>,
    text: Seq<char>,
    read: Result<V, ErrorKind>,
) -> bool where
    N: Fn(&Vec<char>) -> Result<V, ErrorKind>,
    Z: Fn(V) -> bool,
    C: Fn(Operator, V, V) -> V,
 {
    exists|literal: Vec<char>|
        literal@ == text && #[trigger] call_ensures(arithmetic.number, (&literal,), read)
}

/// Whether `result` is what the arithmetic may combine `left` and `right`
/// to by `operator`.
pub open spec fn may_combine<V, N, Z, C>(
    arithmetic: Arithmetic<N, Z, C>,
    operator: Operator,
    left: V,
    right: V,
    result: Result<V, ErrorKind>,
) -> bool where
    N: Fn(&Vec<char>) -> Result<V, ErrorKind>,
    Z: Fn(V) -> bool,
    C: Fn(Operator, V, V) -> V,
 {
    result matches Ok(value) && call_ensures(arithmetic.combine, (operator, left, right), value)
}

/// Whether `result` is what may come of `a` divided by `b`, which is zero
/// or not as `zero` says: the error [`ErrorKind::DivisionByZero`] if it is,
/// the quotient if it is not.
pub open spec fn may_divide<V, N, Z, C>(
    arithmetic: Arithmetic<N, Z, C>,
    zero: bool,
    a: V,
    b: V,
    result: Result<V, ErrorKind>,
) -> bool where
    N: Fn(&Vec<char>) -> Result<V, ErrorKind>,
    Z: Fn(V) -> bool,
    C: Fn(Operator, V, V) -> V,
 {
    if zero {
        result == Err::<V, ErrorKind>(ErrorKind::DivisionByZero)
    } else {
        may_combine(arithmetic, Operator::Divide, a, b, result)
    }
}

/// Whether `result` is what the operator with the symbol `op` may make of
/// the left operand `a` and the right operand `b`: the error
/// [`ErrorKind::UnknownOperator`] if there is no such operator, the error
/// [`ErrorKind::DivisionByZero`] if `a` is to be divided by `b` and `b` is
/// zero, and else what the arithmetic combines the two to.
pub open spec fn may_apply<V, N, Z, C>(
    op: char,
    b: V,
    a: V,
    arithmetic: Arithmetic<N, Z, C>,
    result: Result<V, ErrorKind>,
) -> bool where
    N: Fn(&Vec<char>) -> Result<V, ErrorKind>,
    Z: Fn(V) -> bool,
    C: Fn(Operator, V, V) -> V,
 {
    match Operator::spec_from_symbol(op) {
        Err(_) => result == Err::<V, ErrorKind>(ErrorKind::UnknownOperator),
        Ok(operator) => if operator == Operator::Divide {
            exists|zero: bool| #[trigger]
                call_ensures(arithmetic.is_zero, (b,), zero) && may_divide(
                    arithmetic,
                    zero,
                    a,
                    b,
                    result,
                )
        } else {
            may_combine(arithmetic, operator, a, b, result)
        },
    }
}

/// Whether `result` is what may come of combining `left` by `operator`
/// with a right operand that was computed as `right`: the error of that
/// computation, if it ended in one, goes before the combination.
pub open spec fn may_combine_with<V, N, Z, C>(
    arithmetic: Arithmetic<N, Z, C>,
    operator: Operator,
    left: V,
    right: Result<V, ErrorKind>,
    result: Result<V, ErrorKind>,
) -> bool where
    N: Fn(&Vec<char>) -> Result<V, ErrorKind>,
    Z: Fn(V) -> bool,
    C: Fn(Operator, V, V) -> V,
 {
    match right {
        Err(kind) => result == Err::<V, ErrorKind>(kind),
        Ok(value) => may_combine(arithmetic, operator, left, value, result),
    }
}

/// Whether `part` is what a hundredth of `value` may be: `value` divided by
/// what the numeral `100` reads as, or the error of reading it.
pub open spec fn may_be_hundredth<V, N, Z, C>(
    arithmetic: Arithmetic<N, Z, C>,
    value: V,
    part: Result<V, ErrorKind>,
) -> bool where
    N: Fn(&Vec<char>) -> Result<V, ErrorKind>,
    Z: Fn(V) -> bool,
    C: Fn(Operator, V, V) -> V,
 {
    exists|read: Result<V, ErrorKind>| #[trigger]
        may_read(arithmetic, hundred(), read) && may_combine_with(
            arithmetic,
            Operator::Divide,
            value,
            read,
            part,
        )
}

/// Whether `operand` is what a numeral that reads as `value` may put on the
/// stack `stack` at `scale`: the value itself, a hundredth of it, or the
/// operand on top of the stack multiplied by a hundredth of it.
pub open spec fn may_scale<V, N, Z, C>(
    arithmetic: Arithmetic<N, Z, C>,
    value: V,
    scale: Scale,
    stack: Seq<V>,
    operand: Result<V, ErrorKind>,
) -> bool where
    N: Fn(&Vec<char>) -> Result<V, ErrorKind>,
    Z: Fn(V) -> bool,
    C: Fn(Operator, V, V) -> V,
 {
    match scale {
        Scale::Unit => operand == Ok::<V, ErrorKind>(value),
        Scale::Percent => may_be_hundredth(arithmetic, value, operand),
        Scale::PercentOfTop => stack.len() >= 1 && exists|part: Result<V, ErrorKind>| #[trigger]
            may_be_hundredth(arithmetic, value, part) && may_combine_with(
                arithmetic,
                Operator::Multiply,
                stack.last(),
                part,
                operand,
            ),
    }
}

/// Whether `operand` is what a numeral that was read as `read` may put on
/// the stack: the error of the reading, or the number at its scale.
pub open spec fn may_scale_read<V, N, Z, C>(
    arithmetic: Arithmetic<N, Z, C>,
    read: Result<V, ErrorKind>,
    scale: Scale,
    stack: Seq<V>,
    operand: Result<V, ErrorKind>,
) -> bool where
    N: Fn(&Vec<char>) -> Result<V, ErrorKind>,
    Z: Fn(V) -> bool,
    C: Fn(Operator, V, V) -> V,
 {
    match read {
        Err(kind) => operand == Err::<V, ErrorKind>(kind),
        Ok(value) => may_scale(arithmetic, value, scale, stack, operand),
    }
}

/// Whether `operand` is what the numeral `text` may put on the stack
/// `stack` at `scale`.
pub open spec fn may_push<V, N, Z, C>(
    arithmetic: Arithmetic<N, Z, C>,
    text: Seq<char>,
    scale: Scale,
    stack: Seq<V>,
    operand: Result<V, ErrorKind>,
) -> bool where
    N: Fn(&Vec<char>) -> Result<V, ErrorKind>,
    Z: Fn(V) -> bool,
    C: Fn(Operator, V, V) -> V,
 {
    exists|read: Result<V, ErrorKind>| #[trigger]
        may_read(arithmetic, text, read) && may_scale_read(arithmetic, read, scale, stack, operand)
}

/// The stack with one more operand on it, or the error in its place.
pub open spec fn pushed<V>(stack: Seq<V>, operand: Result<V, ErrorKind>) -> Result<
    Seq<V>,
    ErrorKind,
> {
    match operand {
        Err(kind) => Err(kind),
        Ok(value) => Ok(stack.push(value)),
    }
}

/// The stack with its two top operands replaced by one, or the error in its
/// place.
pub open spec fn replaced<V>(stack: Seq<V>, applied: Result<V, ErrorKind>) -> Result<
    Seq<V>,
    ErrorKind,
> {
    match applied {
        Err(kind) => Err(kind),
        Ok(value) => Ok(stack.take(stack.len() - 2).push(value)),
    }
}

/// Whether the push of the numeral `text` at `scale` may turn the operand
/// stack `stack` into the stack that `next` holds, or stop with the error
/// that it holds.
pub open spec fn push_may_give<V, N, Z, C>(
    text: Seq<char>,
    scale: Scale,
    stack: Seq<V>,
    arithmetic: Arithmetic<N, Z, C>,
    next: Result<Seq<V>, ErrorKind>,
) -> bool where
    N: Fn(&Vec<char>) -> Result<V, ErrorKind>,
    Z: Fn(V) -> bool,
    C: Fn(Operator, V, V) -> V,
 {
    exists|operand: Result<V, ErrorKind>| #[trigger]
        may_push(arithmetic, text, scale, stack, operand) && next == pushed(stack, operand)
}

/// Whether the operator may turn the operand stack `stack`, which holds its
/// right operand on top of its left operand, into the stack that `next`
/// holds, or stop with the error that it holds.
pub open spec fn apply_may_give<V, N, Z, C>(
    operator: Operator,
    stack: Seq<V>,
    arithmetic: Arithmetic<N, Z, C>,
    next: Result<Seq<V>, ErrorKind>,
) -> bool where
    N: Fn(&Vec<char>) -> Result<V, ErrorKind>,
    Z: Fn(V) -> bool,
    C: Fn(Operator, V, V) -> V,
 {
    stack.len() >= 2 && exists|applied: Result<V, ErrorKind>| #[trigger]
        may_apply(
            operator.spec_symbol(),
            stack[stack.len() - 1],
            stack[stack.len() - 2],
            arithmetic,
            applied,
        ) && next == replaced(stack, applied)
}

/// Whether one step may turn the operand stack `stack` into the stack that
/// `next` holds, or stop with the error that it holds.
///
/// A push reads its numeral, scales the number, and puts it on the stack.
/// An operator takes the two operands on top, the right one above the left
/// one, and puts what it makes of them in their place.  An error of the
/// arithmetic stops the run.
pub open spec fn step_may_give<V, N, Z, C>(
    instr: InstrView,
    stack: Seq<V>,
    arithmetic: Arithmetic<N, Z, C>,
    next: Result<Seq<V>, ErrorKind>,
) -> bool where
    N: Fn(&Vec<char>) -> Result<V, ErrorKind>,
    Z: Fn(V) -> bool,
    C: Fn(Operator, V, V) -> V,
 {
    match instr {
        InstrView::Push { text, scale } => push_may_give(text, scale, stack, arithmetic, next),
        InstrView::Apply(operator) => apply_may_give(operator, stack, arithmetic, next),
    }
}

/// Whether the steps of `code` from position `at` on may turn the operand
/// stack `stack` into the stack that `end` holds, or stop with the error
/// that it holds.
pub open spec fn may_reach<V, N, Z, C>(
    code: Seq<InstrView>,
    at: int,
    stack: Seq<V>,
    arithmetic: Arithmetic<N, Z, C>,
    end: Result<Seq<V>, ErrorKind>,
) -> bool where
    N: Fn(&Vec<char>) -> Result<V, ErrorKind>,
    Z: Fn(V) -> bool,
    C: Fn(Operator, V, V) -> V,

    decreases code.len() - at,
{
    if at < 0 || at >= code.len() {
        end == Ok::<Seq<V>, ErrorKind>(stack)
    } else {
        exists|next: Result<Seq<V>, ErrorKind>| #[trigger]
            step_may_give(code[at], stack, arithmetic, next) && match next {
                Err(kind) => end == Err::<Seq<V>, ErrorKind>(kind),
                Ok(after) => may_reach(code, at + 1, after, arithmetic, end),
            }
    }
}

/// The result of an expression whose program has run to `end`: an error of
/// the arithmetic comes first, then the error that the program ends with,
/// and where there is neither, the result is the operand on top of the
/// stack.
pub open spec fn verdict<V>(
    outcome: Result<(), ErrorKind>,
    end: Result<Seq<V>, ErrorKind>,
) -> Result<V, ErrorKind> {
    match end {
        Err(kind) => Err(kind),
        Ok(stack) => match outcome {
            Err(kind) => Err(kind),
            Ok(_) => Ok(stack.last()),
        },
    }
}

/// Whether `result` is a result that `program` may give with this
/// arithmetic, run from its first step on an empty stack.
pub open spec fn may_yield<V, N, Z, C>(
    program: ProgramView,
    arithmetic: Arithmetic<N, Z, C>,
    result: Result<V, ErrorKind>,
) -> bool where
    N: Fn(&Vec<char>) -> Result<V, ErrorKind>,
    Z: Fn(V) -> bool,
    C: Fn(Operator, V, V) -> V,
 {
    exists|end: Result<Seq<V>, ErrorKind>| #[trigger]
        may_reach(program.code, 0, Seq::<V>::empty(), arithmetic, end) && result == verdict(
            program.outcome,
            end,
        )
}

/// With arithmetic that is a matter of its arguments alone, a numeral reads
/// as one number.
pub proof fn lemma_read_unique<V, N, Z, C>(
    arithmetic: Arithmetic<N, Z, C>,
    text: Seq<char>,
    one: Result<V, ErrorKind>,
    other: Result<V, ErrorKind>,
) where
    N: Fn(&Vec<char>) -> Result<V, ErrorKind>,
    Z: Fn(V) -> bool,
    C: Fn(Operator, V, V) -> V,

    requires
        functional(arithmetic),
        may_read(arithmetic, text, one),
        may_read(arithmetic, text, other),
    ensures
        one == other,
{
    let first = choose|literal: Vec<char>|
        literal@ == text && #[trigger] call_ensures(arithmetic.number, (&literal,), one);
    let second = choose|literal: Vec<char>|
        literal@ == text && #[trigger] call_ensures(arithmetic.number, (&literal,), other);
    assert(call_ensures(arithmetic.number, (&first,), one));
    assert(call_ensures(arithmetic.number, (&second,), other));
}

/// With arithmetic that is a matter of its arguments alone, an operator
/// makes one thing of its operands.
pub proof fn lemma_apply_unique<V, N, Z, C>(
    op: char,
    b: V,
    a: V,
    arithmetic: Arithmetic<N, Z, C>,
    one: Result<V, ErrorKind>,
    other: Result<V, ErrorKind>,
) where
    N: Fn(&Vec<char>) -> Result<V, ErrorKind>,
    Z: Fn(V) -> bool,
    C: Fn(Operator, V, V) -> V,

    requires
        functional(arithmetic),
        may_apply(op, b, a, arithmetic, one),
        may_apply(op, b, a, arithmetic, other),
    ensures
        one == other,
{
    if Operator::spec_from_symbol(op) == Ok::<Operator, ErrorKind>(Operator::Divide) {
        let first = choose|zero: bool| #[trigger]
            call_ensures(arithmetic.is_zero, (b,), zero) && may_divide(
                arithmetic,
                zero,
                a,
                b,
                one,
            );
        let second = choose|zero: bool| #[trigger]
            call_ensures(arithmetic.is_zero, (b,), zero) && may_divide(
                arithmetic,
                zero,
                a,
                b,
                other,
            );
        assert(first == second);
    }
}

/// With arithmetic that is a matter of its arguments alone, a number has
/// one hundredth.
pub proof fn lemma_hundredth_unique<V, N, Z, C>(
    arithmetic: Arithmetic<N, Z, C>,
    value: V,
    one: Result<V, ErrorKind>,
    other: Result<V, ErrorKind>,
) where
    N: Fn(&Vec<char>) -> Result<V, ErrorKind>,
    Z: Fn(V) -> bool,
    C: Fn(Operator, V, V) -> V,

    requires
        functional(arithmetic),
        may_be_hundredth(arithmetic, value, one),
        may_be_hundredth(arithmetic, value, other),
    ensures
        one == other,
{
    let first = choose|read: Result<V, ErrorKind>| #[trigger]
        may_read(arithmetic, hundred(), read) && may_combine_with(
            arithmetic,
            Operator::Divide,
            value,
            read,
            one,
        );
    let second = choose|read: Result<V, ErrorKind>| #[trigger]
        may_read(arithmetic, hundred(), read) && may_combine_with(
            arithmetic,
            Operator::Divide,
            value,
            read,
            other,
        );
    lemma_read_unique(arithmetic, hundred(), first, second);
}

/// With arithmetic that is a matter of its arguments alone, a number has
/// one value at a scale.
pub proof fn lemma_scale_unique<V, N, Z, C>(
    arithmetic: Arithmetic<N, Z, C>,
    value: V,
    scale: Scale,
    stack: Seq<V>,
    one: Result<V, ErrorKind>,
    other: Result<V, ErrorKind>,
) where
    N: Fn(&Vec<char>) -> Result<V, ErrorKind>,
    Z: Fn(V) -> bool,
    C: Fn(Operator, V, V) -> V,

    requires
        functional(arithmetic),
        may_scale(arithmetic, value, scale, stack, one),
        may_scale(arithmetic, value, scale, stack, other),
    ensures
        one == other,
{
    match scale {
        Scale::Unit => {},
        Scale::Percent => {
            lemma_hundredth_unique(arithmetic, value, one, other);
        },
        Scale::PercentOfTop => {
            let first = choose|part: Result<V, ErrorKind>| #[trigger]
                may_be_hundredth(arithmetic, value, part) && may_combine_with(
                    arithmetic,
                    Operator::Multiply,
                    stack.last(),
                    part,
                    one,
                );
            let second = choose|part: Result<V, ErrorKind>| #[trigger]
                may_be_hundredth(arithmetic, value, part) && may_combine_with(
                    arithmetic,
                    Operator::Multiply,
                    stack.last(),
                    part,
                    other,
                );
            lemma_hundredth_unique(arithmetic, value, first, second);
        },
    }
}

/// With arithmetic that is a matter of its arguments alone, a numeral puts
/// one operand on the stack.
pub proof fn lemma_push_unique<V, N, Z, C>(
    arithmetic: Arithmetic<N, Z, C>,
    text: Seq<char>,
    scale: Scale,
    stack: Seq<V>,
    one: Result<V, ErrorKind>,
    other: Result<V, ErrorKind>,
) where
    N: Fn(&Vec<char>) -> Result<V, ErrorKind>,
    Z: Fn(V) -> bool,
    C: Fn(Operator, V, V) -> V,

    requires
        functional(arithmetic),
        may_push(arithmetic, text, scale, stack, one),
        may_push(arithmetic, text, scale, stack, other),
    ensures
        one == other,
{
    let first = choose|read: Result<V, ErrorKind>| #[trigger]
        may_read(arithmetic, text, read) && may_scale_read(arithmetic, read, scale, stack, one);
    let second = choose|read: Result<V, ErrorKind>| #[trigger]
        may_read(arithmetic, text, read) && may_scale_read(arithmetic, read, scale, stack, other);
    lemma_read_unique(arithmetic, text, first, second);
    if let Ok(value) = first {
        lemma_scale_unique(arithmetic, value, scale, stack, one, other);
    }
}

/// With arithmetic that is a matter of its arguments alone, a step has one
/// outcome.
pub proof fn lemma_step_unique<V, N, Z, C>(
    instr: InstrView,
    stack: Seq<V>,
    arithmetic: Arithmetic<N, Z, C>,
    one: Result<Seq<V>, ErrorKind>,
    other: Result<Seq<V>, ErrorKind>,
) where
    N: Fn(&Vec<char>) -> Result<V, ErrorKind>,
    Z: Fn(V) -> bool,
    C: Fn(Operator, V, V) -> V,

    requires
        functional(arithmetic),
        step_may_give(instr, stack, arithmetic, one),
        step_may_give(instr, stack, arithmetic, other),
    ensures
        one == other,
{
    match instr {
        InstrView::Push { text, scale } => {
            assert(push_may_give(text, scale, stack, arithmetic, one));
            assert(push_may_give(text, scale, stack, arithmetic, other));
            let first = choose|operand: Result<V, ErrorKind>| #[trigger]
                may_push(arithmetic, text, scale, stack, operand) && one == pushed(stack, operand);
            let second = choose|operand: Result<V, ErrorKind>| #[trigger]
                may_push(arithmetic, text, scale, stack, operand) && other == pushed(
                    stack,
                    operand,
                );
            lemma_push_unique(arithmetic, text, scale, stack, first, second);
        },
        InstrView::Apply(operator) => {
            assert(apply_may_give(operator, stack, arithmetic, one));
            assert(apply_may_give(operator, stack, arithmetic, other));
            let b = stack[stack.len() - 1];
            let a = stack[stack.len() - 2];
            let first = choose|applied: Result<V, ErrorKind>| #[trigger]
                may_apply(operator.spec_symbol(), b, a, arithmetic, applied) && one == replaced(
                    stack,
                    applied,
                );
            let second = choose|applied: Result<V, ErrorKind>| #[trigger]
                may_apply(operator.spec_symbol(), b, a, arithmetic, applied) && other == replaced(
                    stack,
                    applied,
                );
            lemma_apply_unique(operator.spec_symbol(), b, a, arithmetic, first, second);
        },
    }
}

/// With arithmetic that is a matter of its arguments alone, a run has one
/// outcome.
pub proof fn lemma_reach_unique<V, N, Z, C>(
    code: Seq<InstrView>,
    at: int,
    stack: Seq<V>,
    arithmetic: Arithmetic<N, Z, C>,
    one: Result<Seq<V>, ErrorKind>,
    other: Result<Seq<V>, ErrorKind>,
) where
    N: Fn(&Vec<char>) -> Result<V, ErrorKind>,
    Z: Fn(V) -> bool,
    C: Fn(Operator, V, V) -> V,

    requires
        functional(arithmetic),
        may_reach(code, at, stack, arithmetic, one),
        may_reach(code, at, stack, arithmetic, other),
    ensures
        one == other,
    decreases code.len() - at,
{
    if 0 <= at < code.len() {
        let first = choose|next: Result<Seq<V>, ErrorKind>| #[trigger]
            step_may_give(code[at], stack, arithmetic, next) && match next {
                Err(kind) => one == Err::<Seq<V>, ErrorKind>(kind),
                Ok(after) => may_reach(code, at + 1, after, arithmetic, one),
            };
        let second = choose|next: Result<Seq<V>, ErrorKind>| #[trigger]
            step_may_give(code[at], stack, arithmetic, next) && match next {
                Err(kind) => other == Err::<Seq<V>, ErrorKind>(kind),
                Ok(after) => may_reach(code, at + 1, after, arithmetic, other),
            };
        lemma_step_unique(code[at], stack, arithmetic, first, second);
        if let Ok(after) = first {
            lemma_reach_unique(code, at + 1, after, arithmetic, one, other);
        }
    }
}

/// An evaluation has exactly one result, a value or an error, as far as the
/// arithmetic is a matter of its arguments alone.
pub proof fn lemma_result_unique<V, N, Z, C>(
    program: ProgramView,
    arithmetic: Arithmetic<N, Z, C>,
    one: Result<V, ErrorKind>,
    other: Result<V, ErrorKind>,
) where
    N: Fn(&Vec<char>) -> Result<V, ErrorKind>,
    Z: Fn(V) -> bool,
    C: Fn(Operator, V, V) -> V,

    requires
        functional(arithmetic),
        may_yield(program, arithmetic, one),
        may_yield(program, arithmetic, other),
    ensures
        one == other,
{
    let first = choose|end: Result<Seq<V>, ErrorKind>| #[trigger]
        may_reach(program.code, 0, Seq::<V>::empty(), arithmetic, end) && one == verdict(
            program.outcome,
            end,
        );
    let second = choose|end: Result<Seq<V>, ErrorKind>| #[trigger]
        may_reach(program.code, 0, Seq::<V>::empty(), arithmetic, end) && other == verdict(
            program.outcome,
            end,
        );
    lemma_reach_unique(program.code, 0, Seq::<V>::empty(), arithmetic, first, second);
}

/// What a numeral may put on the stack, a push of it may leave there.
pub proof fn lemma_push_step<V, N, Z, C>(
    arithmetic: Arithmetic<N, Z, C>,
    text: Seq<char>,
    scale: Scale,
    stack: Seq<V>,
    operand: Result<V, ErrorKind>,
) where
    N: Fn(&Vec<char>) -> Result<V, ErrorKind>,
    Z: Fn(V) -> bool,
    C: Fn(Operator, V, V) -> V,

    requires
        may_push(arithmetic, text, scale, stack, operand),
    ensures
        step_may_give(InstrView::Push { text, scale }, stack, arithmetic, pushed(stack, operand)),
{
    assert(push_may_give(text, scale, stack, arithmetic, pushed(stack, operand)));
}

/// What an operator may make of the two operands on top of the stack, its
/// step may leave in their place.
pub proof fn lemma_apply_step<V, N, Z, C>(
    arithmetic: Arithmetic<N, Z, C>,
    operator: Operator,
    stack: Seq<V>,
    applied: Result<V, ErrorKind>,
) where
    N: Fn(&Vec<char>) -> Result<V, ErrorKind>,
    Z: Fn(V) -> bool,
    C: Fn(Operator, V, V) -> V,

    requires
        stack.len() >= 2,
        may_apply(
            operator.spec_symbol(),
            stack[stack.len() - 1],
            stack[stack.len() - 2],
            arithmetic,
            applied,
        ),
    ensures
        step_may_give(InstrView::Apply(operator), stack, arithmetic, replaced(stack, applied)),
{
}

/// The program that divides what one numeral reads as by what another
/// reads as may stop with the error [`ErrorKind::DivisionByZero`] where the
/// second reads as zero.
pub proof fn lemma_quotient_by_zero<V, N, Z, C>(
    a: Seq<char>,
    b: Seq<char>,
    arithmetic: Arithmetic<N, Z, C>,
    dividend: V,
    divisor: V,
) where
    N: Fn(&Vec<char>) -> Result<V, ErrorKind>,
    Z: Fn(V) -> bool,
    C: Fn(Operator, V, V) -> V,

    requires
        may_read(arithmetic, a, Ok::<V, ErrorKind>(dividend)),
        may_read(arithmetic, b, Ok::<V, ErrorKind>(divisor)),
        call_ensures(arithmetic.is_zero, (divisor,), true),
    ensures
        may_reach(
            seq![
                InstrView::Push { text: a, scale: Scale::Unit },
                InstrView::Push { text: b, scale: Scale::Unit },
                InstrView::Apply(Operator::Divide),
            ],
            0,
            Seq::<V>::empty(),
            arithmetic,
            Err::<Seq<V>, ErrorKind>(ErrorKind::DivisionByZero),
        ),
{
    let first = InstrView::Push { text: a, scale: Scale::Unit };
    let second = InstrView::Push { text: b, scale: Scale::Unit };
    let third = InstrView::Apply(Operator::Divide);
    let code = seq![first, second, third];
    assert(code[0] == first && code[1] == second && code[2] == third);
    let stop = Err::<Seq<V>, ErrorKind>(ErrorKind::DivisionByZero);
    let empty = Seq::<V>::empty();
    let one = empty.push(dividend);
    let two = one.push(divisor);
    let read_first = Ok::<V, ErrorKind>(dividend);
    let read_second = Ok::<V, ErrorKind>(divisor);
    let refused = Err::<V, ErrorKind>(ErrorKind::DivisionByZero);
    assert(may_scale_read(arithmetic, read_first, Scale::Unit, empty, read_first));
    assert(may_push(arithmetic, a, Scale::Unit, empty, read_first));
    lemma_push_step(arithmetic, a, Scale::Unit, empty, read_first);
    assert(pushed(empty, read_first) == Ok::<Seq<V>, ErrorKind>(one));
    assert(may_scale_read(arithmetic, read_second, Scale::Unit, one, read_second));
    assert(may_push(arithmetic, b, Scale::Unit, one, read_second));
    lemma_push_step(arithmetic, b, Scale::Unit, one, read_second);
    assert(pushed(one, read_second) == Ok::<Seq<V>, ErrorKind>(two));
    assert(two.len() == 2 && two[1] == divisor && two[0] == dividend);
    assert(may_divide(arithmetic, true, dividend, divisor, refused));
    assert(may_apply('/', divisor, dividend, arithmetic, refused));
    lemma_apply_step(arithmetic, Operator::Divide, two, refused);
    assert(replaced(two, refused) == stop);
    assert(step_may_give(first, empty, arithmetic, Ok::<Seq<V>, ErrorKind>(one)));
    assert(step_may_give(second, one, arithmetic, Ok::<Seq<V>, ErrorKind>(two)));
    assert(step_may_give(third, two, arithmetic, stop));
    assert(may_reach(code, 2, two, arithmetic, stop));
    assert(may_reach(code, 1, one, arithmetic, stop));
}

/// Applies the operator with the symbol `op` to the right operand `b` and
/// the left operand `a`.
pub fn apply_op<V, N, Z, C>(op: char, b: V, a: V, arithmetic: &Arithmetic<N, Z, C>) -> (result:
    Result<V, ErrorKind>) where
    V: Copy,
    N: Fn(&Vec<char>) -> Result<V, ErrorKind>,
    Z: Fn(V) -> bool,
    C: Fn(Operator, V, V) -> V,

    requires
        total(*arithmetic),
    ensures
        may_apply(op, b, a, *arithmetic, result),
{
    match Operator::from_symbol(op) {
        Err(_) => Err(ErrorKind::UnknownOperator),
        Ok(operator) => {
            if operator == Operator::Divide {
                let zero = (arithmetic.is_zero)(b);
                let result = if zero {
                    Err(ErrorKind::DivisionByZero)
                } else {
                    Ok((arithmetic.combine)(operator, a, b))
                };
                assert(may_divide(*arithmetic, zero, a, b, result));
                result
            } else {
                Ok((arithmetic.combine)(operator, a, b))
            }
        },
    }
}

/// Takes a hundredth of `value`.
pub fn hundredth<V, N, Z, C>(value: V, arithmetic: &Arithmetic<N, Z, C>) -> (part: Result<
    V,
    ErrorKind,
>) where
    V: Copy,
    N: Fn(&Vec<char>) -> Result<V, ErrorKind>,
    Z: Fn(V) -> bool,
    C: Fn(Operator, V, V) -> V,

    requires
        total(*arithmetic),
    ensures
        may_be_hundredth(*arithmetic, value, part),
{
    let mut literal: Vec<char> = Vec::new();
    literal.push('1');
    literal.push('0');
    literal.push('0');
    assert(literal@ =~= hundred());
    assert(is_digit(literal@[0]));
    let read = (arithmetic.number)(&literal);
    assert(may_read(*arithmetic, hundred(), read));
    let part = match read {
        Err(kind) => Err(kind),
        Ok(divisor) => Ok((arithmetic.combine)(Operator::Divide, value, divisor)),
    };
    assert(may_combine_with(*arithmetic, Operator::Divide, value, read, part));
    part
}

/// Runs `program` on an empty operand stack.
///
/// The program must be able to run on a stack and hold no numeral that is
/// not a decimal number, as is true of every program that [`compile`] makes
/// and as [`Program::can_run`] tells of any other; then no step looks for
/// an operand in vain, and the arithmetic is asked to read decimal numbers
/// only.
pub fn execute<V, N, Z, C>(program: &Program, arithmetic: &Arithmetic<N, Z, C>) -> (result: Result<
    V,
    ErrorKind,
>) where
    V: Copy,
    N: Fn(&Vec<char>) -> Result<V, ErrorKind>,
    Z: Fn(V) -> bool,
    C: Fn(Operator, V, V) -> V,

    requires
        program@.well_formed(),
        only_numbers(program@.code),
        total(*arithmetic),
    ensures
        may_yield(program@, *arithmetic, result),
{
    let ghost code = program@.code;
    let mut values: Vec<V> = Vec::new();
    let mut at: usize = 0;
    proof {
        assert(code.take(0) =~= Seq::<InstrView>::empty());
    }
    while at < program.code.len()
        invariant
            at <= program.code.len(),
            code == instr_views(program.code@),
            total(*arithmetic),
            only_numbers(code),
            height(code) is Some,
            height(code.take(at as int)) == Some(values@.len()),
            forall|end: Result<Seq<V>, ErrorKind>| #[trigger]
                may_reach(code, at as int, values@, *arithmetic, end) ==> may_reach(
                    code,
                    0,
                    Seq::<V>::empty(),
                    *arithmetic,
                    end,
                ),
        decreases program.code.len() - at,
    {
        let ghost before = values@;
        proof {
            lemma_height_prefix(code, at + 1);
            assert(code.take(at + 1) =~= code.take(at as int).push(code[at as int]));
            lemma_height_push(code.take(at as int), code[at as int]);
        }
        let step: Result<V, ErrorKind> = match &program.code[at] {
            Instr::Push { text, scale } => {
                let read = (arithmetic.number)(text);
                let operand = match read {
                    Err(kind) => Err(kind),
                    Ok(value) => match scale {
                        Scale::Unit => Ok(value),
                        Scale::Percent => hundredth(value, arithmetic),
                        Scale::PercentOfTop => {
                            let part = hundredth(value, arithmetic);
                            let product = match part {
                                Err(kind) => Err(kind),
                                Ok(share) => Ok(
                                    (arithmetic.combine)(
                                        Operator::Multiply,
                                        values[values.len() - 1],
                                        share,
                                    ),
                                ),
                            };
                            assert(may_combine_with(
                                *arithmetic,
                                Operator::Multiply,
                                before.last(),
                                part,
                                product,
                            ));
                            product
                        },
                    },
                };
                proof {
                    assert(may_read(*arithmetic, text@, read));
                    assert(may_scale_read(*arithmetic, read, *scale, before, operand));
                    assert(may_push(*arithmetic, text@, *scale, before, operand));
                    assert(step_may_give(
                        code[at as int],
                        before,
                        *arithmetic,
                        pushed(before, operand),
                    ));
                }
                operand
            },
            Instr::Apply(operator) => {
                let right = values[values.len() - 1];
                let left = values[values.len() - 2];
                values.pop();
                values.pop();
                let applied = apply_op(operator.symbol(), right, left, arithmetic);
                proof {
                    assert(values@ =~= before.take(before.len() - 2));
                    assert(step_may_give(
                        code[at as int],
                        before,
                        *arithmetic,
                        replaced(before, applied),
                    ));
                }
                applied
            },
        };
        let ghost next: Result<Seq<V>, ErrorKind> = if code[at as int] is Push {
            pushed(before, step)
        } else {
            replaced(before, step)
        };
        assert(step_may_give(code[at as int], before, *arithmetic, next));
        match step {
            Err(kind) => {
                proof {
                    assert(next == Err::<Seq<V>, ErrorKind>(kind));
                    assert(may_reach(code, at as int, before, *arithmetic, next));
                    assert(may_reach(program@.code, 0, Seq::<V>::empty(), *arithmetic, next));
                }
                return Err(kind);
            },
            Ok(value) => {
                values.push(value);
            },
        }
        proof {
            assert(next == Ok::<Seq<V>, ErrorKind>(values@));
            assert forall|end: Result<Seq<V>, ErrorKind>| #[trigger]
                may_reach(code, at + 1, values@, *arithmetic, end) implies may_reach(
                code,
                0,
                Seq::<V>::empty(),
                *arithmetic,
                end,
            ) by {
                assert(may_reach(code, at as int, before, *arithmetic, end));
            }
        }
        at += 1;
    }
    proof {
        assert(code.take(at as int) =~= code);
        let end = Ok::<Seq<V>, ErrorKind>(values@);
        assert(may_reach(code, at as int, values@, *arithmetic, end));
    }
    match program.outcome {
        Err(kind) => Err(kind),
        Ok(_) => Ok(values[values.len() - 1]),
    }
}

/// Evaluates an expression: compiles it and runs its program.
pub fn evaluate<V, N, Z, C>(expression: &str, arithmetic: &Arithmetic<N, Z, C>) -> (result: Result<
    V,
    ErrorKind,
>) where
    V: Copy,
    N: Fn(&Vec<char>) -> Result<V, ErrorKind>,
    Z: Fn(V) -> bool,
    C: Fn(Operator, V, V) -> V,

    requires
        total(*arithmetic),
    ensures
        may_yield(program_of(expression@), *arithmetic, result),
{
    let program = compile(expression);
    execute(&program, arithmetic)
}

} // verus!
