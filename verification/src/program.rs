//! Postfix programs: what an expression asks to compute.
use crate::error::ErrorKind;
use crate::lexer::{is_decimal_number, is_number};
use crate::operator::Operator;
use vstd::prelude::*;

verus! {

/// What a numeral contributes as an operand.
#[derive(Clone, Copy, Debug, PartialEq, Eq, Structural)]
pub enum Scale {
    /// The number it denotes.
    Unit,
    /// A hundredth of the number: `50%` is a half.
    Percent,
    /// That many hundredths of the operand on top of the stack, which stays
    /// where it is: in `200 + 10%` the percentage is a tenth of 200.
    PercentOfTop,
}

/// One step of a postfix program, as a mathematical value.
pub enum InstrView {
    /// Put the operand that `text` denotes at `scale` on the stack.
    Push { text: Seq<char>, scale: Scale },
    /// Take the right operand, then the left operand, off the stack and put
    /// the result of the operator there.
    Apply(Operator),
}

impl InstrView {
    /// How many operands the step needs to find on the stack.
    pub open spec fn operands_read(self) -> nat {
        match self {
            InstrView::Push { scale: Scale::PercentOfTop, .. } => 1,
            InstrView::Push { .. } => 0,
            InstrView::Apply(_) => 2,
        }
    }

    /// The height of the stack after the step, given the height before it:
    /// a push adds one operand, an operator replaces two by one.
    pub open spec fn height_after(self, before: nat) -> nat {
        match self {
            InstrView::Push { .. } => before + 1,
            InstrView::Apply(_) => (before - 1) as nat,
        }
    }
}

/// One step of a postfix program.
#[derive(Debug, PartialEq, Eq)]
pub enum Instr {
    /// Put the operand that `text` denotes at `scale` on the stack.
    Push { text: Vec<char>, scale: Scale },
    /// Take the right operand, then the left operand, off the stack and put
    /// the result of the operator there.
    Apply(Operator),
}

impl View for Instr {
    type V = InstrView;

    open spec fn view(&self) -> InstrView {
        match *self {
            Instr::Push { text, scale } => InstrView::Push { text: text@, scale },
            Instr::Apply(operator) => InstrView::Apply(operator),
        }
    }
}

/// The steps of `code` as mathematical values.
pub open spec fn instr_views(code: Seq<Instr>) -> Seq<InstrView> {
    code.map_values(|instr: Instr| instr@)
}

/// The height of the operand stack after `code` has run on an empty stack,
/// or `None` if some step does not find the operands it needs.
pub open spec fn height(code: Seq<InstrView>) -> Option<nat>
    decreases code.len(),
{
    if code.len() == 0 {
        Some(0nat)
    } else {
        match height(code.drop_last()) {
            Some(before) if before >= code.last().operands_read() => Some(
                code.last().height_after(before),
            ),
            _ => None,
        }
    }
}

/// Whether every numeral in `code` is a decimal number.
pub open spec fn only_numbers(code: Seq<InstrView>) -> bool {
    forall|i: int|
        0 <= i < code.len() ==> (#[trigger] code[i] matches InstrView::Push { text, .. }
            ==> is_number(text))
}

/// The height after one more step.
pub proof fn lemma_height_push(code: Seq<InstrView>, instr: InstrView)
    ensures
        height(code.push(instr)) == match height(code) {
            Some(before) if before >= instr.operands_read() => Some(instr.height_after(before)),
            _ => None,
        },
{
    assert(code.push(instr).drop_last() =~= code);
}

/// A stack is never higher than the program that built it is long.
pub proof fn lemma_height_bound(code: Seq<InstrView>)
    ensures
        height(code) matches Some(h) ==> h <= code.len(),
    decreases code.len(),
{
    if code.len() > 0 {
        lemma_height_bound(code.drop_last());
    }
}

/// Where a program finds its operands, every part of it up to a step does.
pub proof fn lemma_height_prefix(code: Seq<InstrView>, upto: int)
    requires
        0 <= upto <= code.len(),
        height(code) is Some,
    ensures
        height(code.take(upto)) is Some,
    decreases code.len() - upto,
{
    if upto < code.len() {
        lemma_height_prefix(code, upto + 1);
        assert(code.take(upto + 1).drop_last() =~= code.take(upto));
    } else {
        assert(code.take(upto) =~= code);
    }
}

/// A postfix program, as a mathematical value.
pub struct ProgramView {
    /// The steps, in the order in which they run.
    pub code: Seq<InstrView>,
    /// Whether the expression was read to its end, or what stopped the
    /// reading.
    pub outcome: Result<(), ErrorKind>,
}

impl ProgramView {
    /// Whether the program can run on a stack: every step finds the operands
    /// it needs, and a program whose outcome is `Ok` leaves exactly one
    /// operand, the value of the expression.
    pub open spec fn well_formed(self) -> bool {
        match height(self.code) {
            Some(left) => self.outcome is Ok ==> left == 1,
            None => false,
        }
    }
}

/// What an expression asks to compute.
///
/// To evaluate the expression, run `code` from its first step on an empty
/// operand stack.  A division by zero on the way is the error of the
/// expression.  If all steps succeed, `outcome` decides: after `Ok` the one
/// operand left on the stack is the value; an error is the error of the
/// expression.  (The steps in front of an error are what the expression asked
/// for before it went wrong, so that an error in arithmetic that comes first
/// is reported first.)
#[derive(Debug, PartialEq, Eq)]
pub struct Program {
    /// The steps, in the order in which they run.
    pub code: Vec<Instr>,
    /// Whether the expression was read to its end, or what stopped the
    /// reading.
    pub outcome: Result<(), ErrorKind>,
}

impl View for Program {
    type V = ProgramView;

    open spec fn view(&self) -> ProgramView {
        ProgramView { code: instr_views(self.code@), outcome: self.outcome }
    }
}

impl Program {
    /// Whether the program can run: on a stack, and with no numeral that is
    /// not a decimal number.
    pub fn can_run(&self) -> (sound: bool)
        ensures
            sound == (self@.well_formed() && only_numbers(self@.code)),
    {
        let ghost code = self@.code;
        let mut left: usize = 0;
        let mut at: usize = 0;
        proof {
            assert(code.take(0) =~= Seq::<InstrView>::empty());
        }
        while at < self.code.len()
            invariant
                at <= self.code.len(),
                code == instr_views(self.code@),
                left <= at,
                height(code.take(at as int)) == Some(left as nat),
                forall|i: int|
                    0 <= i < at ==> (#[trigger] code[i] matches InstrView::Push { text, .. }
                        ==> is_number(text)),
            decreases self.code.len() - at,
        {
            proof {
                assert(code.take(at + 1) =~= code.take(at as int).push(code[at as int]));
                lemma_height_push(code.take(at as int), code[at as int]);
                if height(code) is Some {
                    lemma_height_prefix(code, at + 1);
                }
            }
            match &self.code[at] {
                Instr::Push { text, scale } => {
                    if !is_decimal_number(text) {
                        assert(code[at as int] matches InstrView::Push { text, .. } && !is_number(
                            text,
                        ));
                        return false;
                    }
                    match scale {
                        Scale::PercentOfTop => {
                            if left < 1 {
                                return false;
                            }
                        },
                        _ => {},
                    }
                    left = left + 1;
                },
                Instr::Apply(_) => {
                    if left < 2 {
                        return false;
                    }
                    left = left - 1;
                },
            }
            at += 1;
        }
        proof {
            assert(code.take(at as int) =~= code);
        }
        match self.outcome {
            Ok(_) => left == 1,
            Err(_) => true,
        }
    }
}

} // verus!
