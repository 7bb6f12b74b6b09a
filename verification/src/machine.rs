//! The two-stack controller that puts operators behind their operands.
//!
//! The controller reads tokens one at a time.  Operands go straight to the
//! output; an operator waits on a stack until a later token shows that both of
//! its operands are complete.  Since the numbers themselves are the caller's
//! business, the operand stack is kept as a height only: that is all that the
//! syntax rules ask about it.
use crate::error::ErrorKind;
use crate::lexer::{is_negated, Token, TokenView};
use crate::operator::Operator;
use crate::lexer::is_number;
use crate::program::{
    height, instr_views, lemma_height_bound, lemma_height_push, only_numbers, Instr, InstrView,
    Program, ProgramView, Scale,
};
use vstd::prelude::*;

verus! {

/// What waits on the operator stack.
#[derive(Clone, Copy, Debug, PartialEq, Eq, Structural)]
pub enum Pending {
    /// An operator whose right operand is still being read.
    Operator(Operator),
    /// An opening parenthesis that has not been closed yet.
    Paren,
}

/// The scale of the numeral `text`, with or without a percent sign behind
/// it, when `before` is the operator that waits directly in front of it.
/// Without a percent sign it is the number itself.  With one it is a
/// percentage of the operand on top of the stack if that operator is `+` or
/// `-` and the numeral carries no minus sign of its own; in front of
/// anything else, or of nothing, it is a hundredth.
pub open spec fn scale_behind(before: Option<Operator>, text: Seq<char>, percent: bool) -> Scale {
    if !percent {
        Scale::Unit
    } else if !is_negated(text) && before is Some && before.unwrap().spec_is_additive() {
        Scale::PercentOfTop
    } else {
        Scale::Percent
    }
}

/// The state of the controller, as a mathematical value.
pub struct State {
    /// The operator stack, its top last.
    pub pending: Seq<Pending>,
    /// The height of the operand stack.
    pub depth: nat,
    /// The steps put out so far.
    pub code: Seq<InstrView>,
    /// Whether the next token should be an operand, so that a minus sign
    /// would open a numeral.
    pub operand_expected: bool,
    /// The error that stopped the controller, if one did.
    pub failure: Option<ErrorKind>,
}

impl State {
    /// The state before the first token: both stacks empty, an operand
    /// expected.
    pub open spec fn initial() -> State {
        State {
            pending: Seq::empty(),
            depth: 0,
            code: Seq::empty(),
            operand_expected: true,
            failure: None,
        }
    }

    /// The state stopped by an error.  What was put out stays.
    pub open spec fn fail(self, kind: ErrorKind) -> State {
        State { failure: Some(kind), ..self }
    }

    /// The operator on top of the operator stack, if an operator is there.
    pub open spec fn top_operator(self) -> Option<Operator> {
        if self.pending.len() > 0 {
            match self.pending.last() {
                Pending::Operator(operator) => Some(operator),
                Pending::Paren => None,
            }
        } else {
            None
        }
    }

    /// The state after the operator on top of the stack has been put out.
    /// It takes two operands and leaves one; with fewer than two the
    /// expression is malformed.
    pub open spec fn apply_top(self) -> State
        recommends
            self.top_operator() is Some,
    {
        if self.depth < 2 {
            self.fail(ErrorKind::SyntaxError)
        } else {
            State {
                pending: self.pending.drop_last(),
                depth: (self.depth - 1) as nat,
                code: self.code.push(InstrView::Apply(self.top_operator().unwrap())),
                ..self
            }
        }
    }

    /// Puts out the waiting operators that bind at least as tightly as
    /// `level`, from the top of the stack down to the nearest opening
    /// parenthesis, and stops at the first that lacks an operand.
    pub open spec fn unwind(self, level: u8) -> State
        decreases self.pending.len(),
    {
        if self.failure is None && self.top_operator() is Some
            && self.top_operator().unwrap().spec_precedence() >= level {
            let applied = self.apply_top();
            if applied.failure is Some {
                applied
            } else {
                applied.unwind(level)
            }
        } else {
            self
        }
    }

    /// A numeral: it is put out as an operand.  A percentage of the operand
    /// on top needs that operand to be there.
    pub open spec fn push_number(self, text: Seq<char>, percent: bool) -> State {
        let scale = scale_behind(self.top_operator(), text, percent);
        if scale == Scale::PercentOfTop && self.depth == 0 {
            self.fail(ErrorKind::SyntaxError)
        } else {
            State {
                depth: self.depth + 1,
                code: self.code.push(InstrView::Push { text, scale }),
                operand_expected: false,
                ..self
            }
        }
    }

    /// An operator: the waiting operators that bind at least as tightly go
    /// first, which makes every operator group to the left.  Then it waits.
    pub open spec fn push_operator(self, operator: Operator) -> State {
        let unwound = self.unwind(operator.spec_precedence());
        if unwound.failure is Some {
            unwound
        } else {
            State {
                pending: unwound.pending.push(Pending::Operator(operator)),
                operand_expected: true,
                ..unwound
            }
        }
    }

    /// An opening parenthesis: it waits for its partner.
    pub open spec fn open_paren(self) -> State {
        State { pending: self.pending.push(Pending::Paren), operand_expected: true, ..self }
    }

    /// A closing parenthesis: every operator above the nearest opening
    /// parenthesis is put out, and that parenthesis is dropped.  Without one
    /// the expression is malformed.
    pub open spec fn close_paren(self) -> State {
        let unwound = self.unwind(1);
        if unwound.failure is Some {
            unwound
        } else if unwound.pending.len() == 0 {
            unwound.fail(ErrorKind::SyntaxError)
        } else {
            State { pending: unwound.pending.drop_last(), operand_expected: false, ..unwound }
        }
    }

    /// The state after `token`.  A stopped controller stays as it is.
    pub open spec fn accept(self, token: TokenView) -> State {
        if self.failure is Some {
            self
        } else {
            match token {
                TokenView::Number { text, percent } => self.push_number(text, percent),
                TokenView::Operator(operator) => self.push_operator(operator),
                TokenView::LeftParen => self.open_paren(),
                TokenView::RightParen => self.close_paren(),
            }
        }
    }

    /// The state at the end of the expression: every waiting operator has
    /// been put out.  An opening parenthesis that still waits, or an operand
    /// stack that does not hold exactly one operand, makes the expression
    /// malformed.
    pub open spec fn close(self) -> State {
        let unwound = self.unwind(1);
        if unwound.failure is Some {
            unwound
        } else if unwound.pending.len() > 0 || unwound.depth != 1 {
            unwound.fail(ErrorKind::SyntaxError)
        } else {
            unwound
        }
    }

    /// The program that the controller has put out, with the error that
    /// stopped it if one did.
    pub open spec fn program(self) -> ProgramView {
        ProgramView {
            code: self.code,
            outcome: match self.failure {
                Some(kind) => Err(kind),
                None => Ok(()),
            },
        }
    }

    /// Whether the height that the controller keeps is the height of the
    /// stack that its output builds.
    pub open spec fn consistent(self) -> bool {
        height(self.code) == Some(self.depth)
    }

    /// Unwinding changes neither the flag nor what lies below the operators
    /// it puts out, and where it does not fail it ends below an operator that
    /// binds less tightly than `level`, at a parenthesis or at the bottom.
    pub proof fn lemma_unwind(self, level: u8)
        requires
            self.consistent(),
        ensures
            self.unwind(level).consistent(),
            self.unwind(level).operand_expected == self.operand_expected,
            self.failure is Some ==> self.unwind(level) == self,
            self.unwind(level).failure is None ==> (self.unwind(level).top_operator() matches Some(
                top,
            ) ==> top.spec_precedence() < level),
        decreases self.pending.len(),
    {
        if self.failure is None && self.top_operator() is Some
            && self.top_operator().unwrap().spec_precedence() >= level {
            let applied = self.apply_top();
            if applied.failure is None {
                lemma_height_push(self.code, InstrView::Apply(self.top_operator().unwrap()));
                applied.lemma_unwind(level);
            }
        }
    }

    /// Unwinding puts out operators only.
    pub proof fn lemma_unwind_numbers(self, level: u8)
        requires
            only_numbers(self.code),
        ensures
            only_numbers(self.unwind(level).code),
        decreases self.pending.len(),
    {
        if self.failure is None && self.top_operator() is Some
            && self.top_operator().unwrap().spec_precedence() >= level {
            let applied = self.apply_top();
            if applied.failure is None {
                applied.lemma_unwind_numbers(level);
            }
        }
    }

    /// A token whose numeral is a decimal number leaves every numeral that
    /// was put out a decimal number.
    pub proof fn lemma_accept_numbers(self, token: TokenView)
        requires
            only_numbers(self.code),
            token matches TokenView::Number { text, .. } ==> is_number(text),
        ensures
            only_numbers(self.accept(token).code),
    {
        self.lemma_unwind_numbers(1);
        if let TokenView::Operator(operator) = token {
            self.lemma_unwind_numbers(operator.spec_precedence());
        }
    }

    /// Every token keeps the height right.
    pub proof fn lemma_accept(self, token: TokenView)
        requires
            self.consistent(),
        ensures
            self.accept(token).consistent(),
    {
        if self.failure is None {
            match token {
                TokenView::Number { text, percent } => {
                    lemma_height_push(
                        self.code,
                        InstrView::Push {
                            text,
                            scale: scale_behind(self.top_operator(), text, percent),
                        },
                    );
                },
                TokenView::Operator(operator) => {
                    self.lemma_unwind(operator.spec_precedence());
                },
                TokenView::LeftParen => {},
                TokenView::RightParen => {
                    self.lemma_unwind(1);
                },
            }
        }
    }

    /// At the end the height is right, and where no error stopped the
    /// controller the operator stack is empty and one operand is left: the
    /// program can run on a stack.
    pub proof fn lemma_close(self)
        requires
            self.consistent(),
        ensures
            self.close().consistent(),
            self.close().failure is None ==> self.close().depth == 1 && self.close().pending.len()
                == 0,
            self.close().program().well_formed(),
    {
        self.lemma_unwind(1);
    }
}

/// The controller.
pub struct Machine {
    pending: Vec<Pending>,
    depth: usize,
    code: Vec<Instr>,
    operand_expected: bool,
    failure: Option<ErrorKind>,
}

impl View for Machine {
    type V = State;

    closed spec fn view(&self) -> State {
        State {
            pending: self.pending@,
            depth: self.depth as nat,
            code: instr_views(self.code@),
            operand_expected: self.operand_expected,
            failure: self.failure,
        }
    }
}

impl Machine {
    /// What every controller satisfies: the height it keeps is the height of
    /// the stack that its output builds.
    pub open spec fn wf(&self) -> bool {
        self@.consistent()
    }

    /// A controller before its first token.
    pub fn new() -> (machine: Machine)
        ensures
            machine.wf(),
            machine@ == State::initial(),
    {
        let machine = Machine {
            pending: Vec::new(),
            depth: 0,
            code: Vec::new(),
            operand_expected: true,
            failure: None,
        };
        assert(instr_views(machine.code@) =~= Seq::<InstrView>::empty());
        machine
    }

    /// Whether the next token should be an operand.
    pub fn operand_expected(&self) -> (expected: bool)
        ensures
            expected == self@.operand_expected,
    {
        self.operand_expected
    }

    /// The error that stopped the controller, if one did.
    pub fn failure(&self) -> (failure: Option<ErrorKind>)
        ensures
            failure == self@.failure,
    {
        self.failure
    }

    /// Stops the controller with an error.  The first error stays.
    pub fn fail(&mut self, kind: ErrorKind)
        requires
            old(self).wf(),
        ensures
            final(self).wf(),
            final(self)@ == (if old(self)@.failure is Some {
                old(self)@
            } else {
                old(self)@.fail(kind)
            }),
    {
        if self.failure.is_none() {
            self.failure = Some(kind);
        }
    }

    fn top_operator(&self) -> (top: Option<Operator>)
        ensures
            top == self@.top_operator(),
    {
        let waiting = self.pending.len();
        if waiting == 0 {
            None
        } else {
            match self.pending[waiting - 1] {
                Pending::Operator(operator) => Some(operator),
                Pending::Paren => None,
            }
        }
    }

    fn unwind(&mut self, level: u8)
        requires
            old(self).wf(),
        ensures
            final(self).wf(),
            final(self)@ == old(self)@.unwind(level),
    {
        proof {
            old(self)@.lemma_unwind(level);
        }
        while self.failure.is_none()
            invariant
                self@.consistent(),
                self@.unwind(level) == old(self)@.unwind(level),
            ensures
                self@ == old(self)@.unwind(level),
            decreases self.pending.len(),
        {
            let top = match self.top_operator() {
                Some(top) => top,
                None => { break ; },
            };
            if top.precedence() < level {
                break ;
            }
            if self.depth < 2 {
                self.failure = Some(ErrorKind::SyntaxError);
                break ;
            }
            proof {
                lemma_height_push(self@.code, InstrView::Apply(top));
            }
            let ghost before = self.code@;
            self.pending.pop();
            self.code.push(Instr::Apply(top));
            self.depth = self.depth - 1;
            assert(instr_views(self.code@) =~= instr_views(before).push(InstrView::Apply(top)));
        }
    }

    /// Feeds the next token to the controller.
    pub fn accept(&mut self, token: Token)
        requires
            old(self).wf(),
        ensures
            final(self).wf(),
            final(self)@ == old(self)@.accept(token@),
    {
        proof {
            old(self)@.lemma_accept(token@);
        }
        if self.failure.is_some() {
            return ;
        }
        match token {
            Token::Number { text, percent } => {
                let relative = percent && !(text.len() > 0 && text[0] == '-') && match self.top_operator() {
                    Some(operator) => operator.is_additive(),
                    None => false,
                };
                if relative && self.depth == 0 {
                    self.failure = Some(ErrorKind::SyntaxError);
                } else {
                    let scale = if relative {
                        Scale::PercentOfTop
                    } else if percent {
                        Scale::Percent
                    } else {
                        Scale::Unit
                    };
                    let ghost before = self.code@;
                    proof {
                        lemma_height_bound(self@.code);
                        assert(self.depth <= instr_views(before).len() == before.len());
                    }
                    let ghost pushed = InstrView::Push { text: text@, scale };
                    self.code.push(Instr::Push { text, scale });
                    assert(self.depth < self.code.len() <= usize::MAX);
                    self.depth = self.depth + 1;
                    self.operand_expected = false;
                    assert(instr_views(self.code@) =~= instr_views(before).push(pushed));
                }
            },
            Token::Operator(operator) => {
                self.unwind(operator.precedence());
                if self.failure.is_none() {
                    self.pending.push(Pending::Operator(operator));
                    self.operand_expected = true;
                }
            },
            Token::LeftParen => {
                self.pending.push(Pending::Paren);
                self.operand_expected = true;
            },
            Token::RightParen => {
                self.unwind(1);
                if self.failure.is_none() {
                    if self.pending.len() == 0 {
                        self.failure = Some(ErrorKind::SyntaxError);
                    } else {
                        self.pending.pop();
                        self.operand_expected = false;
                    }
                }
            },
        }
    }

    /// Ends the expression and hands out the program.
    pub fn finish(self) -> (program: Program)
        requires
            self.wf(),
        ensures
            program@ == self@.close().program(),
            program@.well_formed(),
    {
        proof {
            self@.lemma_close();
        }
        let mut machine = self;
        machine.unwind(1);
        if machine.failure.is_none() && (machine.pending.len() > 0 || machine.depth != 1) {
            machine.failure = Some(ErrorKind::SyntaxError);
        }
        let outcome = match machine.failure {
            Some(kind) => Err(kind),
            None => Ok(()),
        };
        Program { code: machine.code, outcome }
    }
}

} // verus!
