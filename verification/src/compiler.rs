//! Whole expressions: from text to a postfix program.
use crate::lexer::{
    lemma_scan_advances, next_token, scan, significant, significant_chars, Scan, ScanView,
};
use crate::machine::{Machine, State};
use crate::program::{only_numbers, Program, ProgramView};
use vstd::prelude::*;

verus! {

/// The state in which the controller ends when it starts in `state` and reads
/// `chars`, which hold no white space, from position `at` on: token after
/// token, up to the end or the first error.
pub open spec fn run(chars: Seq<char>, at: int, state: State) -> State
    decreases chars.len() - at,
{
    if state.failure is Some {
        state
    } else {
        match scan(chars, at, state.operand_expected) {
            ScanView::End => state,
            ScanView::Invalid(kind) => state.fail(kind),
            ScanView::Token { token, next } => {
                proof {
                    lemma_scan_advances(chars, at, state.operand_expected);
                }
                run(chars, next, state.accept(token))
            },
        }
    }
}

/// The program of the expression `text`: what the controller has put out
/// when it has read the text without its white space from the start and the
/// expression is closed.
pub open spec fn program_of(text: Seq<char>) -> ProgramView {
    run(significant(text), 0, State::initial()).close().program()
}

/// Reading tokens keeps the height that the controller holds equal to the
/// height of the stack that its output builds.
pub proof fn lemma_run_consistent(chars: Seq<char>, at: int, state: State)
    requires
        state.consistent(),
    ensures
        run(chars, at, state).consistent(),
    decreases chars.len() - at,
{
    if state.failure is None {
        match scan(chars, at, state.operand_expected) {
            ScanView::Token { token, next } => {
                lemma_scan_advances(chars, at, state.operand_expected);
                state.lemma_accept(token);
                lemma_run_consistent(chars, next, state.accept(token));
            },
            _ => {},
        }
    }
}

/// Whatever the text, its program can run on a stack: no step lacks an
/// operand, and where the outcome is `Ok` exactly one operand is left.
pub proof fn lemma_program_well_formed(text: Seq<char>)
    ensures
        program_of(text).well_formed(),
{
    let chars = significant(text);
    lemma_run_consistent(chars, 0, State::initial());
    run(chars, 0, State::initial()).lemma_close();
}

/// Reading tokens puts out no numeral that is not a decimal number.
pub proof fn lemma_run_numbers(chars: Seq<char>, at: int, state: State)
    requires
        only_numbers(state.code),
    ensures
        only_numbers(run(chars, at, state).code),
    decreases chars.len() - at,
{
    if state.failure is None {
        match scan(chars, at, state.operand_expected) {
            ScanView::Token { token, next } => {
                lemma_scan_advances(chars, at, state.operand_expected);
                state.lemma_accept_numbers(token);
                lemma_run_numbers(chars, next, state.accept(token));
            },
            _ => {},
        }
    }
}

/// Whatever the text, every numeral in its program is a decimal number:
/// what is none stops the reading with an error and is not put out.
pub proof fn lemma_program_numbers(text: Seq<char>)
    ensures
        only_numbers(program_of(text).code),
{
    let chars = significant(text);
    lemma_run_numbers(chars, 0, State::initial());
    run(chars, 0, State::initial()).lemma_unwind_numbers(1);
}

/// Compiles an expression into its program.
pub fn compile(expression: &str) -> (program: Program)
    ensures
        program@ == program_of(expression@),
        program@.well_formed(),
        only_numbers(program@.code),
{
    proof {
        lemma_program_numbers(expression@);
    }
    let chars = significant_chars(expression);
    let mut machine = Machine::new();
    let mut at: usize = 0;
    loop
        invariant
            machine.wf(),
            chars@ == significant(expression@),
            run(chars@, at as int, machine@) == run(chars@, 0, State::initial()),
        ensures
            machine.wf(),
            machine@ == run(chars@, 0, State::initial()),
        decreases chars.len() - at,
    {
        if machine.failure().is_some() {
            break ;
        }
        match next_token(&chars, at, machine.operand_expected()) {
            Scan::End => {
                break ;
            },
            Scan::Invalid(kind) => {
                machine.fail(kind);
                break ;
            },
            Scan::Token { token, next } => {
                machine.accept(token);
                at = next;
            },
        }
    }
    machine.finish()
}

} // verus!
