//! Infix arithmetic for a pocket calculator.
//!
//! An expression such as `3 + 4 * 2 / (1 - 5) ^ 2` or `200 + 10%` is read
//! once, left to right, and turned into a postfix [`Program`]: the operands in
//! source order, each operator placed where its two operands are complete.
//! Running the program takes an operand stack, which is here too, and an
//! arithmetic, which the caller brings along with the number type.
//! Everything that decides *what* is computed lives here and is proved
//! against a mathematical model: the tokenizer, operator precedence and
//! left-associativity, parentheses, unary minus, the percent rules, division
//! by zero and every syntax error.
//!
//! - [`lexer`] turns characters into tokens, [`machine`] is the two-stack
//!   controller that orders them, [`compiler`] runs the two over a whole
//!   expression, and [`program`] holds what comes out.
//! - [`evaluator`] runs a program, or an expression at once, on the
//!   caller's arithmetic.
//! - [`grammar`] says what the grammar of expressions means and proves that
//!   the compiler agrees.
//! - [`decimal`] cleans up fixed-point text for the display, and [`readout`]
//!   is the display line with the keys that edit it.
pub mod compiler;
pub mod decimal;
pub mod error;
pub mod evaluator;
pub mod grammar;
pub mod lexer;
pub mod machine;
pub mod operator;
pub mod program;
pub mod readout;

pub use compiler::compile;
pub use decimal::{render, strip_fraction, Shape, FRACTION_DIGITS};
pub use error::ErrorKind;
pub use evaluator::{apply_op, evaluate, execute, hundredth, Arithmetic};
pub use lexer::{next_token, significant_chars, Scan, Token};
pub use machine::{Machine, Pending};
pub use operator::{precedence, Operator};
pub use program::{Instr, Program, Scale};
pub use readout::{Effect, Key, Readout};
