//! An evaluator for lines of integer arithmetic.
//!
//! A line of text is split into tokens and read as a run of additive
//! expressions, `term (('+' | '-') term)*`, each folded from left to right
//! into a 32-bit signed integer. Multiplication and division signs are
//! recognised as tokens but belong to no expression: an expression ends in
//! front of one, and none can begin with one.

pub mod token;
pub mod charclass;
pub mod grammar;
pub mod steps;
pub mod interpreter;
pub mod driver;
pub mod laws;

pub use driver::{evaluate, respond, Step};
pub use interpreter::{Interpreter, InterpreterView, LineResult};
pub use steps::{combine, parse_decimal, reject_operand, single_char_token};
pub use token::{EvalError, Token};
