//! The decisions of a read-evaluate-print loop: what to answer to a line, and
//! when to stop. Reading and printing are left to the caller.

use vstd::prelude::*;
use crate::grammar::eval_line;
use crate::interpreter::{Interpreter, LineResult};

verus! {

/// Evaluates every expression of `line` with an interpreter of its own.
pub fn evaluate(line: &str) -> (r: LineResult)
    ensures
        r.values@ == eval_line(line@).values,
        r.error == eval_line(line@).error,
{
    let mut interpreter = Interpreter::new(line);
    proof {
        assert(line@.skip(0) =~= line@);
    }
    interpreter.evaluate_line()
}

/// What the loop does next.
#[derive(Debug, PartialEq, Eq)]
pub enum Step {
    /// The input has ended: leave the loop.
    Stop,
    /// Print these values, then the error if there is one, and read on.
    Report(LineResult),
}

/// Decides on what a read returned: `None` where the input has ended, else
/// the line that was read.
///
/// The end of the input stops the loop, and nothing else does.
pub fn respond(read: Option<&str>) -> (step: Step)
    ensures
        read is None <==> step is Stop,
        read matches Some(line) ==> (step matches Step::Report(r) && r.values@ == eval_line(
            line@,
        ).values && r.error == eval_line(line@).error),
{
    match read {
        None => Step::Stop,
        Some(line) => Step::Report(evaluate(line)),
    }
}

} // verus!
