//! An evaluator for a small combinator-calculus language: a parser for its
//! line-oriented program text, a lazy stack-machine evaluator over SKI-style
//! combinators, and the bit-string modulation codec used on the wire.

pub mod ast;
pub mod errors;
pub mod parser;
pub mod stack_interpreter;

use crate::ast::{Symbol, SymbolView};
use crate::errors::Error;
use vstd::prelude::*;
use vstd::string::StringSliceAdditionalSpecFns;

verus! {

/// What running a program text means: parse it into definitions, then
/// reduce the last definition's body with the default budget.
pub open spec fn run_spec(s: Seq<u8>) -> Result<SymbolView, Error> {
    match parser::parse_program(s) {
        Err(p) => Err(Error::Parse(p)),
        Ok(sts) => match stack_interpreter::interpret_spec(
            sts,
            stack_interpreter::DEFAULT_BUDGET as nat,
        ) {
            Ok(v) => Ok(v),
            Err(e) => Err(Error::Eval(e)),
        },
    }
}

/// Parse a program and reduce its last definition to weak-head normal
/// form.
pub fn run(program: &str) -> (r: Result<Symbol, Error>)
    ensures
        match (r, run_spec(program.spec_bytes())) {
            (Ok(v), Ok(sv)) => v@ == sv,
            (Err(e), Err(ev)) => e == ev,
            _ => false,
        },
{
    match parser::parse_as_lines(program) {
        Err(p) => Err(Error::Parse(p)),
        Ok(statements) => match stack_interpreter::stack_interpret(statements) {
            Ok(v) => Ok(v),
            Err(e) => Err(Error::Eval(e)),
        },
    }
}

} // verus!
