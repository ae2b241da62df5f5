//! The error taxonomy: parse errors, evaluation errors, modulation errors,
//! and the errors a wire transport may surface.

use vstd::prelude::*;

verus! {

/// What was malformed on a source line.
#[derive(Debug, Clone, Copy, PartialEq, Eq)]
pub enum ParseErrorKind {
    /// A line with text but no `=` separating the left-hand side.
    MissingDefinition,
    /// The left-hand side is empty or not an identifier form.
    MalformedLeftHandSide,
    /// A numeric token that is not a valid literal (or does not fit).
    MalformedNumber,
    /// A parenthesized list form that is not closed or not comma-separated.
    MalformedList,
    /// A token that names no operator, number, or identifier.
    UnknownToken,
}

/// A syntactic failure, fatal to the containing definition; `line` counts
/// source lines from zero.
#[derive(Debug, Clone, Copy, PartialEq, Eq)]
pub struct ParseError {
    pub line: usize,
    pub kind: ParseErrorKind,
}

/// A fatal evaluation failure; the evaluator does not recover from any of
/// these, it propagates them to the caller.
#[derive(Debug, Clone, Copy, PartialEq, Eq)]
pub enum EvalError {
    /// An operator was applied to a value of the wrong shape, or a malformed
    /// construction exhausted its arguments.
    TypeMismatch,
    /// A variable reference names no definition in the environment.
    UnknownName,
    /// `div` with a zero divisor.
    DivisionByZero,
    /// `dem` on a bit string that is not a modulated value.
    BadModulation,
    /// The reduction-step budget ran out.
    BudgetExhausted,
    /// An arithmetic result does not fit the literal type.
    Overflow,
}

/// Why a bit string failed to demodulate.
#[derive(Debug, Clone, Copy, PartialEq, Eq)]
pub enum ModError {
    /// The bit string ended before the value it promises was complete.
    Truncated,
    /// Bits remained after a complete value, or the header was malformed.
    UnexpectedPrefix,
}

/// A failure surfaced by a wire transport when a modulated value is sent.
#[derive(Debug, Clone, Copy, PartialEq, Eq)]
pub enum SendError {
    /// The transport could not reach the far side.
    Network,
    /// The far side answered with an unexpected status.
    Status,
    /// The reply was not a well-formed modulated value.
    Protocol,
    /// The host cancelled the exchange.
    Cancelled,
}

/// Any failure of a whole run: parsing the program text or reducing it.
#[derive(Debug, Clone, Copy, PartialEq, Eq)]
pub enum Error {
    Parse(ParseError),
    Eval(EvalError),
}

} // verus!
