//! The crate-wide error type.
use vstd::prelude::*;

use crate::text::owned;
use vstd::string::StringExecFns;

verus! {

/// The error type returned by every fallible operation in this crate.
///
/// Each variant carries a human-readable message describing what went wrong
/// and at which stage of the parse → evaluate pipeline.
#[derive(Debug, Clone, PartialEq, Eq)]
#[non_exhaustive]
pub enum RollatoriumError {
    /// The lexer could not turn the input string into tokens.
    Lexer(String),
    /// The parser could not build a valid AST from the tokens.
    Parser(String),
    /// A well-formed expression could not be evaluated, e.g. a non-positive
    /// die size or exceeding the configured maximum number of rolls.
    Eval(String),
    /// An expression divided (or took a remainder) by a zero divisor.
    DivisionByZero,
}

/// The text that a [`RollatoriumError`] displays as.
pub open spec fn error_message(e: RollatoriumError) -> Seq<char> {
    match e {
        RollatoriumError::Lexer(m) => "Lexer error: "@ + m@,
        RollatoriumError::Parser(m) => "Parser error: "@ + m@,
        RollatoriumError::Eval(m) => "Evaluation error: "@ + m@,
        RollatoriumError::DivisionByZero => "Division by zero"@,
    }
}

impl RollatoriumError {
    /// The human-readable text of this error: the stage, a colon and the
    /// message (`Lexer error: …`, `Parser error: …`, `Evaluation error: …`),
    /// or `Division by zero`.
    pub fn message(&self) -> (r: String)
        ensures
            r@ == error_message(*self),
    {
        match self {
            RollatoriumError::Lexer(m) => {
                let mut s = owned("Lexer error: ");
                s.append(m.as_str());
                s
            },
            RollatoriumError::Parser(m) => {
                let mut s = owned("Parser error: ");
                s.append(m.as_str());
                s
            },
            RollatoriumError::Eval(m) => {
                let mut s = owned("Evaluation error: ");
                s.append(m.as_str());
                s
            },
            RollatoriumError::DivisionByZero => owned("Division by zero"),
        }
    }
}

} // verus!
