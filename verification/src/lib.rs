//! A small expression language: scanning, recursive-descent parsing with
//! operator precedence, and tree-walking evaluation against a variable
//! environment. Every stage is specified against a mathematical model and
//! verified: the scanner against `spec_tokenize`, the parser against
//! `spec_parse_expression`, and the evaluator against `spec_evaluate`.

pub mod ast;
pub mod environment;
pub mod eval;
pub mod interp;
pub mod laws;
pub mod parser;
pub mod scanner;
pub mod token;

use vstd::prelude::*;

verus! {

/// The closed set of conditions that abort an evaluation pipeline.
/// Every stage reports the first one it meets; there is no partial result.
#[derive(Clone, Copy, Debug, PartialEq, Eq, Structural)]
pub enum InterpError {
    /// The scanner met a character outside the supported set.
    InvalidCharacter,
    /// A digit run (or an arithmetic result) does not fit in `i32`.
    IntegerOverflow,
    /// The parser met a token that cannot start or continue the current rule.
    UnexpectedToken,
    /// An `Assign` node whose left side is not an identifier.
    InvalidAssignmentTarget,
    /// An identifier was read before any value was assigned to it.
    UnknownIdentifier,
    /// A division whose divisor evaluated to zero.
    DivisionByZero,
}

} // verus!
