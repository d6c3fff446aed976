//! The errors a formula can be rejected with.
//!
//! Lexical errors carry the offending source offsets; structural parse
//! errors carry the span(s) that triggered them. Offsets count Unicode
//! scalar values from the start of the input.

use vstd::prelude::*;
use crate::token::Operator;

verus! {

/// Why tokenizing or parsing a formula failed.
///
/// All spans are half-open offset ranges `[start, end)` in Unicode scalar
/// values; they are reported for messages and never affect parsing
/// decisions.
#[derive(Debug, Clone, Copy, PartialEq, Eq, Structural)]
pub enum ParseError {
    /// A character that no token can start with.
    UnexpectedCharacter { ch: char, at: usize },
    /// A bare `!`, which is only valid as part of `!=`.
    LoneExclamation { at: usize },
    /// A run of digits that does not fit a signed 64-bit integer.
    MalformedIntLiteral { start: usize, end: usize },
    /// A numeric literal with a decimal point but no digits.
    MalformedFloatLiteral { start: usize, end: usize },
    /// A `)` with no enclosing `(`; `at` is the offset just past it.
    UnexpectedClosingParenthesis { at: usize },
    /// The input ended inside an open parenthesis.
    UnterminatedParenthesis { at: usize },
    /// An operator other than `+` or `-` in prefix position.
    IllegalUnaryOperator { op: Operator, start: usize, end: usize },
    /// An operator with no binary precedence tier between two operands.
    IllegalBinaryOperator { op: Operator, start: usize, end: usize },
    /// An operand where a binary operator was expected.
    ExpectedOperator { start: usize, end: usize },
    /// The symbol sequence ended while an operand was still expected.
    IncompleteExpression,
    /// An operand reached the composition stack with no operator frame
    /// open and further symbols still pending.
    ExpectedOperatorInPostfix { start: usize, end: usize },
    /// The composition stack did not reduce to exactly one finished tree.
    UnreducedComposition,
}

} // verus!
