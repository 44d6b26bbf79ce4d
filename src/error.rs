//! Why a formula could not be parsed.
use vstd::prelude::*;
use crate::operator::Operator;

verus! {

/// A parse failure. Spans count characters of the formula's text.
#[derive(Clone, Copy, Debug, PartialEq, Eq, Structural)]
pub enum ParseError {
    /// A `)` without its `(`, or a `(` that is never closed.
    UnbalancedParenthesis,
    /// A `,` outside of any parentheses.
    UnexpectedComma,
    /// A function name, at `start..end`, with no argument list after it.
    UnexpectedIdentifier { start: usize, end: usize },
    /// A `,` where an operand was expected.
    UnexpectedOperator(Operator),
    /// An operand was expected, and the formula had ended.
    EmptyExpression,
    /// A token sequence that the reducer never produces reached the tree
    /// builder.
    Internal,
}

/// The description of a failure.
pub open spec fn message_of(e: ParseError) -> Seq<char> {
    match e {
        ParseError::UnbalancedParenthesis => "Unbalanced parenthesis"@,
        ParseError::UnexpectedComma => "Unexpected ','"@,
        ParseError::UnexpectedIdentifier { .. } => "Unexpected identifier"@,
        ParseError::UnexpectedOperator(_) => "Unexpected operator"@,
        ParseError::EmptyExpression => "Expression was expected but none found"@,
        ParseError::Internal => "Internal error"@,
    }
}

impl ParseError {
    /// A short description of the failure.
    pub fn message(&self) -> (r: &'static str)
        ensures
            r@ == message_of(*self),
    {
        match self {
            ParseError::UnbalancedParenthesis => "Unbalanced parenthesis",
            ParseError::UnexpectedComma => "Unexpected ','",
            ParseError::UnexpectedIdentifier { .. } => "Unexpected identifier",
            ParseError::UnexpectedOperator(_) => "Unexpected operator",
            ParseError::EmptyExpression => "Expression was expected but none found",
            ParseError::Internal => "Internal error",
        }
    }
}

} // verus!
