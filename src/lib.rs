//! Parsing and evaluation of infix formulas.
//!
//! Text goes through a tokenizer, a shunting-yard reducer and a tree builder
//! to become an [`Expression`], which can then be evaluated many times, at
//! different inputs and against an [`Environment`] of named variables, over
//! any number type that implements [`Scalar`].
pub mod ast;
pub mod builtin;
pub mod env;
pub mod error;
pub mod eval;
pub mod laws;
pub mod literal;
pub mod operator;
pub mod parse;
pub mod reduce;
pub mod token;

pub use ast::{match_expression, Expression, Function};
pub use builtin::{
    function_from_string, BinaryOp, Builtin, NamedConstant, ReduceOp, UnaryFn, VariadicFn,
};
pub use env::Environment;
pub use error::ParseError;
pub use eval::{Arguments, LiteralText, Scalar};
pub use operator::Operator;
pub use parse::{parse_chars, parse_expression, reduced_text, text_chars};
pub use reduce::filter_tokens_priority;
pub use token::{split_operator, Token};
