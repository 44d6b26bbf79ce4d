//! The tokenizer: text to a flat sequence of operators and identifiers,
//! with the implicit products written out.
use vstd::prelude::*;
use crate::builtin::{builtin_named, function_from_string};
use crate::literal::is_digit;
use crate::operator::{operator_at, Operator};

verus! {

/// A token of a formula. An identifier is given by the span
/// `start..end` of the characters of the text that it covers.
#[derive(Clone, Copy, Debug, PartialEq, Eq, Structural)]
pub enum Token {
    Operator(Operator),
    Identifier { start: usize, end: usize },
}

/// A character that may stand in a number.
pub open spec fn is_numeric_char(c: char) -> bool {
    is_digit(c) || c == '.'
}

pub open spec fn all_numeric(s: Seq<char>) -> bool {
    forall|i: int| 0 <= i < s.len() ==> is_numeric_char(#[trigger] s[i])
}

/// The character after position `i`, if any.
pub open spec fn next_char(cs: Seq<char>, i: int) -> Option<char> {
    if i + 1 < cs.len() {
        Some(cs[i + 1])
    } else {
        None
    }
}

pub open spec fn last_is(parts: Seq<Token>, t: Token) -> bool {
    parts.len() > 0 && parts.last() == t
}

/// Closes the pending identifier `start..i`, if it is not empty. After a
/// `)` it is a factor of a product.
pub open spec fn flush(parts: Seq<Token>, start: int, i: int) -> Seq<Token> {
    if start >= i {
        parts
    } else if last_is(parts, Token::Operator(Operator::ParenClose)) {
        parts.push(Token::Operator(Operator::Mul)).push(
            Token::Identifier { start: start as usize, end: i as usize },
        )
    } else {
        parts.push(Token::Identifier { start: start as usize, end: i as usize })
    }
}

/// A `(` that comes right after a `)`, or after a name that is no
/// built-in, opens a factor rather than an argument list.
pub open spec fn product_before_paren(cs: Seq<char>, parts: Seq<Token>) -> bool {
    parts.len() > 0 && match parts.last() {
        Token::Operator(op) => op == Operator::ParenClose,
        Token::Identifier { start, end } => builtin_named(
            cs.subrange(start as int, end as int),
        ) is None,
    }
}

/// Appends the operator `op`, with a `*` before it where it opens a factor.
pub open spec fn emit(cs: Seq<char>, parts: Seq<Token>, op: Operator) -> Seq<Token> {
    if op == Operator::ParenOpen && product_before_paren(cs, parts) {
        parts.push(Token::Operator(Operator::Mul)).push(Token::Operator(op))
    } else {
        parts.push(Token::Operator(op))
    }
}

/// The tokens of `cs`, from position `i` on, where `parts` have been read
/// and the pending identifier starts at `start`.
pub open spec fn scan(cs: Seq<char>, i: int, start: int, parts: Seq<Token>) -> Seq<Token>
    decreases cs.len() - i,
{
    if i < 0 || i >= cs.len() {
        flush(parts, start, cs.len() as int)
    } else {
        match operator_at(cs[i], next_char(cs, i)) {
            Some((op, n)) => if n >= 1 {
                scan(cs, i + n, i + n, emit(cs, flush(parts, start, i), op))
            } else {
                parts
            },
            None => if !is_numeric_char(cs[i]) && start < i && all_numeric(
                cs.subrange(start, i),
            ) {
                scan(cs, i + 1, i, flush(parts, start, i).push(Token::Operator(Operator::Mul)))
            } else {
                scan(cs, i + 1, start, parts)
            },
        }
    }
}

/// The tokens of the text `cs`.
pub open spec fn tokens_of(cs: Seq<char>) -> Seq<Token> {
    scan(cs, 0, 0, seq![])
}

/// Every identifier of `ts` is a span of a text of `len` characters.
pub open spec fn spans_within(ts: Seq<Token>, len: int) -> bool {
    forall|k: int|
        0 <= k < ts.len() ==> match #[trigger] ts[k] {
            Token::Identifier { start, end } => start <= end <= len,
            _ => true,
        }
}

proof fn lemma_operator_len(c: char, next: Option<char>)
    ensures
        operator_at(c, next) matches Some((_, n)) ==> (n == 1 || (n == 2 && next is Some)),
{
}

/// Splits the characters of a formula into tokens. A character that
/// starts an operator ends the pending identifier; any other character
/// extends it. A `*` is written out where the formula implies a product:
/// before an identifier or a `(` that follows a `)`, between a run of
/// digits and dots and the character that ends it, and before a `(` that
/// follows a name that is no built-in function (`y(3)` is `y*(3)`, while
/// `sin(3)` stays a call).
pub fn split_operator(cs: &[char]) -> (r: Vec<Token>)
    ensures
        r@ == tokens_of(cs@),
        spans_within(r@, cs@.len() as int),
{
    let mut parts: Vec<Token> = Vec::new();
    let mut start: usize = 0;
    let mut numeric = true;
    let mut i: usize = 0;
    let n = cs.len();
    while i < n
        invariant
            n == cs@.len(),
            start <= i <= n,
            scan(cs@, i as int, start as int, parts@) == tokens_of(cs@),
            numeric == all_numeric(cs@.subrange(start as int, i as int)),
            spans_within(parts@, i as int),
        decreases n - i,
    {
        let c = cs[i];
        let next = if i + 1 < n { Some(cs[i + 1]) } else { None };
        proof { lemma_operator_len(c, next); }
        match Operator::from_char(c, next) {
            Some((op, width)) => {
                if start < i {
                    if parts.len() > 0 && parts[parts.len() - 1] == Token::Operator(
                        Operator::ParenClose,
                    ) {
                        parts.push(Token::Operator(Operator::Mul));
                    }
                    parts.push(Token::Identifier { start, end: i });
                }
                if op == Operator::ParenOpen && parts.len() > 0 {
                    let product = match parts[parts.len() - 1] {
                        Token::Operator(o) => o == Operator::ParenClose,
                        Token::Identifier { start: s, end: e } => function_from_string(
                            cs,
                            s,
                            e,
                        ).is_none(),
                    };
                    if product {
                        parts.push(Token::Operator(Operator::Mul));
                    }
                }
                parts.push(Token::Operator(op));
                i = i + width;
                start = i;
                numeric = true;
                assert(cs@.subrange(start as int, i as int).len() == 0);
            },
            None => {
                let is_num = '0' <= c && c <= '9' || c == '.';
                if !is_num && start < i && numeric {
                    if parts.len() > 0 && parts[parts.len() - 1] == Token::Operator(
                        Operator::ParenClose,
                    ) {
                        parts.push(Token::Operator(Operator::Mul));
                    }
                    parts.push(Token::Identifier { start, end: i });
                    parts.push(Token::Operator(Operator::Mul));
                    start = i;
                }
                i = i + 1;
                numeric = numeric && is_num;
                proof {
                    let prev = cs@.subrange(start as int, i - 1);
                    let cur = cs@.subrange(start as int, i as int);
                    assert(cur =~= prev.push(c));
                    if all_numeric(cur) {
                        assert forall|j: int| 0 <= j < prev.len() implies is_numeric_char(
                            #[trigger] prev[j],
                        ) by {
                            assert(cur[j] == prev[j]);
                        }
                        assert(is_numeric_char(cur[cur.len() - 1]));
                    }
                }
            },
        }
    }
    if start < n {
        if parts.len() > 0 && parts[parts.len() - 1] == Token::Operator(Operator::ParenClose) {
            parts.push(Token::Operator(Operator::Mul));
        }
        parts.push(Token::Identifier { start, end: n });
    }
    parts
}

} // verus!
