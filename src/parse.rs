//! From text to an expression tree.
use vstd::prelude::*;
use crate::ast::{build, match_expression, Expression, Tree};
use crate::error::ParseError;
use crate::operator::operator_text;
use crate::reduce::{filter_tokens_priority, reduced};
use crate::token::{spans_within, split_operator, tokens_of, Token};
use vstd::std_specs::iter::IteratorSpec;

verus! {

/// The tree of the formula `cs`, or why there is none. Tokens after the
/// first complete tree are not read.
pub open spec fn parsed(cs: Seq<char>) -> Result<Tree, ParseError> {
    match reduced(tokens_of(cs)) {
        Ok(ts) => match build(cs, ts, 0) {
            Ok((t, _)) => Ok(t),
            Err(e) => Err(e),
        },
        Err(e) => Err(e),
    }
}

/// The text of a token of the formula `cs`.
pub open spec fn token_text(cs: Seq<char>, t: Token) -> Seq<char> {
    match t {
        Token::Operator(op) => operator_text(op),
        Token::Identifier { start, end } => cs.subrange(start as int, end as int),
    }
}

/// The texts of the tokens `ts` of the formula `cs`, one after another.
pub open spec fn tokens_text(cs: Seq<char>, ts: Seq<Token>) -> Seq<char>
    decreases ts.len(),
{
    if ts.len() == 0 {
        seq![]
    } else {
        tokens_text(cs, ts.drop_last()) + token_text(cs, ts.last())
    }
}

/// The characters of `s`, in order.
pub fn text_chars(s: &str) -> (r: Vec<char>)
    ensures
        r@ == s@,
{
    broadcast use vstd::string::group_string_axioms;

    let n = s.unicode_len();
    let mut r: Vec<char> = Vec::new();
    let mut it = s.chars();
    let mut i: usize = 0;
    while i < n
        invariant
            n == s@.len(),
            i <= n,
            r@.len() == i,
            r@ + it.remaining() == s@,
        decreases n - i,
    {
        if let Some(c) = it.next() {
            r.push(c);
            assert(r@ + it.remaining() =~= s@);
        }
        i = i + 1;
    }
    assert(r@ =~= s@);
    r
}

/// Parses the characters of a formula.
pub fn parse_chars(cs: &[char]) -> (r: Result<Expression, ParseError>)
    ensures
        r matches Ok(e) ==> parsed(cs@) == Ok::<Tree, ParseError>(e.tree()),
        r matches Err(x) ==> parsed(cs@) == Err::<Tree, ParseError>(x),
        r != Err::<Expression, ParseError>(ParseError::Internal),
{
    let tokens = split_operator(cs);
    let ordered = match filter_tokens_priority(&tokens) {
        Ok(v) => v,
        Err(x) => {
            return Err(x);
        },
    };
    proof {
        assert forall|k: int| 0 <= k < ordered@.len() implies match #[trigger] ordered@[k] {
            Token::Identifier { start, end } => start <= end <= cs@.len(),
            _ => true,
        } by {
            if ordered@[k] is Identifier {
                let j = choose|j: int| 0 <= j < tokens@.len() && tokens@[j] == ordered@[k];
                assert(tokens@[j] == ordered@[k]);
            }
        }
    }
    match match_expression(cs, &ordered, 0) {
        Ok((e, _)) => Ok(e),
        Err(x) => Err(x),
    }
}

/// Parses a formula.
pub fn parse_expression(s: &str) -> (r: Result<Expression, ParseError>)
    ensures
        r matches Ok(e) ==> parsed(s@) == Ok::<Tree, ParseError>(e.tree()),
        r matches Err(x) ==> parsed(s@) == Err::<Tree, ParseError>(x),
        r != Err::<Expression, ParseError>(ParseError::Internal),
{
    let cs = text_chars(s);
    parse_chars(&cs)
}

/// The reduced, prefix-order form of a formula as text: its tokens after
/// reduction, one after another.
pub fn reduced_text(s: &str) -> (r: Result<Vec<char>, ParseError>)
    ensures
        r matches Ok(text) ==> (reduced(tokens_of(s@)) matches Ok(ts) && text@ == tokens_text(
            s@,
            ts,
        )),
        r matches Err(x) ==> reduced(tokens_of(s@)) == Err::<Seq<Token>, ParseError>(x),
{
    let cs = text_chars(s);
    let tokens = split_operator(&cs);
    let ordered = match filter_tokens_priority(&tokens) {
        Ok(v) => v,
        Err(x) => {
            return Err(x);
        },
    };
    let mut text: Vec<char> = Vec::new();
    let mut i: usize = 0;
    while i < ordered.len()
        invariant
            i <= ordered@.len(),
            cs@ == s@,
            spans_within(tokens@, cs@.len() as int),
            forall|j: int|
                0 <= j < ordered@.len() && ordered@[j] is Identifier ==> tokens@.contains(
                    #[trigger] ordered@[j],
                ),
            text@ == tokens_text(cs@, ordered@.take(i as int)),
        decreases ordered@.len() - i,
    {
        let ghost before = text@;
        match ordered[i] {
            Token::Operator(op) => {
                let t = op.to_string();
                let n = t.unicode_len();
                let mut k: usize = 0;
                while k < n
                    invariant
                        k <= n,
                        n == t@.len(),
                        text@ == before + t@.take(k as int),
                    decreases n - k,
                {
                    text.push(t.get_char(k));
                    k = k + 1;
                    assert(text@ =~= before + t@.take(k as int));
                }
                assert(t@.take(n as int) =~= t@);
            },
            Token::Identifier { start, end } => {
                proof {
                    let j = choose|j: int| 0 <= j < tokens@.len() && tokens@[j] == ordered@[i as int];
                    assert(tokens@[j] == ordered@[i as int]);
                }
                let mut k: usize = start;
                while k < end
                    invariant
                        start <= k <= end <= cs@.len(),
                        text@ == before + cs@.subrange(start as int, k as int),
                    decreases end - k,
                {
                    text.push(cs[k]);
                    k = k + 1;
                    assert(text@ =~= before + cs@.subrange(start as int, k as int));
                }
            },
        }
        proof {
            let ts = ordered@.take(i + 1);
            assert(ts.drop_last() =~= ordered@.take(i as int));
        }
        i = i + 1;
    }
    assert(ordered@.take(ordered@.len() as int) =~= ordered@);
    Ok(text)
}

} // verus!
