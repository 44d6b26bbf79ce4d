//! The shunting-yard reducer: tokens in infix order to tokens in prefix
//! order, operators before their operands.
use vstd::prelude::*;
use crate::error::ParseError;
use crate::operator::{operator_precedence, Operator};
use crate::token::Token;

verus! {

/// Moves tokens from the top of `stack` to `out` until a `(` is on top or
/// the stack is empty.
pub open spec fn pop_to_paren(out: Seq<Token>, stack: Seq<Token>) -> (Seq<Token>, Seq<Token>)
    decreases stack.len(),
{
    if stack.len() == 0 || stack.last() == Token::Operator(Operator::ParenOpen) {
        (out, stack)
    } else {
        pop_to_paren(out.push(stack.last()), stack.drop_last())
    }
}

/// Moves operators that bind at least as tightly as precedence `p` from
/// the top of `stack` to `out`. A `(`, a `,` or a function name stops it.
pub open spec fn pop_tighter(out: Seq<Token>, stack: Seq<Token>, p: u8) -> (
    Seq<Token>,
    Seq<Token>,
)
    decreases stack.len(),
{
    if stack.len() == 0 {
        (out, stack)
    } else {
        match stack.last() {
            Token::Operator(o) => if o != Operator::ParenOpen && o != Operator::Comma
                && operator_precedence(o) >= p {
                pop_tighter(out.push(stack.last()), stack.drop_last(), p)
            } else {
                (out, stack)
            },
            Token::Identifier { .. } => (out, stack),
        }
    }
}

/// Moves what is left on `stack` to `out`, and turns `out` around; a `(`
/// left over is unbalanced.
pub open spec fn drain(out: Seq<Token>, stack: Seq<Token>) -> Result<Seq<Token>, ParseError>
    decreases stack.len(),
{
    if stack.len() == 0 {
        Ok(out.reverse())
    } else if stack.last() == Token::Operator(Operator::ParenOpen) {
        Err(ParseError::UnbalancedParenthesis)
    } else {
        drain(out.push(stack.last()), stack.drop_last())
    }
}

/// The reduction of `ts` from position `k` on, with output `out` and
/// operator stack `stack` so far.
pub open spec fn shunt(ts: Seq<Token>, k: int, out: Seq<Token>, stack: Seq<Token>) -> Result<
    Seq<Token>,
    ParseError,
>
    decreases ts.len() - k,
{
    if k < 0 || k >= ts.len() {
        drain(out, stack)
    } else {
        let t = ts[k];
        match t {
            Token::Operator(Operator::ParenOpen) => shunt(ts, k + 1, out, stack.push(t)),
            Token::Operator(Operator::ParenClose) => {
                let (o, s) = pop_to_paren(out, stack);
                if s.len() == 0 {
                    Err(ParseError::UnbalancedParenthesis)
                } else {
                    let s2 = s.drop_last();
                    if s2.len() > 0 && s2.last() is Identifier {
                        shunt(
                            ts,
                            k + 1,
                            o.push(Token::Operator(Operator::ParenOpen)).push(s2.last()),
                            s2.drop_last(),
                        )
                    } else {
                        shunt(ts, k + 1, o, s2)
                    }
                }
            },
            Token::Operator(Operator::Comma) => {
                let (o, s) = pop_to_paren(out, stack);
                if s.len() == 0 {
                    Err(ParseError::UnexpectedComma)
                } else {
                    shunt(ts, k + 1, o.push(t), s)
                }
            },
            Token::Operator(Operator::Space) => shunt(ts, k + 1, out, stack),
            Token::Operator(op) => {
                let (o, s) = pop_tighter(out, stack, operator_precedence(op));
                shunt(ts, k + 1, o, s.push(t))
            },
            Token::Identifier { .. } => if k + 1 < ts.len() && ts[k + 1] == Token::Operator(
                Operator::ParenOpen,
            ) {
                shunt(ts, k + 2, out, stack.push(t).push(ts[k + 1]))
            } else {
                shunt(ts, k + 1, out.push(t), stack)
            },
        }
    }
}

/// The prefix-order reduction of the tokens `ts`.
pub open spec fn reduced(ts: Seq<Token>) -> Result<Seq<Token>, ParseError> {
    shunt(ts, 0, seq![], seq![])
}

/// The form of a reduced sequence: no space and no `)`, and each `(`
/// comes right after a function name.
pub open spec fn is_prefix_form(ts: Seq<Token>) -> bool {
    forall|j: int|
        0 <= j < ts.len() ==> #[trigger] ts[j] != Token::Operator(Operator::Space) && ts[j]
            != Token::Operator(Operator::ParenClose) && (ts[j] == Token::Operator(
            Operator::ParenOpen) ==> j > 0 && ts[j - 1] is Identifier)
}

/// The output before it is turned around: each `(` comes right before a
/// function name.
spec fn out_form(ts: Seq<Token>) -> bool {
    forall|j: int|
        0 <= j < ts.len() ==> #[trigger] ts[j] != Token::Operator(Operator::Space) && ts[j]
            != Token::Operator(Operator::ParenClose) && (ts[j] == Token::Operator(
            Operator::ParenOpen) ==> j + 1 < ts.len() && ts[j + 1] is Identifier)
}

/// No space and no `)` on the operator stack.
spec fn stack_form(ts: Seq<Token>) -> bool {
    forall|j: int|
        0 <= j < ts.len() ==> #[trigger] ts[j] != Token::Operator(Operator::Space) && ts[j]
            != Token::Operator(Operator::ParenClose)
}

/// Every identifier of `ts` is one of `source`.
pub open spec fn drawn_from(ts: Seq<Token>, source: Seq<Token>) -> bool {
    forall|i: int| 0 <= i < ts.len() && ts[i] is Identifier ==> source.contains(#[trigger] ts[i])
}

fn move_to_paren(out: &mut Vec<Token>, stack: &mut Vec<Token>)
    ensures
        (final(out)@, final(stack)@) == pop_to_paren(old(out)@, old(stack)@),
        out_form(old(out)@) && stack_form(old(stack)@) ==> out_form(final(out)@) && stack_form(
            final(stack)@,
        ),
        forall|src: Seq<Token>|
            drawn_from(old(out)@, src) && drawn_from(old(stack)@, src) ==> drawn_from(
                final(out)@,
                src,
            ) && drawn_from(final(stack)@, src),
{
    while stack.len() > 0 && stack[stack.len() - 1] != Token::Operator(Operator::ParenOpen)
        invariant
            pop_to_paren(out@, stack@) == pop_to_paren(old(out)@, old(stack)@),
            out_form(old(out)@) && stack_form(old(stack)@) ==> out_form(out@) && stack_form(
                stack@,
            ),
            forall|src: Seq<Token>|
                drawn_from(old(out)@, src) && drawn_from(old(stack)@, src) ==> drawn_from(
                    out@,
                    src,
                ) && drawn_from(stack@, src),
        decreases stack.len(),
    {
        let t = stack.pop().unwrap();
        out.push(t);
    }
}

fn move_tighter(out: &mut Vec<Token>, stack: &mut Vec<Token>, p: u8)
    ensures
        (final(out)@, final(stack)@) == pop_tighter(old(out)@, old(stack)@, p),
        out_form(old(out)@) && stack_form(old(stack)@) ==> out_form(final(out)@) && stack_form(
            final(stack)@,
        ),
        forall|src: Seq<Token>|
            drawn_from(old(out)@, src) && drawn_from(old(stack)@, src) ==> drawn_from(
                final(out)@,
                src,
            ) && drawn_from(final(stack)@, src),
{
    while stack.len() > 0
        invariant
            pop_tighter(out@, stack@, p) == pop_tighter(old(out)@, old(stack)@, p),
            out_form(old(out)@) && stack_form(old(stack)@) ==> out_form(out@) && stack_form(
                stack@,
            ),
            forall|src: Seq<Token>|
                drawn_from(old(out)@, src) && drawn_from(old(stack)@, src) ==> drawn_from(
                    out@,
                    src,
                ) && drawn_from(stack@, src),
        decreases stack.len(),
    {
        let t = stack[stack.len() - 1];
        let pops = match t {
            Token::Operator(o) => o != Operator::ParenOpen && o != Operator::Comma
                && o.precedence() >= p,
            Token::Identifier { .. } => false,
        };
        if !pops {
            return ;
        }
        stack.pop();
        out.push(t);
    }
}

fn reversed(v: Vec<Token>) -> (r: Vec<Token>)
    ensures
        r@ == v@.reverse(),
        forall|src: Seq<Token>| drawn_from(v@, src) ==> drawn_from(r@, src),
        out_form(v@) ==> is_prefix_form(r@),
{
    let ghost orig = v@;
    let mut v = v;
    let mut r: Vec<Token> = Vec::new();
    while v.len() > 0
        invariant
            v@ == orig.take(v@.len() as int),
            v@.len() <= orig.len(),
            r@.len() + v@.len() == orig.len(),
            forall|j: int| 0 <= j < r@.len() ==> r@[j] == orig[orig.len() - 1 - j],
        decreases v.len(),
    {
        let t = v.pop().unwrap();
        r.push(t);
    }
    assert(r@ =~= orig.reverse());
    proof {
        if out_form(orig) {
            assert forall|j: int| 0 <= j < r@.len() implies #[trigger] r@[j] != Token::Operator(
                Operator::Space,
            ) && r@[j] != Token::Operator(Operator::ParenClose) && (r@[j] == Token::Operator(
                Operator::ParenOpen,
            ) ==> j > 0 && r@[j - 1] is Identifier) by {
                assert(r@[j] == orig[orig.len() - 1 - j]);
                if r@[j] == Token::Operator(Operator::ParenOpen) {
                    assert(orig[orig.len() - 1 - j + 1] == r@[j - 1]);
                }
            }
        }
        assert forall|src: Seq<Token>| drawn_from(orig, src) implies drawn_from(r@, src) by {
            assert forall|i: int| 0 <= i < r@.len() && r@[i] is Identifier implies src.contains(
                #[trigger] r@[i],
            ) by {
                assert(r@[i] == orig[orig.len() - 1 - i]);
            }
        }
    }
    r
}

/// Reduces tokens in infix order to prefix order by the shunting-yard
/// method: operators come before their operands, a function name before
/// `(` and its arguments, and the arguments of a call in reverse order,
/// parted by `,`. Spaces are dropped. An operator pops those of equal
/// precedence before it, so all binary operators fold to the left:
/// `2^3^2` is `(2^3)^2`.
pub fn filter_tokens_priority(input: &[Token]) -> (r: Result<Vec<Token>, ParseError>)
    ensures
        r matches Ok(v) ==> reduced(input@) == Ok::<Seq<Token>, ParseError>(v@) && drawn_from(
            v@,
            input@,
        ) && is_prefix_form(v@),
        r matches Err(e) ==> reduced(input@) == Err::<Seq<Token>, ParseError>(e) && (e is UnbalancedParenthesis
            || e is UnexpectedComma),
{
    let mut out: Vec<Token> = Vec::new();
    let mut stack: Vec<Token> = Vec::new();
    let n = input.len();
    let mut k: usize = 0;
    while k < n
        invariant
            n == input@.len(),
            k <= n,
            shunt(input@, k as int, out@, stack@) == reduced(input@),
            drawn_from(out@, input@),
            drawn_from(stack@, input@),
            out_form(out@),
            stack_form(stack@),
        decreases n - k,
    {
        let t = input[k];
        match t {
            Token::Operator(Operator::ParenOpen) => {
                stack.push(t);
                k = k + 1;
            },
            Token::Operator(Operator::ParenClose) => {
                move_to_paren(&mut out, &mut stack);
                if stack.len() == 0 {
                    return Err(ParseError::UnbalancedParenthesis);
                }
                stack.pop();
                if stack.len() > 0 {
                    let top = stack[stack.len() - 1];
                    if let Token::Identifier { .. } = top {
                        stack.pop();
                        out.push(Token::Operator(Operator::ParenOpen));
                        out.push(top);
                    }
                }
                k = k + 1;
            },
            Token::Operator(Operator::Comma) => {
                move_to_paren(&mut out, &mut stack);
                if stack.len() == 0 {
                    return Err(ParseError::UnexpectedComma);
                }
                out.push(t);
                k = k + 1;
            },
            Token::Operator(Operator::Space) => {
                k = k + 1;
            },
            Token::Operator(op) => {
                move_tighter(&mut out, &mut stack, op.precedence());
                stack.push(t);
                k = k + 1;
            },
            Token::Identifier { .. } => {
                if k + 1 < n && input[k + 1] == Token::Operator(Operator::ParenOpen) {
                    stack.push(t);
                    stack.push(input[k + 1]);
                    k = k + 2;
                } else {
                    out.push(t);
                    k = k + 1;
                }
            },
        }
    }
    while stack.len() > 0
        invariant
            drain(out@, stack@) == reduced(input@),
            drawn_from(out@, input@),
            drawn_from(stack@, input@),
            out_form(out@),
            stack_form(stack@),
        decreases stack.len(),
    {
        let t = stack.pop().unwrap();
        if t == Token::Operator(Operator::ParenOpen) {
            return Err(ParseError::UnbalancedParenthesis);
        }
        out.push(t);
    }
    Ok(reversed(out))
}

} // verus!
