//! The expression tree and its builder.
use vstd::prelude::*;
use crate::builtin::{
    builtin_named, function_from_string, BinaryOp, Builtin, NamedConstant, ReduceOp, UnaryFn,
    VariadicFn,
};
use crate::error::ParseError;
use crate::literal::{is_number_literal, is_number_literal_at};
use crate::operator::Operator;
use crate::reduce::is_prefix_form;
use crate::token::{spans_within, Token};

verus! {

/// What an expression node does. Fixed when the tree is built.
#[derive(Debug, PartialEq)]
pub enum Function {
    /// A function of its one child.
    Unary(UnaryFn),
    /// A function of the list of its children.
    Variadic(VariadicFn),
    /// An infix operator on its two children.
    Binary(BinaryOp),
    /// A named constant.
    Constant(NamedConstant),
    /// A number, by its text.
    Literal(Vec<char>),
    /// The input value `x`.
    InputSymbol,
    /// A variable of the environment, by its name.
    FreeVariable(Vec<char>),
    /// Stores the value of the second child under the name of the first.
    Assign,
    /// `sum` or `prod`: the first child assigns the start of the loop
    /// variable, the second is the last value, the third the body.
    Reduce(ReduceOp),
    /// `if`: condition, then-branch, else-branch.
    Conditional,
}

/// The mathematical form of a [`Function`].
pub enum Tag {
    Unary(UnaryFn),
    Variadic(VariadicFn),
    Binary(BinaryOp),
    Constant(NamedConstant),
    Literal(Seq<char>),
    InputSymbol,
    FreeVariable(Seq<char>),
    Assign,
    Reduce(ReduceOp),
    Conditional,
}

/// The mathematical form of an [`Expression`].
pub struct Tree {
    pub tag: Tag,
    pub children: Seq<Tree>,
}

impl View for Function {
    type V = Tag;

    open spec fn view(&self) -> Tag {
        match self {
            Function::Unary(f) => Tag::Unary(*f),
            Function::Variadic(f) => Tag::Variadic(*f),
            Function::Binary(op) => Tag::Binary(*op),
            Function::Constant(c) => Tag::Constant(*c),
            Function::Literal(t) => Tag::Literal(t@),
            Function::InputSymbol => Tag::InputSymbol,
            Function::FreeVariable(n) => Tag::FreeVariable(n@),
            Function::Assign => Tag::Assign,
            Function::Reduce(op) => Tag::Reduce(*op),
            Function::Conditional => Tag::Conditional,
        }
    }
}

/// An expression node: what it does, and its children, which it owns.
#[derive(Debug, PartialEq)]
pub struct Expression {
    pub function: Function,
    pub params: Vec<Expression>,
}

impl Expression {
    pub open spec fn tree(&self) -> Tree
        decreases self,
    {
        Tree {
            tag: self.function@,
            children: Seq::new(
                self.params@.len(),
                |i: int|
                    if 0 <= i < self.params@.len() {
                        self.params@[i].tree()
                    } else {
                        Tree { tag: Tag::InputSymbol, children: seq![] }
                    },
            ),
        }
    }
}

/// The trees of a list of expressions.
pub open spec fn trees(es: Seq<Expression>) -> Seq<Tree> {
    Seq::new(es.len(), |i: int| es[i].tree())
}

pub open spec fn leaf(tag: Tag) -> Tree {
    Tree { tag, children: seq![] }
}

/// The number zero, the left operand of a negation.
pub open spec fn zero_tree() -> Tree {
    leaf(Tag::Literal(seq!['0']))
}

/// What a name stands for: a built-in, the input `x`, a number, or else a
/// variable.
pub open spec fn resolve(name: Seq<char>) -> Tag {
    match builtin_named(name) {
        Some(Builtin::Unary(f)) => Tag::Unary(f),
        Some(Builtin::Variadic(f)) => Tag::Variadic(f),
        Some(Builtin::Constant(c)) => Tag::Constant(c),
        Some(Builtin::Reduce(op)) => Tag::Reduce(op),
        Some(Builtin::Conditional) => Tag::Conditional,
        None => if name == seq!['x'] {
            Tag::InputSymbol
        } else if is_number_literal(name) {
            Tag::Literal(name)
        } else {
            Tag::FreeVariable(name)
        },
    }
}

/// A name that must be followed by an argument list.
pub open spec fn needs_args(tag: Tag) -> bool {
    tag is Unary || tag is Variadic || tag is Reduce || tag is Conditional
}

/// What an infix operator computes; `None` for the other operators.
pub open spec fn infix_tag(op: Operator) -> Option<Tag> {
    match op {
        Operator::Add => Some(Tag::Binary(BinaryOp::Add)),
        Operator::Sub => Some(Tag::Binary(BinaryOp::Sub)),
        Operator::Mul => Some(Tag::Binary(BinaryOp::Mul)),
        Operator::Div => Some(Tag::Binary(BinaryOp::Div)),
        Operator::Pow => Some(Tag::Binary(BinaryOp::Pow)),
        Operator::Equal => Some(Tag::Binary(BinaryOp::Equal)),
        Operator::NotEqual => Some(Tag::Binary(BinaryOp::NotEqual)),
        Operator::LessEq => Some(Tag::Binary(BinaryOp::LessEq)),
        Operator::Less => Some(Tag::Binary(BinaryOp::Less)),
        Operator::GreaterEq => Some(Tag::Binary(BinaryOp::GreaterEq)),
        Operator::Greater => Some(Tag::Binary(BinaryOp::Greater)),
        Operator::Assign => Some(Tag::Assign),
        _ => None,
    }
}

/// The tree that starts at position `k` of the prefix-order tokens `ts`
/// of the text `cs`, and the position after it. A name followed by `(`
/// takes its arguments: one for a unary function, a list parted by `,`
/// for the others; a name that needs arguments and has none is an error.
/// An operator takes its operands from what follows, the right one first.
/// A `-` whose operand ends the sequence or an argument is a negation,
/// with zero as its left operand.
pub open spec fn build(cs: Seq<char>, ts: Seq<Token>, k: int) -> Result<(Tree, int), ParseError>
    decreases ts.len() - k, 1int,
{
    if k < 0 || k >= ts.len() {
        Err(ParseError::EmptyExpression)
    } else {
        match ts[k] {
            Token::Identifier { start, end } => {
                if !(start <= end && end <= cs.len()) {
                    Err(ParseError::Internal)
                } else {
                    let tag = resolve(cs.subrange(start as int, end as int));
                    if k + 1 < ts.len() && ts[k + 1] == Token::Operator(Operator::ParenOpen) {
                        if tag is Unary {
                            match build(cs, ts, k + 2) {
                                Ok((c, j)) => Ok((Tree { tag, children: seq![c] }, j)),
                                Err(e) => Err(e),
                            }
                        } else if needs_args(tag) {
                            match build(cs, ts, k + 2) {
                                Ok((c, j)) => if k < j <= ts.len() {
                                    build_args(cs, ts, j, tag, seq![c])
                                } else {
                                    Err(ParseError::Internal)
                                },
                                Err(e) => Err(e),
                            }
                        } else {
                            Ok((leaf(tag), k + 2))
                        }
                    } else if needs_args(tag) {
                        Err(ParseError::UnexpectedIdentifier { start, end })
                    } else {
                        Ok((leaf(tag), k + 1))
                    }
                }
            },
            Token::Operator(op) => {
                if op == Operator::ParenOpen || op == Operator::Space {
                    Err(ParseError::Internal)
                } else if op == Operator::Comma || op == Operator::ParenClose {
                    Err(ParseError::UnexpectedOperator(op))
                } else if op == Operator::Factorial || op == Operator::Square {
                    let f = if op == Operator::Factorial {
                        UnaryFn::Factorial
                    } else {
                        UnaryFn::Square
                    };
                    match build(cs, ts, k + 1) {
                        Ok((c, j)) => Ok((Tree { tag: Tag::Unary(f), children: seq![c] }, j)),
                        Err(e) => Err(e),
                    }
                } else {
                    let tag = infix_tag(op)->0;
                    match build(cs, ts, k + 1) {
                        Ok((b, j)) => if op == Operator::Sub && (j >= ts.len() || (0 <= j
                            && ts[j] == Token::Operator(Operator::Comma))) {
                            Ok((Tree { tag, children: seq![zero_tree(), b] }, j))
                        } else if k < j <= ts.len() {
                            match build(cs, ts, j) {
                                Ok((a, j2)) => Ok((Tree { tag, children: seq![a, b] }, j2)),
                                Err(e) => Err(e),
                            }
                        } else {
                            Err(ParseError::Internal)
                        },
                        Err(e) => Err(e),
                    }
                }
            },
        }
    }
}

/// The rest of an argument list at position `j`: each further argument
/// follows a `,` and goes before those read so far.
pub open spec fn build_args(cs: Seq<char>, ts: Seq<Token>, j: int, tag: Tag, acc: Seq<Tree>) -> Result<
    (Tree, int),
    ParseError,
>
    decreases ts.len() - j, 0int,
{
    if 0 <= j < ts.len() && ts[j] == Token::Operator(Operator::Comma) {
        match build(cs, ts, j + 1) {
            Ok((c, j2)) => if j < j2 <= ts.len() {
                build_args(cs, ts, j2, tag, seq![c] + acc)
            } else {
                Err(ParseError::Internal)
            },
            Err(e) => Err(e),
        }
    } else {
        Ok((Tree { tag, children: acc }, j))
    }
}

proof fn lemma_tree(e: Expression)
    ensures
        e.tree() == (Tree { tag: e.function@, children: trees(e.params@) }),
{
    assert(e.tree().children =~= trees(e.params@));
}

fn node(function: Function, params: Vec<Expression>) -> (r: Expression)
    ensures
        r.tree() == (Tree { tag: function@, children: trees(params@) }),
{
    let r = Expression { function, params };
    proof { lemma_tree(r); }
    r
}

fn leaf_node(function: Function) -> (r: Expression)
    ensures
        r.tree() == leaf(function@),
{
    let r = node(function, Vec::new());
    assert(r.tree().children =~= seq![]);
    r
}

fn chars_of(cs: &[char], lo: usize, hi: usize) -> (r: Vec<char>)
    requires
        lo <= hi <= cs@.len(),
    ensures
        r@ == cs@.subrange(lo as int, hi as int),
{
    let mut r: Vec<char> = Vec::new();
    let mut i: usize = lo;
    while i < hi
        invariant
            lo <= i <= hi <= cs@.len(),
            r@ == cs@.subrange(lo as int, i as int),
        decreases hi - i,
    {
        r.push(cs[i]);
        i = i + 1;
        assert(r@ =~= cs@.subrange(lo as int, i as int));
    }
    r
}

fn resolve_name(cs: &[char], lo: usize, hi: usize) -> (r: Function)
    requires
        lo <= hi <= cs@.len(),
    ensures
        r@ == resolve(cs@.subrange(lo as int, hi as int)),
{
    match function_from_string(cs, lo, hi) {
        Some(Builtin::Unary(f)) => Function::Unary(f),
        Some(Builtin::Variadic(f)) => Function::Variadic(f),
        Some(Builtin::Constant(c)) => Function::Constant(c),
        Some(Builtin::Reduce(op)) => Function::Reduce(op),
        Some(Builtin::Conditional) => Function::Conditional,
        None => {
            let name = chars_of(cs, lo, hi);
            if hi - lo == 1 && cs[lo] == 'x' {
                assert(name@ =~= seq!['x']);
                Function::InputSymbol
            } else if is_number_literal_at(cs, lo, hi) {
                Function::Literal(name)
            } else {
                assert(name@.len() != 1 || name@[0] != 'x');
                Function::FreeVariable(name)
            }
        },
    }
}

fn infix_function(op: Operator) -> (r: Function)
    requires
        infix_tag(op) is Some,
    ensures
        r@ == infix_tag(op)->0,
{
    match op {
        Operator::Add => Function::Binary(BinaryOp::Add),
        Operator::Sub => Function::Binary(BinaryOp::Sub),
        Operator::Mul => Function::Binary(BinaryOp::Mul),
        Operator::Div => Function::Binary(BinaryOp::Div),
        Operator::Pow => Function::Binary(BinaryOp::Pow),
        Operator::Equal => Function::Binary(BinaryOp::Equal),
        Operator::NotEqual => Function::Binary(BinaryOp::NotEqual),
        Operator::LessEq => Function::Binary(BinaryOp::LessEq),
        Operator::Less => Function::Binary(BinaryOp::Less),
        Operator::GreaterEq => Function::Binary(BinaryOp::GreaterEq),
        Operator::Greater => Function::Binary(BinaryOp::Greater),
        _ => Function::Assign,
    }
}

/// Builds the tree that starts at position `k` of the prefix-order tokens
/// `ts` of the text `cs`; returns it with the position after it.
pub fn match_expression(cs: &[char], ts: &[Token], k: usize) -> (r: Result<(Expression, usize), ParseError>)
    requires
        k <= ts@.len(),
    ensures
        r matches Ok((e, j)) ==> k < j <= ts@.len() && build(cs@, ts@, k as int) == Ok::<(Tree, int), ParseError>((e.tree(), j as int)),
        r matches Err(x) ==> build(cs@, ts@, k as int) == Err::<(Tree, int), ParseError>(x),
        is_prefix_form(ts@) && spans_within(ts@, cs@.len() as int) && (k < ts@.len() ==> ts@[k as int]
            != Token::Operator(Operator::ParenOpen)) ==> (r matches Err(x) ==> x != ParseError::Internal)
            && (r matches Ok((_, j)) ==> (j < ts@.len() ==> ts@[j as int] != Token::Operator(
            Operator::ParenOpen))),
    decreases ts@.len() - k, 1int,
{
    if k >= ts.len() {
        return Err(ParseError::EmptyExpression);
    }
    match ts[k] {
        Token::Identifier { start, end } => {
            if !(start <= end && end <= cs.len()) {
                return Err(ParseError::Internal);
            }
            let function = resolve_name(cs, start, end);
            let ghost tag = function@;
            if k + 1 < ts.len() && ts[k + 1] == Token::Operator(Operator::ParenOpen) {
                match function {
                    Function::Unary(_) => {
                        let (c, j) = match match_expression(cs, ts, k + 2) {
                            Ok(p) => p,
                            Err(x) => {
                                return Err(x);
                            },
                        };
                        let mut params: Vec<Expression> = Vec::new();
                        params.push(c);
                        let e = node(function, params);
                        assert(trees(params@) =~= seq![c.tree()]);
                        Ok((e, j))
                    },
                    Function::Variadic(_) | Function::Reduce(_) | Function::Conditional => {
                        let (c, j) = match match_expression(cs, ts, k + 2) {
                            Ok(p) => p,
                            Err(x) => {
                                return Err(x);
                            },
                        };
                        let mut params: Vec<Expression> = Vec::new();
                        params.push(c);
                        assert(trees(params@) =~= seq![c.tree()]);
                        match_arguments(cs, ts, j, function, params)
                    },
                    _ => Ok((leaf_node(function), k + 2)),
                }
            } else {
                match function {
                    Function::Unary(_) | Function::Variadic(_) | Function::Reduce(_)
                    | Function::Conditional => Err(ParseError::UnexpectedIdentifier { start, end }),
                    _ => Ok((leaf_node(function), k + 1)),
                }
            }
        },
        Token::Operator(op) => {
            if op == Operator::ParenOpen || op == Operator::Space {
                Err(ParseError::Internal)
            } else if op == Operator::Comma || op == Operator::ParenClose {
                Err(ParseError::UnexpectedOperator(op))
            } else if op == Operator::Factorial || op == Operator::Square {
                let f = if op == Operator::Factorial {
                    UnaryFn::Factorial
                } else {
                    UnaryFn::Square
                };
                let (c, j) = match match_expression(cs, ts, k + 1) {
                    Ok(p) => p,
                    Err(x) => {
                        return Err(x);
                    },
                };
                let mut params: Vec<Expression> = Vec::new();
                params.push(c);
                assert(trees(params@) =~= seq![c.tree()]);
                Ok((node(Function::Unary(f), params), j))
            } else {
                let function = infix_function(op);
                let (b, j) = match match_expression(cs, ts, k + 1) {
                    Ok(p) => p,
                    Err(x) => {
                        return Err(x);
                    },
                };
                if op == Operator::Sub && (j >= ts.len() || ts[j] == Token::Operator(
                    Operator::Comma,
                )) {
                    let mut zero: Vec<char> = Vec::new();
                    zero.push('0');
                    let z = leaf_node(Function::Literal(zero));
                    assert(zero@ =~= seq!['0']);
                    let mut params: Vec<Expression> = Vec::new();
                    params.push(z);
                    params.push(b);
                    assert(trees(params@) =~= seq![zero_tree(), b.tree()]);
                    Ok((node(function, params), j))
                } else {
                    let (a, j2) = match match_expression(cs, ts, j) {
                        Ok(p) => p,
                        Err(x) => {
                            return Err(x);
                        },
                    };
                    let mut params: Vec<Expression> = Vec::new();
                    params.push(a);
                    params.push(b);
                    assert(trees(params@) =~= seq![a.tree(), b.tree()]);
                    Ok((node(function, params), j2))
                }
            }
        },
    }
}

fn match_arguments(cs: &[char], ts: &[Token], j: usize, function: Function, acc: Vec<Expression>) -> (r: Result<(Expression, usize), ParseError>)
    requires
        j <= ts@.len(),
    ensures
        r matches Ok((e, j2)) ==> j <= j2 <= ts@.len() && build_args(cs@, ts@, j as int, function@, trees(acc@)) == Ok::<(Tree, int), ParseError>((e.tree(), j2 as int)),
        r matches Err(x) ==> build_args(cs@, ts@, j as int, function@, trees(acc@)) == Err::<(Tree, int), ParseError>(x),
        is_prefix_form(ts@) && spans_within(ts@, cs@.len() as int) && (j < ts@.len() ==> ts@[j as int]
            != Token::Operator(Operator::ParenOpen)) ==> (r matches Err(x) ==> x != ParseError::Internal)
            && (r matches Ok((_, j2)) ==> (j2 < ts@.len() ==> ts@[j2 as int] != Token::Operator(
            Operator::ParenOpen))),
    decreases ts@.len() - j, 0int,
{
    if j < ts.len() && ts[j] == Token::Operator(Operator::Comma) {
        let (c, j2) = match match_expression(cs, ts, j + 1) {
            Ok(p) => p,
            Err(x) => {
                return Err(x);
            },
        };
        let mut acc = acc;
        let ghost before = acc@;
        acc.insert(0, c);
        assert(trees(acc@) =~= seq![c.tree()] + trees(before));
        match_arguments(cs, ts, j2, function, acc)
    } else {
        Ok((node(function, acc), j))
    }
}
} // verus!
