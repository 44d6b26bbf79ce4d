//! The tree-walking evaluator.
use vstd::prelude::*;
use crate::ast::{Expression, Function, Tag, Tree};
use crate::builtin::{BinaryOp, NamedConstant, ReduceOp, UnaryFn, VariadicFn};
use crate::env::Environment;

verus! {

/// The text of a number literal, as the verifier sees it.
pub type LiteralText = Seq<char>;

/// A list of arguments, as the verifier sees it.
pub type Arguments<S> = Seq<S>;

/// A number type that formulas are evaluated over. Each operation is a
/// function of its arguments, named by a spec function; what that function
/// computes is the implementation's arithmetic. The evaluator decides which
/// operations are applied, to what, in which order, and against which
/// environment.
pub trait Scalar: Copy + Sized {
    spec fn spec_from_int(n: i32) -> Self;

    spec fn spec_literal(text: LiteralText) -> Self;

    spec fn spec_constant(c: NamedConstant) -> Self;

    spec fn spec_nan() -> Self;

    spec fn spec_unary(f: UnaryFn, a: Self) -> Self;

    spec fn spec_binary(op: BinaryOp, a: Self, b: Self) -> Self;

    spec fn spec_variadic(f: VariadicFn, args: Arguments<Self>) -> Self;

    spec fn spec_positive(a: Self) -> bool;

    spec fn spec_round(a: Self) -> i32;

    /// The number `n`.
    fn from_int(n: i32) -> (r: Self)
        ensures
            r == Self::spec_from_int(n),
    ;

    /// The number that the text of a number literal stands for.
    fn literal(text: &[char]) -> (r: Self)
        ensures
            r == Self::spec_literal(text@),
    ;

    /// The value of a named constant.
    fn constant(c: NamedConstant) -> (r: Self)
        ensures
            r == Self::spec_constant(c),
    ;

    /// The value that marks a malformed node.
    fn nan() -> (r: Self)
        ensures
            r == Self::spec_nan(),
    ;

    fn unary(f: UnaryFn, a: Self) -> (r: Self)
        ensures
            r == Self::spec_unary(f, a),
    ;

    fn binary(op: BinaryOp, a: Self, b: Self) -> (r: Self)
        ensures
            r == Self::spec_binary(op, a, b),
    ;

    fn variadic(f: VariadicFn, args: &[Self]) -> (r: Self)
        ensures
            r == Self::spec_variadic(f, args@),
    ;

    /// Tells whether the number is greater than zero.
    fn is_positive(self) -> (r: bool)
        ensures
            r == Self::spec_positive(self),
    ;

    /// The nearest integer, saturated to the range of `i32`.
    fn round_to_int(self) -> (r: i32)
        ensures
            r == Self::spec_round(self),
    ;
}

/// Evaluating `t` may give the variable `n` a new value in the caller's
/// environment: `n` is the target of an assignment in `t` that is not in
/// the body of a `sum` or `prod`.
pub open spec fn assigns(t: Tree, n: Seq<char>) -> bool
    decreases t,
{
    if t.tag is Reduce {
        (t.children.len() > 1 && assigns(t.children[1], n)) || (t.children.len() > 0
            && t.children[0].children.len() > 1 && assigns(t.children[0].children[1], n))
    } else {
        (t.tag is Assign && t.children.len() > 0 && t.children[0].tag == Tag::FreeVariable(n))
            || assigns_among(t.children, n)
    }
}

/// One of the trees `ts` assigns `n`.
pub open spec fn assigns_among(ts: Seq<Tree>, n: Seq<char>) -> bool
    decreases ts,
{
    if ts.len() == 0 {
        false
    } else {
        assigns(ts[ts.len() - 1], n) || assigns_among(ts.subrange(0, ts.len() - 1), n)
    }
}

proof fn lemma_assigns_among(ts: Seq<Tree>, i: int, n: Seq<char>)
    requires
        0 <= i < ts.len(),
        assigns(ts[i], n),
    ensures
        assigns_among(ts, n),
    decreases ts.len(),
{
    if i < ts.len() - 1 {
        lemma_assigns_among(ts.subrange(0, ts.len() - 1), i, n);
    }
}

/// `after` holds what `before` holds for every name that `t` does not
/// assign.
pub open spec fn unchanged_except<S>(t: Tree, before: Map<Seq<char>, S>, after: Map<Seq<char>, S>) -> bool {
    forall|n: Seq<char>|
        !assigns(t, n) ==> (#[trigger] after.contains_key(n) == before.contains_key(n) && (
        before.contains_key(n) ==> after[n] == before[n]))
}

proof fn lemma_frame_step<S>(
    t: Tree,
    c: Tree,
    e0: Map<Seq<char>, S>,
    e1: Map<Seq<char>, S>,
    e2: Map<Seq<char>, S>,
)
    requires
        unchanged_except(t, e0, e1),
        unchanged_except(c, e1, e2),
        forall|n: Seq<char>| #[trigger] assigns(c, n) ==> assigns(t, n),
    ensures
        unchanged_except(t, e0, e2),
{
    assert forall|n: Seq<char>| !assigns(t, n) implies (#[trigger] e2.contains_key(n)
        == e0.contains_key(n) && (e0.contains_key(n) ==> e2[n] == e0[n])) by {
        assert(!assigns(c, n));
        assert(e2.contains_key(n) == e1.contains_key(n));
        assert(e1.contains_key(n) == e0.contains_key(n));
    }
}

/// A record of one evaluation: the environment before and after, the
/// result, and the records of the evaluations of children that it made,
/// in order.
pub struct Trace<S> {
    pub before: Map<Seq<char>, S>,
    pub after: Map<Seq<char>, S>,
    pub value: S,
    pub steps: Seq<Trace<S>>,
}

/// The values of the records `trs`, in order.
pub open spec fn values_of<S>(trs: Seq<Trace<S>>) -> Seq<S> {
    Seq::new(trs.len(), |i: int| trs[i].value)
}

/// The number of values from `first` to `last`, both included.
pub open spec fn run_count(first: i32, last: i32) -> int {
    if first <= last {
        last - first + 1
    } else {
        0
    }
}

/// The operation that folds the values of a `sum` or `prod`.
pub open spec fn fold_op(op: ReduceOp) -> BinaryOp {
    match op {
        ReduceOp::Add => BinaryOp::Add,
        ReduceOp::Mul => BinaryOp::Mul,
    }
}

/// The value a `sum` or `prod` folds from: zero or one.
pub open spec fn fold_seed<S: Scalar>(op: ReduceOp) -> S {
    match op {
        ReduceOp::Add => S::spec_from_int(0),
        ReduceOp::Mul => S::spec_from_int(1),
    }
}

/// The values of `runs` folded with `op` from `seed`, first to last.
pub open spec fn folded_values<S: Scalar>(runs: Seq<Trace<S>>, op: BinaryOp, seed: S) -> S
    decreases runs.len(),
{
    if runs.len() == 0 {
        seed
    } else {
        S::spec_binary(
            op,
            folded_values(runs.subrange(0, runs.len() - 1), op, seed),
            runs[runs.len() - 1].value,
        )
    }
}

/// `runs` records the runs of a loop body `body` against a copy of the
/// environment `scope`: run `j` starts from where run `j - 1` ended (from
/// `scope` for the first), with the variable `var` bound to `first + j`.
pub open spec fn records_runs<S: Scalar>(
    runs: Seq<Trace<S>>,
    body: Tree,
    x: S,
    var: Seq<char>,
    scope: Map<Seq<char>, S>,
    first: i32,
) -> bool
    decreases runs, 0int,
{
    if runs.len() == 0 {
        true
    } else {
        let n = runs.len() - 1;
        let start = if n == 0 {
            scope
        } else {
            runs[n - 1].after
        };
        &&& records_runs(runs.subrange(0, n), body, x, var, scope, first)
        &&& runs[n].before == start.insert(var, S::spec_from_int((first + n) as i32))
        &&& records(runs[n], body, x)
    }
}

/// `tr` records an evaluation of `t` at `x`. The values follow from the
/// number type's operations; the rest is fixed too: which children are
/// evaluated, in which order, against which environment, and what is
/// stored. `if` evaluates only the branch its condition picks. A `sum` or
/// `prod` evaluates its last value, then its start, against the caller's
/// environment, then its body once for each integer between the two
/// rounded values, against a copy of the environment that it drops.
pub open spec fn records<S: Scalar>(tr: Trace<S>, t: Tree, x: S) -> bool
    decreases tr, 1int,
{
    if !well_formed_node(t) {
        tr.after == tr.before && tr.value == S::spec_nan()
    } else {
        match t.tag {
            Tag::InputSymbol => tr.after == tr.before && tr.value == x,
            Tag::FreeVariable(n) => tr.after == tr.before && tr.value == (if tr.before.contains_key(
                n,
            ) {
                tr.before[n]
            } else {
                S::spec_from_int(0)
            }),
            Tag::Constant(c) => tr.after == tr.before && tr.value == S::spec_constant(c),
            Tag::Literal(text) => tr.after == tr.before && tr.value == S::spec_literal(text),
            Tag::Unary(f) => tr.steps.len() == 1 && tr.steps[0].before == tr.before
                && tr.steps[0].after == tr.after && records(tr.steps[0], t.children[0], x)
                && tr.value == S::spec_unary(f, tr.steps[0].value),
            Tag::Binary(op) => records_chain(tr.steps, t.children, x, tr.before, tr.after)
                && tr.value == S::spec_binary(op, tr.steps[0].value, tr.steps[1].value),
            Tag::Variadic(f) => records_chain(tr.steps, t.children, x, tr.before, tr.after)
                && tr.value == S::spec_variadic(f, values_of(tr.steps)),
            Tag::Assign => tr.steps.len() == 1 && tr.steps[0].before == tr.before && records(
                tr.steps[0],
                t.children[1],
                x,
            ) && tr.steps[0].value == tr.value && tr.after == tr.steps[0].after.insert(
                t.children[0].tag->FreeVariable_0,
                tr.value,
            ),
            Tag::Conditional => tr.steps.len() == 2 && tr.steps[0].before == tr.before && records(
                tr.steps[0],
                t.children[0],
                x,
            ) && tr.steps[1].before == tr.steps[0].after && tr.steps[1].after == tr.after
                && tr.steps[1].value == tr.value && records(
                tr.steps[1],
                if S::spec_positive(tr.steps[0].value) {
                    t.children[1]
                } else {
                    t.children[2]
                },
                x,
            ),
            Tag::Reduce(op) => {
                let first = S::spec_round(tr.steps[1].value);
                let last = S::spec_round(tr.steps[0].value);
                let runs = tr.steps.subrange(2, tr.steps.len() as int);
                &&& tr.steps.len() >= 2
                &&& tr.steps[0].before == tr.before
                &&& records(tr.steps[0], t.children[1], x)
                &&& tr.steps[1].before == tr.steps[0].after
                &&& records(tr.steps[1], t.children[0].children[1], x)
                &&& tr.after == tr.steps[1].after
                &&& runs.len() == run_count(first, last)
                &&& records_runs(
                    runs,
                    t.children[2],
                    x,
                    t.children[0].children[0].tag->FreeVariable_0,
                    tr.after,
                    first,
                )
                &&& tr.value == folded_values(runs, fold_op(op), fold_seed::<S>(op))
            },
        }
    }
}

/// `trs` records evaluations of the trees `ts`, one after another from
/// left to right, from the environment `before` to `after`.
pub open spec fn records_chain<S: Scalar>(
    trs: Seq<Trace<S>>,
    ts: Seq<Tree>,
    x: S,
    before: Map<Seq<char>, S>,
    after: Map<Seq<char>, S>,
) -> bool
    decreases trs, 0int,
{
    if trs.len() != ts.len() {
        false
    } else if trs.len() == 0 {
        after == before
    } else {
        let last = trs[trs.len() - 1];
        &&& records_chain(
            trs.subrange(0, trs.len() - 1),
            ts.subrange(0, ts.len() - 1),
            x,
            before,
            last.before,
        )
        &&& records(last, ts[ts.len() - 1], x)
        &&& last.after == after
    }
}

/// Evaluating `t` at `x` may take the environment `before` to `after` with
/// result `r`.
pub open spec fn evaluates<S: Scalar>(
    t: Tree,
    x: S,
    before: Map<Seq<char>, S>,
    after: Map<Seq<char>, S>,
    r: S,
) -> bool {
    exists|tr: Trace<S>|
        tr.before == before && tr.after == after && tr.value == r && #[trigger] records(tr, t, x)
}

/// What evaluating `t` at `x` promises, from the environment `before`
/// to the environment `after`, with result `r`: an evaluation as recorded
/// above, in which only the names that `t` assigns change.
pub open spec fn evaluation<S: Scalar>(
    t: Tree,
    x: S,
    before: Map<Seq<char>, S>,
    after: Map<Seq<char>, S>,
    r: S,
) -> bool {
    &&& evaluates(t, x, before, after, r)
    &&& unchanged_except(t, before, after)
}

/// A node has the children its kind asks for: one for a unary function,
/// two for an infix operator or `pow`, at least one for `max` and `min`,
/// a variable and a value for an assignment, an assignment to a variable,
/// a last value and a body for `sum` and `prod`, and three for `if`.
pub open spec fn well_formed_node(t: Tree) -> bool {
    match t.tag {
        Tag::Unary(_) => t.children.len() == 1,
        Tag::Binary(_) => t.children.len() == 2,
        Tag::Variadic(VariadicFn::Pow) => t.children.len() == 2,
        Tag::Variadic(_) => t.children.len() >= 1,
        Tag::Assign => t.children.len() == 2 && t.children[0].tag is FreeVariable,
        Tag::Reduce(_) => t.children.len() == 3 && t.children[0].tag is Assign
            && t.children[0].children.len() == 2 && t.children[0].children[0].tag is FreeVariable,
        Tag::Conditional => t.children.len() == 3,
        _ => true,
    }
}

proof fn lemma_children(e: &Expression)
    ensures
        e.tree().tag == e.function@,
        e.tree().children.len() == e.params@.len(),
        forall|i: int| 0 <= i < e.params@.len() ==> e.tree().children[i] == #[trigger] e.params@[i].tree(),
{
}

proof fn lemma_assigns_child(t: Tree, i: int, n: Seq<char>)
    requires
        !(t.tag is Reduce),
        0 <= i < t.children.len(),
        assigns(t.children[i], n),
    ensures
        assigns(t, n),
{
    lemma_assigns_among(t.children, i, n);
}

proof fn trace_of<S: Scalar>(t: Tree, x: S, before: Map<Seq<char>, S>, after: Map<Seq<char>, S>, r: S) -> (tr: Trace<S>)
    requires
        evaluates(t, x, before, after, r),
    ensures
        tr.before == before,
        tr.after == after,
        tr.value == r,
        records(tr, t, x),
{
    choose|tr: Trace<S>|
        tr.before == before && tr.after == after && tr.value == r && #[trigger] records(tr, t, x)
}

fn malformed<S: Scalar>(t: Ghost<Tree>, x: S, env: &Environment<S>) -> (r: S)
    requires
        !well_formed_node(t@),
    ensures
        evaluates(t@, x, env@, env@, r),
        unchanged_except(t@, env@, env@),
{
    let r = S::nan();
    proof {
        let tr = Trace { before: env@, after: env@, value: r, steps: seq![] };
        assert(records(tr, t@, x));
    }
    r
}

fn children_values<S: Scalar>(e: &Expression, x: S, env: &mut Environment<S>) -> (r: Vec<S>)
    requires
        old(env).wf(),
        !(e.tree().tag is Reduce),
    ensures
        final(env).wf(),
        r@.len() == e.params@.len(),
        unchanged_except(e.tree(), old(env)@, final(env)@),
        exists|trs: Seq<Trace<S>>|
            records_chain(trs, e.tree().children, x, old(env)@, final(env)@) && r@ == values_of(
                trs,
            ),
    decreases e, 0int,
{
    proof { lemma_children(e); }
    let mut values: Vec<S> = Vec::new();
    let mut i: usize = 0;
    let ghost mut trs: Seq<Trace<S>> = seq![];
    proof {
        assert(e.tree().children.subrange(0, 0) =~= Seq::<Tree>::empty());
    }
    while i < e.params.len()
        invariant
            env.wf(),
            i <= e.params@.len(),
            values@.len() == i,
            !(e.tree().tag is Reduce),
            e.tree().children.len() == e.params@.len(),
            forall|j: int| 0 <= j < e.params@.len() ==> e.tree().children[j] == #[trigger] e.params@[j].tree(),
            unchanged_except(e.tree(), old(env)@, env@),
            records_chain(trs, e.tree().children.subrange(0, i as int), x, old(env)@, env@),
            values@ == values_of(trs),
        decreases e.params@.len() - i,
    {
        let ghost mid = env@;
        let v = e.params[i].evaluate(x, env);
        proof {
            let tc = trace_of(e.params@[i as int].tree(), x, mid, env@, v);
            let ts = e.tree().children.subrange(0, i + 1);
            let next = trs.push(tc);
            assert(ts.subrange(0, i as int) =~= e.tree().children.subrange(0, i as int));
            assert(next.subrange(0, i as int) =~= trs);
            assert(ts[i as int] == e.params@[i as int].tree());
            assert(records_chain(next, ts, x, old(env)@, env@));
            assert(values_of(next) =~= values@.push(v));
            trs = next;
            assert forall|n: Seq<char>| assigns(e.params@[i as int].tree(), n) implies assigns(e.tree(), n) by {
                lemma_assigns_child(e.tree(), i as int, n);
            }
        }
        values.push(v);
        i = i + 1;
    }
    assert(e.tree().children.subrange(0, i as int) =~= e.tree().children);
    values
}

impl Expression {
    /// Evaluates the expression at the input `x` against the environment
    /// `env`, as `records` describes: the result is built from the number
    /// type's operations on the children's values, which are evaluated left
    /// to right. An assignment stores
    /// into `env`; `if` evaluates only the branch that its condition picks;
    /// `sum` and `prod` run their body against a copy of `env`, which they
    /// drop at the end. A missing variable reads as zero. A node with the
    /// wrong number or kind of children gives `S::nan()`.
    pub fn evaluate<S: Scalar>(&self, x: S, env: &mut Environment<S>) -> (r: S)
        requires
            old(env).wf(),
        ensures
            final(env).wf(),
            evaluation(self.tree(), x, old(env)@, final(env)@, r),
        decreases self, 2int,
    {
        proof { lemma_children(self); }
        let ghost t = self.tree();
        let ghost e0 = env@;
        match &self.function {
            Function::Constant(c) => {
                let r = S::constant(*c);
                proof { assert(records(Trace { before: e0, after: e0, value: r, steps: seq![] }, t, x)); }
                r
            },
            Function::Literal(text) => {
                let r = S::literal(text);
                proof { assert(records(Trace { before: e0, after: e0, value: r, steps: seq![] }, t, x)); }
                r
            },
            Function::InputSymbol => {
                proof { assert(records(Trace { before: e0, after: e0, value: x, steps: seq![] }, t, x)); }
                x
            },
            Function::FreeVariable(name) => {
                let r = match env.get(name) {
                    Some(v) => v,
                    None => S::from_int(0),
                };
                proof { assert(records(Trace { before: e0, after: e0, value: r, steps: seq![] }, t, x)); }
                r
            },
            Function::Unary(f) => {
                if self.params.len() != 1 {
                    return malformed(Ghost(t), x, env);
                }
                let a = self.params[0].evaluate(x, env);
                let r = S::unary(*f, a);
                proof {
                    self.lemma_frame_child(0);
                    lemma_frame_step(t, self.params@[0].tree(), e0, e0, env@);
                    let tc = trace_of(t.children[0], x, e0, env@, a);
                    assert(records(Trace { before: e0, after: env@, value: r, steps: seq![tc] }, t, x));
                }
                r
            },
            Function::Binary(op) => {
                if self.params.len() != 2 {
                    return malformed(Ghost(t), x, env);
                }
                let values = children_values(self, x, env);
                let r = S::binary(*op, values[0], values[1]);
                proof {
                    let trs = choose|trs: Seq<Trace<S>>|
                        records_chain(trs, t.children, x, e0, env@) && values@ == values_of(trs);
                    assert(records(Trace { before: e0, after: env@, value: r, steps: trs }, t, x));
                }
                r
            },
            Function::Variadic(f) => {
                if self.params.len() == 0 || (*f == VariadicFn::Pow && self.params.len() != 2) {
                    return malformed(Ghost(t), x, env);
                }
                let values = children_values(self, x, env);
                let r = S::variadic(*f, values.as_slice());
                proof {
                    let trs = choose|trs: Seq<Trace<S>>|
                        records_chain(trs, t.children, x, e0, env@) && values@ == values_of(trs);
                    assert(records(Trace { before: e0, after: env@, value: r, steps: trs }, t, x));
                }
                r
            },
            Function::Assign => {
                if self.params.len() != 2 {
                    return malformed(Ghost(t), x, env);
                }
                proof { lemma_children(&self.params@[0]); }
                match &self.params[0].function {
                    Function::FreeVariable(name) => {
                        let v = self.params[1].evaluate(x, env);
                        let ghost e1 = env@;
                        proof {
                            self.lemma_frame_child(1);
                            lemma_frame_step(t, self.params@[1].tree(), e0, e0, e1);
                            assert(t.children[0].tag == Tag::FreeVariable(name@));
                            assert(assigns(t, name@));
                        }
                        env.set(name, v);
                        proof {
                            assert forall|n: Seq<char>| !assigns(t, n) implies (
                            #[trigger] env@.contains_key(n) == e0.contains_key(n) && (
                            e0.contains_key(n) ==> env@[n] == e0[n])) by {
                                assert(n != name@);
                                assert(e1.contains_key(n) == e0.contains_key(n));
                            }
                            let tc = trace_of(t.children[1], x, e0, e1, v);
                            assert(records(Trace { before: e0, after: env@, value: v, steps: seq![tc] }, t, x));
                        }
                        v
                    },
                    _ => malformed(Ghost(t), x, env),
                }
            },
            Function::Conditional => {
                if self.params.len() != 3 {
                    return malformed(Ghost(t), x, env);
                }
                let c = self.params[0].evaluate(x, env);
                let ghost e1 = env@;
                proof {
                    self.lemma_frame_child(0);
                    lemma_frame_step(t, self.params@[0].tree(), e0, e0, e1);
                }
                let branch: usize = if c.is_positive() { 1 } else { 2 };
                let r = self.params[branch].evaluate(x, env);
                proof {
                    self.lemma_frame_child(branch as int);
                    lemma_frame_step(t, self.params@[branch as int].tree(), e0, e1, env@);
                    let t0 = trace_of(t.children[0], x, e0, e1, c);
                    let t1 = trace_of(t.children[branch as int], x, e1, env@, r);
                    assert(records(Trace { before: e0, after: env@, value: r, steps: seq![t0, t1] }, t, x));
                }
                r
            },
            Function::Reduce(op) => self.reduce(*op, x, env),
        }
    }

    /// Evaluates the expression at `x` against an environment with no
    /// variables. Evaluation is deterministic (see
    /// `law_evaluation_is_deterministic`), so this is the value `evaluate`
    /// gives from a fresh environment.
    pub fn simple_evaluate<S: Scalar>(&self, x: S) -> (r: S)
        ensures
            exists|after: Map<Seq<char>, S>| evaluation(self.tree(), x, Map::empty(), after, r),
    {
        let mut env = Environment::new();
        self.evaluate(x, &mut env)
    }

    /// The expression `f(x)`.
    pub fn create_from_function(f: UnaryFn) -> (r: Expression)
        ensures
            r.tree() == (Tree {
                tag: Tag::Unary(f),
                children: seq![Tree { tag: Tag::InputSymbol, children: seq![] }],
            }),
    {
        let input = Expression { function: Function::InputSymbol, params: Vec::new() };
        let mut params: Vec<Expression> = Vec::new();
        params.push(input);
        let r = Expression { function: Function::Unary(f), params };
        proof {
            assert(input.tree().children =~= seq![]);
            assert(r.tree().children =~= seq![input.tree()]);
        }
        r
    }

    proof fn lemma_frame_child(&self, i: int)
        requires
            !(self.tree().tag is Reduce),
            0 <= i < self.params@.len(),
        ensures
            forall|n: Seq<char>| #[trigger] assigns(self.params@[i].tree(), n) ==> assigns(self.tree(), n),
    {
        lemma_children(self);
        assert forall|n: Seq<char>| #[trigger] assigns(self.params@[i].tree(), n) implies assigns(self.tree(), n) by {
            lemma_assigns_child(self.tree(), i, n);
        }
    }

    /// `sum` or `prod`: the start and the last value of the loop variable
    /// are evaluated against `env` and rounded; the body is evaluated
    /// against a copy of `env` once for each value in between, and the
    /// values are folded from zero with `+`, or from one with `*`.
    fn reduce<S: Scalar>(&self, op: ReduceOp, x: S, env: &mut Environment<S>) -> (r: S)
        requires
            old(env).wf(),
            self.tree().tag == Tag::Reduce(op),
        ensures
            final(env).wf(),
            evaluates(self.tree(), x, old(env)@, final(env)@, r),
            unchanged_except(self.tree(), old(env)@, final(env)@),
        decreases self, 1int,
    {
        proof { lemma_children(self); }
        let ghost t = self.tree();
        if self.params.len() != 3 {
            return malformed(Ghost(t), x, env);
        }
        let head = &self.params[0];
        proof { lemma_children(head); }
        if !(matches!(head.function, Function::Assign) && head.params.len() == 2) {
            return malformed(Ghost(t), x, env);
        }
        proof { lemma_children(&head.params@[0]); }
        let name = match &head.params[0].function {
            Function::FreeVariable(n) => n,
            _ => {
                return malformed(Ghost(t), x, env);
            },
        };
        let ghost e0 = env@;
        let last_value = self.params[1].evaluate(x, env);
        let ghost e1 = env@;
        let first_value = head.params[1].evaluate(x, env);
        let ghost e2 = env@;
        let last = last_value.round_to_int();
        let first = first_value.round_to_int();
        let mut scope = env.copy();
        let (mut acc, fold) = match op {
            ReduceOp::Add => (S::from_int(0), BinaryOp::Add),
            ReduceOp::Mul => (S::from_int(1), BinaryOp::Mul),
        };
        let ghost var = name@;
        let ghost body = t.children[2];
        let ghost mut runs: Seq<Trace<S>> = seq![];
        let mut current: i64 = first as i64;
        while current <= last as i64
            invariant
                scope.wf(),
                env@ == e2,
                self.params@.len() == 3,
                self.params@[2].tree() == body,
                name@ == var,
                fold == fold_op(op),
                first as i64 <= current,
                current <= last as i64 + 1 || current == first as i64,
                runs.len() == current - first,
                records_runs(runs, body, x, var, e2, first),
                scope@ == (if runs.len() == 0 {
                    e2
                } else {
                    runs[runs.len() - 1].after
                }),
                acc == folded_values(runs, fold_op(op), fold_seed::<S>(op)),
            decreases last as i64 + 1 - current,
        {
            let ghost prev = scope@;
            scope.set(name, S::from_int(current as i32));
            let ghost start = scope@;
            let v = self.params[2].evaluate(x, &mut scope);
            proof {
                let tc = trace_of(body, x, start, scope@, v);
                let next = runs.push(tc);
                assert(next.subrange(0, runs.len() as int) =~= runs);
                assert(records_runs(next, body, x, var, e2, first));
                runs = next;
            }
            acc = S::binary(fold, acc, v);
            current = current + 1;
        }
        proof {
            let tb = trace_of(t.children[1], x, e0, e1, last_value);
            let ts = trace_of(t.children[0].children[1], x, e1, e2, first_value);
            let steps = seq![tb, ts] + runs;
            assert(steps.subrange(2, steps.len() as int) =~= runs);
            assert(records(Trace { before: e0, after: e2, value: acc, steps }, t, x));
            assert forall|n: Seq<char>| !assigns(t, n) implies (#[trigger] e2.contains_key(n)
                == e0.contains_key(n) && (e0.contains_key(n) ==> e2[n] == e0[n])) by {
                assert(!assigns(t.children[1], n));
                assert(!assigns(t.children[0].children[1], n));
            }
        }
        acc
    }
}

} // verus!
