//! Laws that relate several evaluations.
use vstd::prelude::*;
use crate::ast::{build, leaf, needs_args, resolve, Tag, Tree};
use crate::builtin::BinaryOp;
use crate::eval::{
    assigns, evaluation, folded_values, records, records_chain, records_runs, values_of, Scalar,
    Trace,
};
use crate::operator::{operator_at, Operator};
use crate::error::ParseError;
use crate::parse::parsed;
use crate::reduce::{drain, pop_tighter, reduced, shunt};
use crate::token::{all_numeric, flush, is_numeric_char, next_char, scan, tokens_of, Token};

verus! {

/// Reading a variable right after an assignment to it, against the same
/// environment, gives the value that the assignment gave: the value of
/// its right-hand side.
pub proof fn law_read_after_assign<S: Scalar>(
    assign: Tree,
    read: Tree,
    x: S,
    e0: Map<Seq<char>, S>,
    e1: Map<Seq<char>, S>,
    e2: Map<Seq<char>, S>,
    r1: S,
    r2: S,
)
    requires
        assign.tag is Assign,
        assign.children.len() == 2,
        assign.children[0].tag is FreeVariable,
        read.tag == assign.children[0].tag,
        evaluation(assign, x, e0, e1, r1),
        evaluation(read, x, e1, e2, r2),
    ensures
        r2 == r1,
{
}

/// A `sum` or `prod` whose start and last value assign nothing leaves the
/// caller's environment as it found it, whatever its body assigns.
pub proof fn law_reduce_keeps_environment<S: Scalar>(
    t: Tree,
    x: S,
    before: Map<Seq<char>, S>,
    after: Map<Seq<char>, S>,
    r: S,
)
    requires
        t.tag is Reduce,
        t.children.len() == 3,
        t.children[0].children.len() == 2,
        forall|n: Seq<char>| !#[trigger] assigns(t.children[1], n),
        forall|n: Seq<char>| !#[trigger] assigns(t.children[0].children[1], n),
        evaluation(t, x, before, after, r),
    ensures
        after == before,
{
    assert forall|n: Seq<char>| !assigns(t, n) by {
        assert(!assigns(t.children[1], n));
        assert(!assigns(t.children[0].children[1], n));
    }
    assert forall|n: Seq<char>| #[trigger] after.contains_key(n) == before.contains_key(n) by {
        assert(!assigns(t, n));
    }
    assert forall|n: Seq<char>| #[trigger] after.contains_key(n) implies after[n] == before[n] by {
        assert(!assigns(t, n));
    }
    assert(after =~= before);
}

proof fn lemma_records_unique<S: Scalar>(a: Trace<S>, b: Trace<S>, t: Tree, x: S)
    requires
        records(a, t, x),
        records(b, t, x),
        a.before == b.before,
    ensures
        a.after == b.after,
        a.value == b.value,
    decreases a, 1int,
{
    if crate::eval::well_formed_node(t) {
        match t.tag {
            Tag::Unary(_) | Tag::Assign => {
                let c = if t.tag is Unary { t.children[0] } else { t.children[1] };
                lemma_records_unique(a.steps[0], b.steps[0], c, x);
            },
            Tag::Binary(_) | Tag::Variadic(_) => {
                lemma_chain_unique(a.steps, b.steps, t.children, x, a.before, a.after, b.after);
                if t.tag is Binary {
                    assert(records_chain(a.steps, t.children, x, a.before, a.after));
                    assert(records_chain(b.steps, t.children, x, b.before, b.after));
                    assert(a.steps.len() == 2 && b.steps.len() == 2);
                    assert(values_of(a.steps)[0] == a.steps[0].value);
                    assert(values_of(b.steps)[0] == b.steps[0].value);
                    assert(values_of(a.steps)[1] == a.steps[1].value);
                    assert(values_of(b.steps)[1] == b.steps[1].value);
                }
            },
            Tag::Conditional => {
                lemma_records_unique(a.steps[0], b.steps[0], t.children[0], x);
                let c = if S::spec_positive(a.steps[0].value) {
                    t.children[1]
                } else {
                    t.children[2]
                };
                lemma_records_unique(a.steps[1], b.steps[1], c, x);
            },
            Tag::Reduce(op) => {
                lemma_records_unique(a.steps[0], b.steps[0], t.children[1], x);
                lemma_records_unique(a.steps[1], b.steps[1], t.children[0].children[1], x);
                let ra = a.steps.subrange(2, a.steps.len() as int);
                let rb = b.steps.subrange(2, b.steps.len() as int);
                lemma_runs_unique(
                    ra,
                    rb,
                    t.children[2],
                    x,
                    t.children[0].children[0].tag->FreeVariable_0,
                    a.after,
                    S::spec_round(a.steps[1].value),
                    crate::eval::fold_op(op),
                    crate::eval::fold_seed::<S>(op),
                );
            },
            _ => {},
        }
    }
}

proof fn lemma_chain_unique<S: Scalar>(
    a: Seq<Trace<S>>,
    b: Seq<Trace<S>>,
    ts: Seq<Tree>,
    x: S,
    before: Map<Seq<char>, S>,
    after_a: Map<Seq<char>, S>,
    after_b: Map<Seq<char>, S>,
)
    requires
        records_chain(a, ts, x, before, after_a),
        records_chain(b, ts, x, before, after_b),
    ensures
        after_a == after_b,
        values_of(a) == values_of(b),
    decreases a, 0int,
{
    if a.len() > 0 {
        let n = a.len() - 1;
        lemma_chain_unique(
            a.subrange(0, n),
            b.subrange(0, n),
            ts.subrange(0, n),
            x,
            before,
            a[n].before,
            b[n].before,
        );
        lemma_records_unique(a[n], b[n], ts[n], x);
        assert forall|i: int| 0 <= i < a.len() implies values_of(a)[i] == values_of(b)[i] by {
            if i < n {
                assert(values_of(a.subrange(0, n))[i] == values_of(a)[i]);
                assert(values_of(b.subrange(0, n))[i] == values_of(b)[i]);
            }
        }
        assert(values_of(a) =~= values_of(b));
    } else {
        assert(values_of(a) =~= values_of(b));
    }
}

proof fn lemma_runs_unique<S: Scalar>(
    a: Seq<Trace<S>>,
    b: Seq<Trace<S>>,
    body: Tree,
    x: S,
    var: Seq<char>,
    scope: Map<Seq<char>, S>,
    first: i32,
    op: BinaryOp,
    seed: S,
)
    requires
        a.len() == b.len(),
        records_runs(a, body, x, var, scope, first),
        records_runs(b, body, x, var, scope, first),
    ensures
        a.len() > 0 ==> a[a.len() - 1].after == b[b.len() - 1].after,
        folded_values(a, op, seed) == folded_values(b, op, seed),
    decreases a, 0int,
{
    if a.len() > 0 {
        let n = a.len() - 1;
        lemma_runs_unique(a.subrange(0, n), b.subrange(0, n), body, x, var, scope, first, op, seed);
        lemma_records_unique(a[n], b[n], body, x);
    }
}

/// Evaluating one tree at the same input from equal environments gives
/// the same result and leaves the same environment: two evaluations from
/// fresh environments agree.
pub proof fn law_evaluation_is_deterministic<S: Scalar>(
    t: Tree,
    x: S,
    before: Map<Seq<char>, S>,
    after1: Map<Seq<char>, S>,
    after2: Map<Seq<char>, S>,
    r1: S,
    r2: S,
)
    requires
        evaluation(t, x, before, after1, r1),
        evaluation(t, x, before, after2, r2),
    ensures
        after1 == after2,
        r1 == r2,
{
    let a = choose|tr: Trace<S>|
        tr.before == before && tr.after == after1 && tr.value == r1 && #[trigger] records(tr, t, x);
    let b = choose|tr: Trace<S>|
        tr.before == before && tr.after == after2 && tr.value == r2 && #[trigger] records(tr, t, x);
    lemma_records_unique(a, b, t, x);
}

/// A character that starts no operator.
pub open spec fn is_plain(c: char) -> bool {
    operator_at(c, None) is None
}

proof fn lemma_plain(c: char, next: Option<char>)
    requires
        is_plain(c),
    ensures
        operator_at(c, next) is None,
{
}

/// Scanning a run of digits and dots only extends the pending identifier.
proof fn lemma_scan_numeric(cs: Seq<char>, i: int, j: int, start: int, parts: Seq<Token>)
    requires
        0 <= start <= i <= j <= cs.len(),
        forall|m: int| i <= m < j ==> is_numeric_char(#[trigger] cs[m]),
    ensures
        scan(cs, i, start, parts) == scan(cs, j, start, parts),
    decreases j - i,
{
    if i < j {
        let c = cs[i];
        assert(is_numeric_char(c));
        assert(operator_at(c, next_char(cs, i)) is None);
        lemma_scan_numeric(cs, i + 1, j, start, parts);
    }
}

/// Scanning a run of plain characters, where the pending identifier starts
/// with a character that is no digit or dot, only extends it.
proof fn lemma_scan_name(cs: Seq<char>, i: int, j: int, start: int, parts: Seq<Token>)
    requires
        0 <= start <= i <= j <= cs.len(),
        start < cs.len(),
        !is_numeric_char(cs[start]),
        forall|m: int| i <= m < j ==> is_plain(#[trigger] cs[m]),
    ensures
        scan(cs, i, start, parts) == scan(cs, j, start, parts),
    decreases j - i,
{
    if i < j {
        let c = cs[i];
        assert(is_plain(c));
        lemma_plain(c, next_char(cs, i));
        if start < i {
            assert(!all_numeric(cs.subrange(start, i))) by {
                assert(cs.subrange(start, i)[0] == cs[start]);
            }
        }
        lemma_scan_name(cs, i + 1, j, start, parts);
    }
}

/// The tokens of a numeric run `d` and a name `w` that touch, at positions
/// `0..m` and `m2..n`, reduce to the product of the two.
proof fn lemma_product_tokens(cs: Seq<char>, m: int, m2: int)
    requires
        0 < m <= m2 < cs.len() <= usize::MAX,
        !needs_args(resolve(cs.subrange(m2, cs.len() as int))),
    ensures
        ({
            let ts = seq![
                Token::Identifier { start: 0, end: m as usize },
                Token::Operator(Operator::Mul),
                Token::Identifier { start: m2 as usize, end: cs.len() as usize },
            ];
            let d = cs.subrange(0, m);
            let w = cs.subrange(m2, cs.len() as int);
            let t = Tree {
                tag: Tag::Binary(BinaryOp::Mul),
                children: seq![leaf(resolve(d)), leaf(resolve(w))],
            };
            &&& reduced(ts) == Ok::<Seq<Token>, crate::error::ParseError>(seq![ts[1], ts[2], ts[0]])
            &&& build(cs, seq![ts[1], ts[2], ts[0]], 0) == if needs_args(resolve(d)) {
                Err::<(Tree, int), crate::error::ParseError>(
                    crate::error::ParseError::UnexpectedIdentifier { start: 0, end: m as usize },
                )
            } else {
                Ok::<(Tree, int), crate::error::ParseError>((t, 3))
            }
        }),
{
    let i1 = Token::Identifier { start: 0, end: m as usize };
    let mul = Token::Operator(Operator::Mul);
    let i2 = Token::Identifier { start: m2 as usize, end: cs.len() as usize };
    let ts = seq![i1, mul, i2];
    assert(pop_tighter(seq![i1], seq![], 3) == (seq![i1], Seq::<Token>::empty()));
    assert(shunt(ts, 3, seq![i1, i2], seq![mul]) == drain(seq![i1, i2], seq![mul]));
    assert(drain(seq![i1, i2, mul], seq![]) == Ok::<Seq<Token>, crate::error::ParseError>(
        seq![i1, i2, mul].reverse(),
    ));
    assert(seq![i1, i2, mul].reverse() =~= seq![mul, i2, i1]);
    assert(seq![i1, i2].push(mul) =~= seq![i1, i2, mul]);
    assert(Seq::<Token>::empty().push(mul) =~= seq![mul]);
    assert(seq![mul].drop_last() =~= Seq::<Token>::empty());
    assert(seq![i1].push(i2) =~= seq![i1, i2]);
    assert(Seq::<Token>::empty().push(i1) =~= seq![i1]);
    assert(shunt(ts, 2, seq![i1], seq![mul]) == shunt(ts, 3, seq![i1, i2], seq![mul]));
    assert(shunt(ts, 1, seq![i1], seq![]) == shunt(ts, 2, seq![i1], seq![mul]));
    assert(shunt(ts, 0, seq![], seq![]) == shunt(ts, 1, seq![i1], seq![]));
    let rs = seq![mul, i2, i1];
    let d = cs.subrange(0, m);
    let w = cs.subrange(m2, cs.len() as int);
    assert(build(cs, rs, 1) == Ok::<(Tree, int), crate::error::ParseError>((leaf(resolve(w)), 2)));
    if !needs_args(resolve(d)) {
        assert(build(cs, rs, 2) == Ok::<(Tree, int), crate::error::ParseError>((leaf(resolve(d)), 3)));
    }
}

/// A number written directly before a name multiplies it: `d` then `w`
/// parses as `d*w`, where `d` is digits and dots, `w` starts with neither
/// and holds no operator, and `w` is no function that takes arguments.
pub proof fn law_number_before_name(d: Seq<char>, w: Seq<char>)
    requires
        d.len() > 0,
        all_numeric(d),
        w.len() > 0,
        !is_numeric_char(w[0]),
        forall|i: int| 0 <= i < w.len() ==> is_plain(#[trigger] w[i]),
        !needs_args(resolve(w)),
        d.len() + 1 + w.len() <= usize::MAX,
    ensures
        parsed(d + w) == parsed(d + seq!['*'] + w),
{
    let a = d + w;
    let b = d + seq!['*'] + w;
    let m = d.len() as int;
    let n = w.len() as int;
    assert forall|i: int| 0 <= i < m implies is_numeric_char(#[trigger] a[i]) by {
        assert(a[i] == d[i]);
    }
    assert forall|i: int| 0 <= i < m implies is_numeric_char(#[trigger] b[i]) by {
        assert(b[i] == d[i]);
    }
    assert forall|i: int| m <= i < m + n implies is_plain(#[trigger] a[i]) by {
        assert(a[i] == w[i - m]);
    }
    assert forall|i: int| m + 1 <= i < m + 1 + n implies is_plain(#[trigger] b[i]) by {
        assert(b[i] == w[i - m - 1]);
    }
    assert(a.subrange(0, m) =~= d);
    assert(b.subrange(0, m) =~= d);
    assert(a.subrange(m, m + n) =~= w);
    assert(b.subrange(m + 1, m + 1 + n) =~= w);
    let i1 = Token::Identifier { start: 0, end: m as usize };
    let mul = Token::Operator(Operator::Mul);
    // The tokens of d then w.
    lemma_scan_numeric(a, 0, m, 0, seq![]);
    assert(a[m] == w[0]);
    assert(operator_at(a[m], next_char(a, m)) is None) by {
        lemma_plain(a[m], next_char(a, m));
    }
    assert(flush(seq![], 0, m) =~= seq![i1]);
    assert(seq![i1].push(mul) =~= seq![i1, mul]);
    assert(a.subrange(0, m) =~= d);
    assert(scan(a, m, 0, seq![]) == scan(a, m + 1, m, seq![i1, mul]));
    lemma_scan_name(a, m + 1, m + n, m, seq![i1, mul]);
    let ta = seq![i1, mul, Token::Identifier { start: m as usize, end: (m + n) as usize }];
    assert(scan(a, m + n, m, seq![i1, mul]) =~= ta);
    assert(tokens_of(a) == ta);
    // The tokens of d, `*`, w.
    lemma_scan_numeric(b, 0, m, 0, seq![]);
    assert(b[m] == '*');
    assert(operator_at(b[m], next_char(b, m)) == Some((Operator::Mul, 1usize)));
    assert(flush(seq![], 0, m) =~= seq![i1]);
    assert(seq![i1].push(mul) =~= seq![i1, mul]);
    assert(scan(b, m, 0, seq![]) == scan(b, m + 1, m + 1, seq![i1, mul]));
    lemma_scan_name(b, m + 1, m + 1 + n, m + 1, seq![i1, mul]);
    let tb = seq![i1, mul, Token::Identifier { start: (m + 1) as usize, end: (m + 1 + n) as usize }];
    assert(scan(b, m + 1 + n, m + 1, seq![i1, mul]) =~= tb);
    assert(tokens_of(b) == tb);
    lemma_product_tokens(a, m, m);
    lemma_product_tokens(b, m, m + 1);
    assert(a.subrange(m, a.len() as int) =~= w);
    assert(b.subrange(m + 1, b.len() as int) =~= w);
}

/// A number written directly before a name gives, at every input and
/// from every environment, the value of the product written with `*`.
pub proof fn law_number_before_name_evaluates<S: Scalar>(
    d: Seq<char>,
    w: Seq<char>,
    t1: Tree,
    t2: Tree,
    x: S,
    before: Map<Seq<char>, S>,
    after1: Map<Seq<char>, S>,
    after2: Map<Seq<char>, S>,
    r1: S,
    r2: S,
)
    requires
        d.len() > 0,
        all_numeric(d),
        w.len() > 0,
        !is_numeric_char(w[0]),
        forall|i: int| 0 <= i < w.len() ==> is_plain(#[trigger] w[i]),
        !needs_args(resolve(w)),
        d.len() + 1 + w.len() <= usize::MAX,
        parsed(d + w) == Ok::<Tree, ParseError>(t1),
        parsed(d + seq!['*'] + w) == Ok::<Tree, ParseError>(t2),
        evaluation(t1, x, before, after1, r1),
        evaluation(t2, x, before, after2, r2),
    ensures
        r1 == r2,
        after1 == after2,
{
    law_number_before_name(d, w);
    law_evaluation_is_deterministic(t1, x, before, after1, after2, r1, r2);
}

} // verus!
