//! The catalogue of named functions and constants, and the form of a
//! number literal.
use vstd::prelude::*;

verus! {

/// A function of one argument.
#[derive(Clone, Copy, Debug, PartialEq, Eq, Structural)]
pub enum UnaryFn {
    Sin,
    Cos,
    Tan,
    Cot,
    Sec,
    Csc,
    Abs,
    Ceil,
    Floor,
    Round,
    Exp,
    Ln,
    Log,
    Sqrt,
    Asin,
    Acos,
    Atan,
    Sinh,
    Cosh,
    Tanh,
    Asinh,
    Acosh,
    Atanh,
    /// The postfix `²`.
    Square,
    /// The postfix `!`.
    Factorial,
}

/// A function of a list of arguments.
#[derive(Clone, Copy, Debug, PartialEq, Eq, Structural)]
pub enum VariadicFn {
    Max,
    Min,
    Pow,
}

/// An infix operator of two operands. The comparisons give one for true
/// and zero for false.
#[derive(Clone, Copy, Debug, PartialEq, Eq, Structural)]
pub enum BinaryOp {
    Add,
    Sub,
    Mul,
    Div,
    Pow,
    Equal,
    NotEqual,
    LessEq,
    Less,
    GreaterEq,
    Greater,
}

/// A named mathematical constant.
#[derive(Clone, Copy, Debug, PartialEq, Eq, Structural)]
pub enum NamedConstant {
    Pi,
    E,
}

/// How `sum` and `prod` fold the values of their body.
#[derive(Clone, Copy, Debug, PartialEq, Eq, Structural)]
pub enum ReduceOp {
    Add,
    Mul,
}

/// What a built-in name stands for.
#[derive(Clone, Copy, Debug, PartialEq, Eq, Structural)]
pub enum Builtin {
    Unary(UnaryFn),
    Variadic(VariadicFn),
    Constant(NamedConstant),
    Reduce(ReduceOp),
    Conditional,
}

/// `c` in ASCII lower case, as a code point.
pub open spec fn folded(c: char) -> u32 {
    if 'A' <= c && c <= 'Z' {
        (c as u32 + 32) as u32
    } else {
        c as u32
    }
}

/// `s` equals the lower-case word `w`, ignoring ASCII case.
pub open spec fn same_word(s: Seq<char>, w: Seq<char>) -> bool {
    &&& s.len() == w.len()
    &&& forall|i: int| 0 <= i < s.len() ==> folded(#[trigger] s[i]) == w[i] as u32
}

/// The built-in that the name `s` stands for, case aside.
pub open spec fn builtin_named(s: Seq<char>) -> Option<Builtin> {
    if same_word(s, "sin"@) {
        Some(Builtin::Unary(UnaryFn::Sin))
    } else if same_word(s, "cos"@) {
        Some(Builtin::Unary(UnaryFn::Cos))
    } else if same_word(s, "tan"@) {
        Some(Builtin::Unary(UnaryFn::Tan))
    } else if same_word(s, "cot"@) {
        Some(Builtin::Unary(UnaryFn::Cot))
    } else if same_word(s, "sec"@) {
        Some(Builtin::Unary(UnaryFn::Sec))
    } else if same_word(s, "csc"@) {
        Some(Builtin::Unary(UnaryFn::Csc))
    } else if same_word(s, "abs"@) {
        Some(Builtin::Unary(UnaryFn::Abs))
    } else if same_word(s, "ceil"@) {
        Some(Builtin::Unary(UnaryFn::Ceil))
    } else if same_word(s, "floor"@) {
        Some(Builtin::Unary(UnaryFn::Floor))
    } else if same_word(s, "round"@) {
        Some(Builtin::Unary(UnaryFn::Round))
    } else if same_word(s, "exp"@) {
        Some(Builtin::Unary(UnaryFn::Exp))
    } else if same_word(s, "ln"@) {
        Some(Builtin::Unary(UnaryFn::Ln))
    } else if same_word(s, "log"@) {
        Some(Builtin::Unary(UnaryFn::Log))
    } else if same_word(s, "sqrt"@) {
        Some(Builtin::Unary(UnaryFn::Sqrt))
    } else if same_word(s, "asin"@) {
        Some(Builtin::Unary(UnaryFn::Asin))
    } else if same_word(s, "acos"@) {
        Some(Builtin::Unary(UnaryFn::Acos))
    } else if same_word(s, "atan"@) {
        Some(Builtin::Unary(UnaryFn::Atan))
    } else if same_word(s, "sinh"@) {
        Some(Builtin::Unary(UnaryFn::Sinh))
    } else if same_word(s, "cosh"@) {
        Some(Builtin::Unary(UnaryFn::Cosh))
    } else if same_word(s, "tanh"@) {
        Some(Builtin::Unary(UnaryFn::Tanh))
    } else if same_word(s, "asinh"@) {
        Some(Builtin::Unary(UnaryFn::Asinh))
    } else if same_word(s, "acosh"@) {
        Some(Builtin::Unary(UnaryFn::Acosh))
    } else if same_word(s, "atanh"@) {
        Some(Builtin::Unary(UnaryFn::Atanh))
    } else if same_word(s, "pi"@) {
        Some(Builtin::Constant(NamedConstant::Pi))
    } else if same_word(s, "e"@) {
        Some(Builtin::Constant(NamedConstant::E))
    } else if same_word(s, "max"@) {
        Some(Builtin::Variadic(VariadicFn::Max))
    } else if same_word(s, "min"@) {
        Some(Builtin::Variadic(VariadicFn::Min))
    } else if same_word(s, "sum"@) {
        Some(Builtin::Reduce(ReduceOp::Add))
    } else if same_word(s, "prod"@) {
        Some(Builtin::Reduce(ReduceOp::Mul))
    } else if same_word(s, "if"@) {
        Some(Builtin::Conditional)
    } else if same_word(s, "pow"@) {
        Some(Builtin::Variadic(VariadicFn::Pow))
    } else {
        None
    }
}

/// Tells whether `s[lo..hi]` equals the lower-case word `w`, ignoring ASCII case.
pub fn is_word(s: &[char], lo: usize, hi: usize, w: &str) -> (r: bool)
    requires
        lo <= hi <= s@.len(),
    ensures
        r == same_word(s@.subrange(lo as int, hi as int), w@),
{
    let n = w.unicode_len();
    if hi - lo != n {
        return false;
    }
    let mut i: usize = 0;
    while i < n
        invariant
            n == w@.len(),
            hi - lo == n,
            lo <= hi <= s@.len(),
            0 <= i <= n,
            forall|j: int| 0 <= j < i ==> folded(s@[lo + j]) == w@[j] as u32,
        decreases n - i,
    {
        let c = s[lo + i];
        let f: u32 = if 'A' <= c && c <= 'Z' { c as u32 + 32 } else { c as u32 };
        if f != w.get_char(i) as u32 {
            assert(folded(s@.subrange(lo as int, hi as int)[i as int]) != w@[i as int] as u32);
            return false;
        }
        i = i + 1;
    }
    true
}

/// Looks up the built-in that the name `s[lo..hi]` stands for, ignoring
/// ASCII case.
pub fn function_from_string(s: &[char], lo: usize, hi: usize) -> (r: Option<Builtin>)
    requires
        lo <= hi <= s@.len(),
    ensures
        r == builtin_named(s@.subrange(lo as int, hi as int)),
{
    if is_word(s, lo, hi, "sin") {
        Some(Builtin::Unary(UnaryFn::Sin))
    } else if is_word(s, lo, hi, "cos") {
        Some(Builtin::Unary(UnaryFn::Cos))
    } else if is_word(s, lo, hi, "tan") {
        Some(Builtin::Unary(UnaryFn::Tan))
    } else if is_word(s, lo, hi, "cot") {
        Some(Builtin::Unary(UnaryFn::Cot))
    } else if is_word(s, lo, hi, "sec") {
        Some(Builtin::Unary(UnaryFn::Sec))
    } else if is_word(s, lo, hi, "csc") {
        Some(Builtin::Unary(UnaryFn::Csc))
    } else if is_word(s, lo, hi, "abs") {
        Some(Builtin::Unary(UnaryFn::Abs))
    } else if is_word(s, lo, hi, "ceil") {
        Some(Builtin::Unary(UnaryFn::Ceil))
    } else if is_word(s, lo, hi, "floor") {
        Some(Builtin::Unary(UnaryFn::Floor))
    } else if is_word(s, lo, hi, "round") {
        Some(Builtin::Unary(UnaryFn::Round))
    } else if is_word(s, lo, hi, "exp") {
        Some(Builtin::Unary(UnaryFn::Exp))
    } else if is_word(s, lo, hi, "ln") {
        Some(Builtin::Unary(UnaryFn::Ln))
    } else if is_word(s, lo, hi, "log") {
        Some(Builtin::Unary(UnaryFn::Log))
    } else if is_word(s, lo, hi, "sqrt") {
        Some(Builtin::Unary(UnaryFn::Sqrt))
    } else if is_word(s, lo, hi, "asin") {
        Some(Builtin::Unary(UnaryFn::Asin))
    } else if is_word(s, lo, hi, "acos") {
        Some(Builtin::Unary(UnaryFn::Acos))
    } else if is_word(s, lo, hi, "atan") {
        Some(Builtin::Unary(UnaryFn::Atan))
    } else if is_word(s, lo, hi, "sinh") {
        Some(Builtin::Unary(UnaryFn::Sinh))
    } else if is_word(s, lo, hi, "cosh") {
        Some(Builtin::Unary(UnaryFn::Cosh))
    } else if is_word(s, lo, hi, "tanh") {
        Some(Builtin::Unary(UnaryFn::Tanh))
    } else if is_word(s, lo, hi, "asinh") {
        Some(Builtin::Unary(UnaryFn::Asinh))
    } else if is_word(s, lo, hi, "acosh") {
        Some(Builtin::Unary(UnaryFn::Acosh))
    } else if is_word(s, lo, hi, "atanh") {
        Some(Builtin::Unary(UnaryFn::Atanh))
    } else if is_word(s, lo, hi, "pi") {
        Some(Builtin::Constant(NamedConstant::Pi))
    } else if is_word(s, lo, hi, "e") {
        Some(Builtin::Constant(NamedConstant::E))
    } else if is_word(s, lo, hi, "max") {
        Some(Builtin::Variadic(VariadicFn::Max))
    } else if is_word(s, lo, hi, "min") {
        Some(Builtin::Variadic(VariadicFn::Min))
    } else if is_word(s, lo, hi, "sum") {
        Some(Builtin::Reduce(ReduceOp::Add))
    } else if is_word(s, lo, hi, "prod") {
        Some(Builtin::Reduce(ReduceOp::Mul))
    } else if is_word(s, lo, hi, "if") {
        Some(Builtin::Conditional)
    } else if is_word(s, lo, hi, "pow") {
        Some(Builtin::Variadic(VariadicFn::Pow))
    } else {
        None
    }
}

} // verus!
