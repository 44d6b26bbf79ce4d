use formula::{
    parse_expression, Arguments, LiteralText, BinaryOp, Environment, Expression, NamedConstant, ParseError, Scalar,
    UnaryFn, VariadicFn,
};

#[derive(Clone, Copy, Debug, PartialEq)]
struct Real(f32);

impl Scalar for Real {
    // The verifier's names for the operations below; only proofs use them.
    fn spec_from_int(n: i32) -> Self {
        Self::from_int(n)
    }

    fn spec_literal(_text: LiteralText) -> Self {
        Real(f32::NAN)
    }

    fn spec_constant(c: NamedConstant) -> Self {
        Self::constant(c)
    }

    fn spec_nan() -> Self {
        Self::nan()
    }

    fn spec_unary(f: UnaryFn, a: Self) -> Self {
        Self::unary(f, a)
    }

    fn spec_binary(op: BinaryOp, a: Self, b: Self) -> Self {
        Self::binary(op, a, b)
    }

    fn spec_variadic(_f: VariadicFn, _args: Arguments<Self>) -> Self {
        Real(f32::NAN)
    }

    fn spec_positive(a: Self) -> bool {
        a.is_positive()
    }

    fn spec_round(a: Self) -> i32 {
        a.round_to_int()
    }

    fn from_int(n: i32) -> Self {
        Real(n as f32)
    }

    fn literal(text: &[char]) -> Self {
        let s: String = text.iter().collect();
        Real(s.parse::<f32>().unwrap_or(f32::NAN))
    }

    fn constant(c: NamedConstant) -> Self {
        match c {
            NamedConstant::Pi => Real(std::f32::consts::PI),
            NamedConstant::E => Real(std::f32::consts::E),
        }
    }

    fn nan() -> Self {
        Real(f32::NAN)
    }

    fn unary(f: UnaryFn, a: Self) -> Self {
        let x = a.0;
        Real(match f {
            UnaryFn::Sin => x.sin(),
            UnaryFn::Cos => x.cos(),
            UnaryFn::Tan => x.tan(),
            UnaryFn::Cot => 1.0 / x.tan(),
            UnaryFn::Sec => 1.0 / x.cos(),
            UnaryFn::Csc => 1.0 / x.sin(),
            UnaryFn::Abs => x.abs(),
            UnaryFn::Ceil => x.ceil(),
            UnaryFn::Floor => x.floor(),
            UnaryFn::Round => x.round(),
            UnaryFn::Exp => x.exp(),
            UnaryFn::Ln => x.ln(),
            UnaryFn::Log => x.log10(),
            UnaryFn::Sqrt => x.sqrt(),
            UnaryFn::Asin => x.asin(),
            UnaryFn::Acos => x.acos(),
            UnaryFn::Atan => x.atan(),
            UnaryFn::Sinh => x.sinh(),
            UnaryFn::Cosh => x.cosh(),
            UnaryFn::Tanh => x.tanh(),
            UnaryFn::Asinh => x.asinh(),
            UnaryFn::Acosh => x.acosh(),
            UnaryFn::Atanh => x.atanh(),
            UnaryFn::Square => x * x,
            UnaryFn::Factorial => {
                if x < 0.0 {
                    f32::NAN
                } else {
                    let mut result = 1.0;
                    let mut n = x as u32;
                    while n > 1 {
                        result *= n as f32;
                        n -= 1;
                    }
                    result
                }
            }
        })
    }

    fn binary(op: BinaryOp, a: Self, b: Self) -> Self {
        let (x, y) = (a.0, b.0);
        let truth = |t: bool| if t { 1.0 } else { 0.0 };
        Real(match op {
            BinaryOp::Add => x + y,
            BinaryOp::Sub => x - y,
            BinaryOp::Mul => x * y,
            BinaryOp::Div => x / y,
            BinaryOp::Pow => x.powf(y),
            BinaryOp::Equal => truth(x == y),
            BinaryOp::NotEqual => truth(x != y),
            BinaryOp::LessEq => truth(x <= y),
            BinaryOp::Less => truth(x < y),
            BinaryOp::GreaterEq => truth(x >= y),
            BinaryOp::Greater => truth(x > y),
        })
    }

    fn variadic(f: VariadicFn, args: &[Self]) -> Self {
        Real(match f {
            VariadicFn::Max => args.iter().fold(f32::MIN, |m, v| m.max(v.0)),
            VariadicFn::Min => args.iter().fold(f32::MAX, |m, v| m.min(v.0)),
            VariadicFn::Pow => args[0].0.powf(args[1].0),
        })
    }

    fn is_positive(self) -> bool {
        self.0 > 0.0
    }

    fn round_to_int(self) -> i32 {
        self.0.round() as i32
    }
}

fn value_at(text: &str, x: f32) -> f32 {
    let e = parse_expression(text).expect("formula parses");
    e.simple_evaluate(Real(x)).0
}

fn value(text: &str) -> f32 {
    value_at(text, 0.0)
}

fn value_in(text: &str, env: &mut Environment<Real>) -> f32 {
    let e = parse_expression(text).expect("formula parses");
    e.evaluate(Real(0.0), env).0
}

#[test]
fn pythagorean_identity_holds() {
    let e = parse_expression("sin(x)^2+cos(x)^2").unwrap();
    for i in -20..20 {
        let x = i as f32 * 0.37;
        let v = e.simple_evaluate(Real(x)).0;
        assert!((v - 1.0).abs() < 1e-5, "at {}: {}", x, v);
    }
}

#[test]
fn number_before_name_is_a_product() {
    let a = parse_expression("2x").unwrap();
    let b = parse_expression("2*x").unwrap();
    assert_eq!(a, b);
    for i in -10..10 {
        let x = i as f32 * 1.5;
        assert_eq!(a.simple_evaluate(Real(x)), b.simple_evaluate(Real(x)));
        assert_eq!(a.simple_evaluate(Real(x)).0, 2.0 * x);
    }
}

#[test]
fn longer_number_before_longer_name() {
    assert_eq!(parse_expression("3.5abc").unwrap(), parse_expression("3.5*abc").unwrap());
    assert_eq!(parse_expression("12pi").unwrap(), parse_expression("12*pi").unwrap());
    let mut env: Environment<Real> = Environment::new();
    value_in("abc=2", &mut env);
    assert_eq!(value_in("3.5abc", &mut env), 7.0);
}

#[test]
fn parenthesis_after_parenthesis_is_a_product() {
    assert_eq!(value("(2+3)(4)"), 20.0);
}

#[test]
fn conditional_is_strictly_positive() {
    assert_eq!(value("if(5>0,1,-1)"), 1.0);
    assert_eq!(value("if(-5>0,1,-1)"), -1.0);
    assert_eq!(value("if(0,1,2)"), 2.0);
}

#[test]
fn sum_and_product() {
    assert_eq!(value("sum(i=1,5,i)"), 15.0);
    assert_eq!(value("prod(i=1,4,i)"), 24.0);
}

#[test]
fn empty_range_gives_the_seed() {
    assert_eq!(value("sum(i=5,1,i)"), 0.0);
    assert_eq!(value("prod(i=5,1,i)"), 1.0);
}

#[test]
fn shared_environment_keeps_assignments() {
    let mut env: Environment<Real> = Environment::new();
    assert_eq!(value_in("y=5", &mut env), 5.0);
    assert_eq!(value_in("y", &mut env), 5.0);
    assert_eq!(value_in("z", &mut env), 0.0);
    assert_eq!(env.get(&['y']), Some(Real(5.0)));
    assert_eq!(env.get(&['z']), None);
}

#[test]
fn unbalanced_open_parenthesis_fails() {
    assert_eq!(parse_expression("(2+3)").is_ok(), true);
    assert_eq!(parse_expression("(2+3"), Err(ParseError::UnbalancedParenthesis));
}

#[test]
fn unbalanced_close_parenthesis_fails() {
    assert_eq!(parse_expression("2+3)"), Err(ParseError::UnbalancedParenthesis));
}

#[test]
fn precedence_and_left_folded_power() {
    assert_eq!(value("2+3*4"), 14.0);
    assert_eq!(value("2*3+4"), 10.0);
    assert_eq!(value("2^3^2"), 64.0);
    assert_eq!(value("10-4-3"), 3.0);
    assert_eq!(value("8/4/2"), 1.0);
}

#[test]
fn evaluation_is_repeatable() {
    for text in ["sin(x)*3+y", "sum(i=1,x,i^2)", "if(x>2,x!,x²)", "k=x*2"] {
        let e = parse_expression(text).unwrap();
        for i in 0..6 {
            let x = i as f32;
            let mut first: Environment<Real> = Environment::new();
            let mut second: Environment<Real> = Environment::new();
            let a = e.evaluate(Real(x), &mut first);
            let b = e.evaluate(Real(x), &mut second);
            assert_eq!(a, b);
            assert_eq!(a, e.evaluate(Real(x), &mut Environment::new()));
        }
    }
}

#[test]
fn empty_formula_fails() {
    assert_eq!(parse_expression(""), Err(ParseError::EmptyExpression));
    assert_eq!(parse_expression("2*"), Err(ParseError::EmptyExpression));
}

#[test]
fn function_without_arguments_fails() {
    assert_eq!(
        parse_expression("sin"),
        Err(ParseError::UnexpectedIdentifier { start: 0, end: 3 })
    );
    assert_eq!(
        parse_expression("2+max"),
        Err(ParseError::UnexpectedIdentifier { start: 2, end: 5 })
    );
}

#[test]
fn comma_outside_parentheses_fails() {
    assert_eq!(parse_expression("1,2"), Err(ParseError::UnexpectedComma));
}

#[test]
fn missing_argument_fails() {
    assert_eq!(
        parse_expression("max(1,)"),
        Err(ParseError::UnexpectedOperator(formula::Operator::Comma))
    );
}

#[test]
fn error_messages_are_not_empty() {
    for e in [
        ParseError::UnbalancedParenthesis,
        ParseError::UnexpectedComma,
        ParseError::UnexpectedIdentifier { start: 0, end: 1 },
        ParseError::UnexpectedOperator(formula::Operator::Comma),
        ParseError::EmptyExpression,
        ParseError::Internal,
    ] {
        assert!(!e.message().is_empty());
    }
    assert_eq!(ParseError::UnbalancedParenthesis.message(), "Unbalanced parenthesis");
}

#[test]
fn malformed_nodes_give_nan() {
    assert!(value("sum(1,2,3)").is_nan());
    assert!(value("5=3").is_nan());
    assert!(value("pow(2)").is_nan());
    assert!(value("if(1,2)").is_nan());
}

#[test]
fn functions_and_constants() {
    assert_eq!(value("pow(2,10)"), 1024.0);
    assert_eq!(value("max(3,-1,7,2)"), 7.0);
    assert_eq!(value("min(3,-1,7,2)"), -1.0);
    assert_eq!(value("abs(-2.5)"), 2.5);
    assert_eq!(value("floor(2.7)+ceil(2.2)"), 5.0);
    assert_eq!(value("sqrt(16)"), 4.0);
    assert!((value("pi") - std::f32::consts::PI).abs() < 1e-6);
    assert!((value("ln(e)") - 1.0).abs() < 1e-6);
    assert!((value("log(1000)") - 3.0).abs() < 1e-5);
}

#[test]
fn names_ignore_case() {
    assert_eq!(value("SIN(0)"), 0.0);
    assert_eq!(value("Max(1,4)"), 4.0);
    assert!((value("PI") - std::f32::consts::PI).abs() < 1e-6);
}

#[test]
fn postfix_operators() {
    assert_eq!(value("3!"), 6.0);
    assert_eq!(value("0!"), 1.0);
    assert_eq!(value("3\u{b2}"), 9.0);
    assert!(value("(0-2)!").is_nan());
}

#[test]
fn comparisons_give_one_or_zero() {
    assert_eq!(value("2<3"), 1.0);
    assert_eq!(value("2>3"), 0.0);
    assert_eq!(value("2==2"), 1.0);
    assert_eq!(value("2!=2"), 0.0);
    assert_eq!(value("2<=2"), 1.0);
    assert_eq!(value("2>=3"), 0.0);
    assert_eq!(value("1+1==2"), 1.0);
}

#[test]
fn negation() {
    assert_eq!(value("-3"), -3.0);
    assert_eq!(value("-3+2"), -1.0);
    assert_eq!(value("max(-1,2)"), 2.0);
    assert_eq!(value("max(2,-1)"), 2.0);
}

#[test]
fn input_symbol_and_spaces() {
    assert_eq!(value_at("x * 2 + 1", 3.0), 7.0);
    assert_eq!(value_at("3x", 2.0), 6.0);
    assert_eq!(value_at("x(2)", 4.0), 8.0);
}

#[test]
fn name_before_parenthesis_is_a_product() {
    let mut env: Environment<Real> = Environment::new();
    value_in("y=2", &mut env);
    assert_eq!(value_in("y(3)", &mut env), 6.0);
}

#[test]
fn reduction_body_does_not_leak() {
    let mut env: Environment<Real> = Environment::new();
    assert_eq!(value_in("sum(i=1,3,k=i)", &mut env), 6.0);
    assert_eq!(value_in("k", &mut env), 0.0);
    assert_eq!(value_in("i", &mut env), 0.0);
    assert_eq!(env.get(&['k']), None);
}

#[test]
fn reduction_bounds_are_rounded() {
    assert_eq!(value("sum(i=0.6,2.4,i)"), 3.0);
}

#[test]
fn reduction_sees_caller_variables() {
    let mut env: Environment<Real> = Environment::new();
    value_in("n=4", &mut env);
    assert_eq!(value_in("sum(i=1,n,i*n)", &mut env), 40.0);
}

#[test]
fn created_function_applies_to_input() {
    let e = Expression::create_from_function(UnaryFn::Sin);
    assert_eq!(e.simple_evaluate(Real(0.5)).0, 0.5f32.sin());
    let c = Expression::create_from_function(UnaryFn::Cos);
    assert_eq!(c.simple_evaluate(Real(0.0)).0, 1.0);
}

#[test]
fn number_literals() {
    assert_eq!(value("1.5*2"), 3.0);
    assert_eq!(value(".5+1."), 1.5);
    assert!(value("inf") > 1e30);
    assert!(value("nan").is_nan());
    let mut env: Environment<Real> = Environment::new();
    value_in("a1=7", &mut env);
    assert_eq!(value_in("a1", &mut env), 7.0);
}
