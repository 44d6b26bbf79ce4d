use formula::{
    filter_tokens_priority, function_from_string, parse_expression, reduced_text,
    split_operator, text_chars, BinaryOp, Builtin, Environment, Expression, Function,
    NamedConstant, Operator, ParseError, ReduceOp, Token, UnaryFn, VariadicFn,
};

fn chars(s: &str) -> Vec<char> {
    s.chars().collect()
}

fn op(o: Operator) -> Token {
    Token::Operator(o)
}

fn id(start: usize, end: usize) -> Token {
    Token::Identifier { start, end }
}

fn leaf(function: Function) -> Expression {
    Expression { function, params: vec![] }
}

fn literal(s: &str) -> Expression {
    leaf(Function::Literal(chars(s)))
}

fn binary(o: BinaryOp, a: Expression, b: Expression) -> Expression {
    Expression { function: Function::Binary(o), params: vec![a, b] }
}

#[test]
fn operator_from_char() {
    assert_eq!(Operator::from_char('+', None), Some((Operator::Add, 1)));
    assert_eq!(Operator::from_char('=', Some('=')), Some((Operator::Equal, 2)));
    assert_eq!(Operator::from_char('=', Some('x')), Some((Operator::Assign, 1)));
    assert_eq!(Operator::from_char('!', Some('=')), Some((Operator::NotEqual, 2)));
    assert_eq!(Operator::from_char('!', None), Some((Operator::Factorial, 1)));
    assert_eq!(Operator::from_char('<', Some('=')), Some((Operator::LessEq, 2)));
    assert_eq!(Operator::from_char('>', Some('1')), Some((Operator::Greater, 1)));
    assert_eq!(Operator::from_char('\u{b2}', None), Some((Operator::Square, 1)));
    assert_eq!(Operator::from_char('a', None), None);
    assert_eq!(Operator::from_char('.', None), None);
}

#[test]
fn operator_text_reads_back() {
    let all = [
        Operator::Add,
        Operator::Sub,
        Operator::Mul,
        Operator::Div,
        Operator::Pow,
        Operator::ParenOpen,
        Operator::ParenClose,
        Operator::Space,
        Operator::Comma,
        Operator::Factorial,
        Operator::Square,
        Operator::Assign,
        Operator::Equal,
        Operator::NotEqual,
        Operator::LessEq,
        Operator::Less,
        Operator::GreaterEq,
        Operator::Greater,
    ];
    for o in all {
        let t: Vec<char> = o.to_string().chars().collect();
        assert_eq!(Operator::from_char(t[0], t.get(1).copied()), Some((o, t.len())));
    }
}

#[test]
fn operator_precedence() {
    assert_eq!(Operator::Add.precedence(), 2);
    assert_eq!(Operator::Mul.precedence(), 3);
    assert_eq!(Operator::Pow.precedence(), 4);
    assert_eq!(Operator::Factorial.precedence(), 5);
    assert_eq!(Operator::Greater.precedence(), 1);
    assert_eq!(Operator::Assign.precedence(), 0);
    assert_eq!(Operator::ParenOpen.precedence(), 255);
    assert_eq!(Operator::Comma.precedence(), 255);
}

#[test]
fn builtin_names() {
    let t = chars("xCOSHy");
    assert_eq!(function_from_string(&t, 1, 5), Some(Builtin::Unary(UnaryFn::Cosh)));
    let t = chars("prod");
    assert_eq!(function_from_string(&t, 0, 4), Some(Builtin::Reduce(ReduceOp::Mul)));
    let t = chars("e");
    assert_eq!(function_from_string(&t, 0, 1), Some(Builtin::Constant(NamedConstant::E)));
    let t = chars("pow");
    assert_eq!(function_from_string(&t, 0, 3), Some(Builtin::Variadic(VariadicFn::Pow)));
    let t = chars("sine");
    assert_eq!(function_from_string(&t, 0, 4), None);
    let t = chars("If");
    assert_eq!(function_from_string(&t, 0, 2), Some(Builtin::Conditional));
}

#[test]
fn tokens_split_number_and_name() {
    let t = chars("2x");
    assert_eq!(split_operator(&t), vec![id(0, 1), op(Operator::Mul), id(1, 2)]);
    let t = chars("2.5y+1");
    assert_eq!(
        split_operator(&t),
        vec![id(0, 3), op(Operator::Mul), id(3, 4), op(Operator::Add), id(5, 6)]
    );
}

#[test]
fn tokens_keep_name_with_digits() {
    let t = chars("x2");
    assert_eq!(split_operator(&t), vec![id(0, 2)]);
}

#[test]
fn tokens_product_before_parenthesis() {
    let t = chars("y(3)");
    assert_eq!(
        split_operator(&t),
        vec![
            id(0, 1),
            op(Operator::Mul),
            op(Operator::ParenOpen),
            id(2, 3),
            op(Operator::ParenClose)
        ]
    );
    let t = chars("sin(3)");
    assert_eq!(
        split_operator(&t),
        vec![id(0, 3), op(Operator::ParenOpen), id(4, 5), op(Operator::ParenClose)]
    );
    let t = chars("(1)(2)");
    assert_eq!(
        split_operator(&t),
        vec![
            op(Operator::ParenOpen),
            id(1, 2),
            op(Operator::ParenClose),
            op(Operator::Mul),
            op(Operator::ParenOpen),
            id(4, 5),
            op(Operator::ParenClose)
        ]
    );
    let t = chars("(1)a");
    assert_eq!(
        split_operator(&t),
        vec![
            op(Operator::ParenOpen),
            id(1, 2),
            op(Operator::ParenClose),
            op(Operator::Mul),
            id(3, 4)
        ]
    );
}

#[test]
fn tokens_two_character_operators() {
    let t = chars("a<=b");
    assert_eq!(split_operator(&t), vec![id(0, 1), op(Operator::LessEq), id(3, 4)]);
    let t = chars("a = b");
    assert_eq!(
        split_operator(&t),
        vec![
            id(0, 1),
            op(Operator::Space),
            op(Operator::Assign),
            op(Operator::Space),
            id(4, 5)
        ]
    );
}

#[test]
fn reduction_puts_operators_first() {
    let t = chars("2+3*4");
    let tokens = split_operator(&t);
    assert_eq!(
        filter_tokens_priority(&tokens),
        Ok(vec![op(Operator::Add), op(Operator::Mul), id(4, 5), id(2, 3), id(0, 1)])
    );
}

#[test]
fn reduction_of_a_call() {
    let t = chars("max(1,2)");
    let tokens = split_operator(&t);
    assert_eq!(
        filter_tokens_priority(&tokens),
        Ok(vec![id(0, 3), op(Operator::ParenOpen), id(6, 7), op(Operator::Comma), id(4, 5)])
    );
}

#[test]
fn reduction_errors() {
    let t = chars("(1");
    assert_eq!(filter_tokens_priority(&split_operator(&t)), Err(ParseError::UnbalancedParenthesis));
    let t = chars("1)");
    assert_eq!(filter_tokens_priority(&split_operator(&t)), Err(ParseError::UnbalancedParenthesis));
    let t = chars("1,2");
    assert_eq!(filter_tokens_priority(&split_operator(&t)), Err(ParseError::UnexpectedComma));
}

#[test]
fn reduced_text_of_formulas() {
    assert_eq!(reduced_text("2+3*4"), Ok(chars("+*432")));
    assert_eq!(reduced_text("2 ^ 3 ^ 2"), Ok(chars("^2^32")));
    assert_eq!(reduced_text("sin(x)"), Ok(chars("sin(x")));
    assert_eq!(reduced_text("a<=b"), Ok(chars("<=ba")));
    assert_eq!(reduced_text("(1"), Err(ParseError::UnbalancedParenthesis));
}

#[test]
fn characters_of_text() {
    assert_eq!(text_chars("a\u{b2}b"), vec!['a', '\u{b2}', 'b']);
    assert_eq!(text_chars(""), Vec::<char>::new());
}

#[test]
fn tree_of_precedence() {
    let e = parse_expression("2+3*4").unwrap();
    let expected = binary(
        BinaryOp::Add,
        literal("2"),
        binary(BinaryOp::Mul, literal("3"), literal("4")),
    );
    assert_eq!(e, expected);
}

#[test]
fn tree_of_left_folded_power() {
    let e = parse_expression("2^3^2").unwrap();
    let expected = binary(
        BinaryOp::Pow,
        binary(BinaryOp::Pow, literal("2"), literal("3")),
        literal("2"),
    );
    assert_eq!(e, expected);
}

#[test]
fn tree_of_negation() {
    let e = parse_expression("-x").unwrap();
    assert_eq!(e, binary(BinaryOp::Sub, literal("0"), leaf(Function::InputSymbol)));
}

#[test]
fn tree_of_sum() {
    let e = parse_expression("sum(i=1,5,i)").unwrap();
    let var = || leaf(Function::FreeVariable(vec!['i']));
    let expected = Expression {
        function: Function::Reduce(ReduceOp::Add),
        params: vec![
            Expression { function: Function::Assign, params: vec![var(), literal("1")] },
            literal("5"),
            var(),
        ],
    };
    assert_eq!(e, expected);
}

#[test]
fn tree_of_names() {
    assert_eq!(parse_expression("x").unwrap(), leaf(Function::InputSymbol));
    assert_eq!(parse_expression("X").unwrap(), leaf(Function::FreeVariable(vec!['X'])));
    assert_eq!(parse_expression("pi").unwrap(), leaf(Function::Constant(NamedConstant::Pi)));
    assert_eq!(parse_expression("1.25").unwrap(), literal("1.25"));
    assert_eq!(parse_expression("1.2.3").unwrap(), leaf(Function::FreeVariable(chars("1.2.3"))));
}

#[test]
fn environment_set_and_get() {
    let mut env: Environment<i32> = Environment::new();
    assert_eq!(env.get(&['a']), None);
    env.set(&['a'], 1);
    env.set(&['b', 'c'], 2);
    env.set(&['a'], 3);
    assert_eq!(env.get(&['a']), Some(3));
    assert_eq!(env.get(&['b', 'c']), Some(2));
    let copy = env.copy();
    env.set(&['b', 'c'], 9);
    assert_eq!(copy.get(&['b', 'c']), Some(2));
    assert_eq!(env.get(&['b', 'c']), Some(9));
}

#[test]
fn literal_form_agrees_with_std() {
    for text in [
        "1.", ".5", "1E+5", "1e", "e5", ".", "Infinity", "NaN", "1.2.3", "12", "-3.5", "+inf",
        "1e-7", "0.0e0", "in", "nan1", "", "1.5x",
    ] {
        let cs = chars(text);
        assert_eq!(
            formula::literal::is_number_literal_at(&cs, 0, cs.len()),
            text.parse::<f32>().is_ok(),
            "{}",
            text
        );
    }
}
