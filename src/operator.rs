//! The catalogue of symbolic operators.
use vstd::prelude::*;

verus! {

/// A symbolic operator, or one of the structural tokens
/// (parentheses, comma, space).
#[derive(Clone, Copy, Debug, PartialEq, Eq, Structural)]
pub enum Operator {
    Add,
    Sub,
    Mul,
    Div,
    Pow,
    ParenOpen,
    ParenClose,
    Space,
    Comma,
    Factorial,
    Square,
    Assign,
    Equal,
    NotEqual,
    LessEq,
    Less,
    GreaterEq,
    Greater,
}

/// The operator that starts with `c` when `next` follows it, and how many
/// characters it takes.
pub open spec fn operator_at(c: char, next: Option<char>) -> Option<(Operator, usize)> {
    let two = next == Some('=');
    if c == '+' {
        Some((Operator::Add, 1))
    } else if c == '-' {
        Some((Operator::Sub, 1))
    } else if c == '*' {
        Some((Operator::Mul, 1))
    } else if c == '/' {
        Some((Operator::Div, 1))
    } else if c == '^' {
        Some((Operator::Pow, 1))
    } else if c == '(' {
        Some((Operator::ParenOpen, 1))
    } else if c == ')' {
        Some((Operator::ParenClose, 1))
    } else if c == ' ' {
        Some((Operator::Space, 1))
    } else if c == ',' {
        Some((Operator::Comma, 1))
    } else if c == '\u{b2}' {
        Some((Operator::Square, 1))
    } else if c == '=' {
        if two { Some((Operator::Equal, 2)) } else { Some((Operator::Assign, 1)) }
    } else if c == '!' {
        if two { Some((Operator::NotEqual, 2)) } else { Some((Operator::Factorial, 1)) }
    } else if c == '<' {
        if two { Some((Operator::LessEq, 2)) } else { Some((Operator::Less, 1)) }
    } else if c == '>' {
        if two { Some((Operator::GreaterEq, 2)) } else { Some((Operator::Greater, 1)) }
    } else {
        None
    }
}

/// The text of an operator.
pub open spec fn operator_text(op: Operator) -> Seq<char> {
    match op {
        Operator::Add => seq!['+'],
        Operator::Sub => seq!['-'],
        Operator::Mul => seq!['*'],
        Operator::Div => seq!['/'],
        Operator::Pow => seq!['^'],
        Operator::ParenOpen => seq!['('],
        Operator::ParenClose => seq![')'],
        Operator::Space => seq![' '],
        Operator::Comma => seq![','],
        Operator::Factorial => seq!['!'],
        Operator::Square => seq!['\u{b2}'],
        Operator::Assign => seq!['='],
        Operator::Equal => seq!['=', '='],
        Operator::NotEqual => seq!['!', '='],
        Operator::LessEq => seq!['<', '='],
        Operator::Less => seq!['<'],
        Operator::GreaterEq => seq!['>', '='],
        Operator::Greater => seq!['>'],
    }
}

/// Binding strength: higher binds tighter. Parentheses and the comma carry
/// a value above every real operator.
pub open spec fn operator_precedence(op: Operator) -> u8 {
    match op {
        Operator::Add | Operator::Sub => 2,
        Operator::Mul | Operator::Div => 3,
        Operator::Pow => 4,
        Operator::Square | Operator::Factorial => 5,
        Operator::ParenOpen | Operator::ParenClose | Operator::Comma => 255,
        Operator::Space | Operator::Assign => 0,
        Operator::Equal | Operator::NotEqual | Operator::LessEq | Operator::Less
        | Operator::GreaterEq | Operator::Greater => 1,
    }
}

impl Operator {
    /// Reads the operator that starts with `c`, looking at the following
    /// character `next` to tell `=` from `==`, `!` from `!=`, `<` from `<=`
    /// and `>` from `>=`. Returns the operator and the number of characters
    /// it takes, or `None` when `c` starts no operator.
    pub fn from_char(c: char, next: Option<char>) -> (r: Option<(Operator, usize)>)
        ensures
            r == operator_at(c, next),
    {
        let two = next == Some('=');
        if c == '+' {
            Some((Operator::Add, 1))
        } else if c == '-' {
            Some((Operator::Sub, 1))
        } else if c == '*' {
            Some((Operator::Mul, 1))
        } else if c == '/' {
            Some((Operator::Div, 1))
        } else if c == '^' {
            Some((Operator::Pow, 1))
        } else if c == '(' {
            Some((Operator::ParenOpen, 1))
        } else if c == ')' {
            Some((Operator::ParenClose, 1))
        } else if c == ' ' {
            Some((Operator::Space, 1))
        } else if c == ',' {
            Some((Operator::Comma, 1))
        } else if c == '\u{b2}' {
            Some((Operator::Square, 1))
        } else if c == '=' {
            if two { Some((Operator::Equal, 2)) } else { Some((Operator::Assign, 1)) }
        } else if c == '!' {
            if two { Some((Operator::NotEqual, 2)) } else { Some((Operator::Factorial, 1)) }
        } else if c == '<' {
            if two { Some((Operator::LessEq, 2)) } else { Some((Operator::Less, 1)) }
        } else if c == '>' {
            if two { Some((Operator::GreaterEq, 2)) } else { Some((Operator::Greater, 1)) }
        } else {
            None
        }
    }

    /// The text of the operator, as `from_char` reads it.
    pub fn to_string(&self) -> (r: &'static str)
        ensures
            r@ == operator_text(*self),
    {
        match self {
            Operator::Add => { proof { reveal_strlit("+"); } "+" },
            Operator::Sub => { proof { reveal_strlit("-"); } "-" },
            Operator::Mul => { proof { reveal_strlit("*"); } "*" },
            Operator::Div => { proof { reveal_strlit("/"); } "/" },
            Operator::Pow => { proof { reveal_strlit("^"); } "^" },
            Operator::ParenOpen => { proof { reveal_strlit("("); } "(" },
            Operator::ParenClose => { proof { reveal_strlit(")"); } ")" },
            Operator::Space => { proof { reveal_strlit(" "); } " " },
            Operator::Comma => { proof { reveal_strlit(","); } "," },
            Operator::Factorial => { proof { reveal_strlit("!"); } "!" },
            Operator::Square => { proof { reveal_strlit("\u{b2}"); } "\u{b2}" },
            Operator::Assign => { proof { reveal_strlit("="); } "=" },
            Operator::Equal => { proof { reveal_strlit("=="); } "==" },
            Operator::NotEqual => { proof { reveal_strlit("!="); } "!=" },
            Operator::LessEq => { proof { reveal_strlit("<="); } "<=" },
            Operator::Less => { proof { reveal_strlit("<"); } "<" },
            Operator::GreaterEq => { proof { reveal_strlit(">="); } ">=" },
            Operator::Greater => { proof { reveal_strlit(">"); } ">" },
        }
    }

    /// Binding strength of the operator.
    pub fn precedence(&self) -> (r: u8)
        ensures
            r == operator_precedence(*self),
    {
        match self {
            Operator::Add | Operator::Sub => 2,
            Operator::Mul | Operator::Div => 3,
            Operator::Pow => 4,
            Operator::Square | Operator::Factorial => 5,
            Operator::ParenOpen | Operator::ParenClose | Operator::Comma => 255,
            Operator::Space | Operator::Assign => 0,
            Operator::Equal | Operator::NotEqual | Operator::LessEq | Operator::Less
            | Operator::GreaterEq | Operator::Greater => 1,
        }
    }
}

} // verus!
