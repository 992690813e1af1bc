use compiler::expression::{Expression, Operator};
use compiler::parser::{get_operator, get_precedence, Parser};
use compiler::token::Token;

const OPERATORS: [(&str, Token, Operator); 21] = [
    ("+", Token::Plus, Operator::Add),
    ("-", Token::Minus, Operator::Sub),
    ("*", Token::Star, Operator::Mul),
    ("/", Token::Slash, Operator::Div),
    ("%", Token::Reminder, Operator::Rem),
    ("**", Token::Pow, Operator::Pow),
    ("mod", Token::Mod, Operator::Mod),
    ("==", Token::Equal, Operator::Equal),
    ("!=", Token::NotEqual, Operator::NotEqual),
    ("<", Token::Less, Operator::Less),
    (">", Token::Greater, Operator::Greater),
    ("<=", Token::LessEqual, Operator::LessEqual),
    (">=", Token::GreaterEqual, Operator::GreaterEqual),
    ("and", Token::And, Operator::And),
    ("or", Token::Or, Operator::Or),
    ("xor", Token::Xor, Operator::Xor),
    ("<<", Token::Shl, Operator::Shl),
    (">>", Token::Shr, Operator::Shr),
    ("&", Token::BitAnd, Operator::BitAnd),
    ("|", Token::BitOr, Operator::BitOr),
    ("^", Token::BitXor, Operator::BitXor),
];

fn apply<'a>(operator: Operator, left: Expression<'a>, right: Expression<'a>) -> Expression<'a> {
    Expression::BinaryOp { operator, left: Box::new(left), right: Box::new(right) }
}

#[test]
fn two_operators_between_three_names() {
    for (first_text, first_token, first) in OPERATORS {
        for (second_text, second_token, second) in OPERATORS {
            let source = format!("a {} b // note\n {} c", first_text, second_text);
            let a = Expression::Identifier("a");
            let b = Expression::Identifier("b");
            let c = Expression::Identifier("c");
            let expected = if get_precedence(second_token) > get_precedence(first_token) {
                apply(first, a, apply(second, b, c))
            } else {
                apply(second, apply(first, a, b), c)
            };
            assert_eq!(Parser::new(&source).parse(), Ok(expected), "{}", source);
        }
    }
}

#[test]
fn operators_have_a_precedence_of_their_own() {
    for (_, token, operator) in OPERATORS {
        assert_eq!(get_operator(token), Some(operator));
        assert!(0 < get_precedence(token) && get_precedence(token) < 10);
    }
}

#[test]
fn chains_of_one_operator_group_to_the_left() {
    for (text, _, operator) in OPERATORS {
        let source = format!("a {0} b {0} c {0} d", text);
        let expected = apply(
            operator,
            apply(
                operator,
                apply(operator, Expression::Identifier("a"), Expression::Identifier("b")),
                Expression::Identifier("c"),
            ),
            Expression::Identifier("d"),
        );
        assert_eq!(Parser::new(&source).parse(), Ok(expected));
    }
}

fn in_order(tree: &Expression<'_>, out: &mut Vec<String>) {
    match tree {
        Expression::Literal(value) => out.push(value.to_string()),
        Expression::Identifier(name) => out.push(name.to_string()),
        Expression::Assign { name, value } => {
            out.push(name.to_string());
            out.push("=".to_string());
            in_order(value, out);
        }
        Expression::BinaryOp { operator, left, right } => {
            in_order(left, out);
            out.push(operator.symbol().to_string());
            in_order(right, out);
        }
        Expression::Empty => {}
    }
}

fn binding(tree: &Expression<'_>) -> u8 {
    match tree {
        Expression::BinaryOp { operator, .. } => OPERATORS
            .iter()
            .find(|(_, _, other)| other == operator)
            .map(|(_, token, _)| get_precedence(*token))
            .unwrap(),
        Expression::Assign { .. } => 1,
        _ => 10,
    }
}

fn well_grouped(tree: &Expression<'_>) -> bool {
    match tree {
        Expression::BinaryOp { left, right, .. } => {
            well_grouped(left)
                && well_grouped(right)
                && binding(left) >= binding(tree)
                && binding(right) > binding(tree)
        }
        Expression::Assign { value, .. } => well_grouped(value) && binding(value) > 1,
        _ => true,
    }
}

#[test]
fn tokens_keep_their_order_and_operators_their_precedence() {
    let sources = [
        "a",
        "x = a + b * c - d / e",
        "a or b and c xor d == e != f < g <= h",
        "a ** b ** c mod d % 2 << 3 >> 4 & 5 | 6 ^ 7",
        "1 + 2 * 3 + 4 * 5 * 6 - 7 > 8 and 9 >= 10 or k",
        "r = a * b + c * d == e and f",
    ];
    for source in sources {
        let tree = Parser::new(source).parse().unwrap();
        let mut read = Vec::new();
        in_order(&tree, &mut read);
        let written: Vec<String> = source.split_whitespace().map(|word| word.to_string()).collect();
        assert_eq!(read, written);
        assert!(well_grouped(&tree), "{}", source);
    }
}

#[test]
fn long_chain() {
    let mut source = String::from("x0");
    for i in 1..3000 {
        source.push_str(if i % 3 == 0 { " + " } else { " * " });
        source.push_str(&format!("x{}", i));
        if i % 100 == 0 {
            source.push_str(" // a hundred more\n");
        }
    }
    let tree = Parser::new(&source).parse().unwrap();
    assert!(well_grouped(&tree));
    let mut read = Vec::new();
    in_order(&tree, &mut read);
    assert_eq!(read.len(), 2 * 3000 - 1);
    assert_eq!(read[0], "x0");
    assert_eq!(read[read.len() - 1], "x2999");
}
