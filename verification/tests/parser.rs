use compiler::error::{ErrorKind, SyntaxError};
use compiler::expression::{Expression, Operator};
use compiler::parser::{get_operator, get_precedence, Parser};
use compiler::token::Token;

fn parse(source: &str) -> Result<Expression<'_>, SyntaxError> {
    Parser::new(source).parse()
}

fn id(name: &str) -> Expression<'_> {
    Expression::Identifier(name)
}

fn binary<'a>(operator: Operator, left: Expression<'a>, right: Expression<'a>) -> Expression<'a> {
    Expression::BinaryOp { operator, left: Box::new(left), right: Box::new(right) }
}

#[test]
fn empty_source_is_the_empty_expression() {
    assert_eq!(parse(""), Ok(Expression::Empty));
    assert_eq!(parse("  \n // nothing here"), Ok(Expression::Empty));
}

#[test]
fn primaries() {
    assert_eq!(parse("a"), Ok(id("a")));
    assert_eq!(parse(" 42 "), Ok(Expression::Literal(42)));
    assert_eq!(parse("007"), Ok(Expression::Literal(7)));
    assert_eq!(parse("9223372036854775807"), Ok(Expression::Literal(i64::MAX)));
}

#[test]
fn subtraction_groups_to_the_left() {
    assert_eq!(
        parse("a - b - c"),
        Ok(binary(Operator::Sub, binary(Operator::Sub, id("a"), id("b")), id("c")))
    );
    assert_ne!(
        parse("a - b - c"),
        Ok(binary(Operator::Sub, id("a"), binary(Operator::Sub, id("b"), id("c"))))
    );
}

#[test]
fn multiplication_binds_tighter_than_addition() {
    assert_eq!(
        parse("a + b * c"),
        Ok(binary(Operator::Add, id("a"), binary(Operator::Mul, id("b"), id("c"))))
    );
    assert_eq!(
        parse("a * b + c"),
        Ok(binary(Operator::Add, binary(Operator::Mul, id("a"), id("b")), id("c")))
    );
}

#[test]
fn every_level_of_precedence() {
    assert_eq!(
        parse("a or b and c == d < e + f * g"),
        Ok(binary(
            Operator::Or,
            id("a"),
            binary(
                Operator::And,
                id("b"),
                binary(
                    Operator::Equal,
                    id("c"),
                    binary(
                        Operator::Less,
                        id("d"),
                        binary(Operator::Add, id("e"), binary(Operator::Mul, id("f"), id("g")))
                    )
                )
            )
        ))
    );
}

#[test]
fn every_operator() {
    let cases = [
        ("+", Operator::Add),
        ("-", Operator::Sub),
        ("*", Operator::Mul),
        ("/", Operator::Div),
        ("%", Operator::Rem),
        ("**", Operator::Pow),
        ("mod", Operator::Mod),
        ("==", Operator::Equal),
        ("!=", Operator::NotEqual),
        ("<", Operator::Less),
        (">", Operator::Greater),
        ("<=", Operator::LessEqual),
        (">=", Operator::GreaterEqual),
        ("and", Operator::And),
        ("or", Operator::Or),
        ("xor", Operator::Xor),
        ("<<", Operator::Shl),
        (">>", Operator::Shr),
        ("&", Operator::BitAnd),
        ("|", Operator::BitOr),
        ("^", Operator::BitXor),
    ];
    for (symbol, operator) in cases {
        let source = format!("x {} 1", symbol);
        assert_eq!(
            Parser::new(&source).parse(),
            Ok(binary(operator, id("x"), Expression::Literal(1)))
        );
        assert_eq!(operator.symbol(), symbol);
    }
}

#[test]
fn assignment() {
    assert_eq!(
        parse("x = a + 1"),
        Ok(Expression::Assign {
            name: "x",
            value: Box::new(binary(Operator::Add, id("a"), Expression::Literal(1)))
        })
    );
    assert_eq!(
        parse("1 = a"),
        Err(SyntaxError { kind: ErrorKind::NoInfixRule(Token::Assign), line: 1, row: 3 })
    );
    assert_eq!(
        parse("x = y = z"),
        Err(SyntaxError { kind: ErrorKind::NoInfixRule(Token::Assign), line: 1, row: 7 })
    );
}

#[test]
fn tokens_that_continue_no_expression_are_left() {
    assert_eq!(parse("a ) b"), Ok(id("a")));
    assert_eq!(parse("a + b ; c"), Ok(binary(Operator::Add, id("a"), id("b"))));
    assert_eq!(parse("a ! b"), Ok(id("a")));
}

#[test]
fn unexpected_token() {
    assert_eq!(
        parse("+ a"),
        Err(SyntaxError { kind: ErrorKind::UnexpectedToken(Token::Plus), line: 1, row: 1 })
    );
    assert_eq!(
        parse("a +\n (b)"),
        Err(SyntaxError { kind: ErrorKind::UnexpectedToken(Token::LeftParen), line: 2, row: 2 })
    );
    assert_eq!(
        parse("1.5"),
        Err(SyntaxError { kind: ErrorKind::UnexpectedToken(Token::Float), line: 1, row: 3 })
    );
    assert_eq!(
        parse("a * fn"),
        Err(SyntaxError { kind: ErrorKind::UnexpectedToken(Token::Fn), line: 1, row: 6 })
    );
}

#[test]
fn unexpected_end() {
    assert_eq!(
        parse("a +"),
        Err(SyntaxError { kind: ErrorKind::UnexpectedEnd, line: 1, row: 3 })
    );
    assert_eq!(
        parse("a + // b\n"),
        Err(SyntaxError { kind: ErrorKind::UnexpectedEnd, line: 1, row: 9 })
    );
}

#[test]
fn operand_where_an_operator_belongs() {
    assert_eq!(
        parse("a b"),
        Err(SyntaxError { kind: ErrorKind::NoInfixRule(Token::Identifier), line: 1, row: 3 })
    );
    assert_eq!(
        parse("a 12"),
        Err(SyntaxError { kind: ErrorKind::NoInfixRule(Token::Int), line: 1, row: 4 })
    );
    assert_eq!(
        parse("a \"s\""),
        Err(SyntaxError { kind: ErrorKind::NoInfixRule(Token::String), line: 1, row: 5 })
    );
}

#[test]
fn integer_overflow() {
    assert_eq!(
        parse("9223372036854775808"),
        Err(SyntaxError { kind: ErrorKind::IntegerOverflow, line: 1, row: 19 })
    );
    assert_eq!(
        parse("a + 99999999999999999999999"),
        Err(SyntaxError { kind: ErrorKind::IntegerOverflow, line: 1, row: 27 })
    );
}

#[test]
fn scan_errors_reach_the_caller() {
    assert_eq!(
        parse("$"),
        Err(SyntaxError { kind: ErrorKind::UnexpectedSymbol('$'), line: 1, row: 1 })
    );
    assert_eq!(
        parse("a $"),
        Err(SyntaxError { kind: ErrorKind::UnexpectedSymbol('$'), line: 1, row: 3 })
    );
    assert_eq!(
        parse("a + \"b"),
        Err(SyntaxError { kind: ErrorKind::UnterminatedString, line: 1, row: 6 })
    );
    assert_eq!(
        parse("a + 1."),
        Err(SyntaxError { kind: ErrorKind::MissingDigits, line: 1, row: 5 })
    );
    assert_eq!(parse("a ) $"), Ok(id("a")));
}

#[test]
fn parsing_goes_on_after_an_expression() {
    let mut parser = Parser::new("a + b c * d");
    assert_eq!(
        parser.parse(),
        Err(SyntaxError { kind: ErrorKind::NoInfixRule(Token::Identifier), line: 1, row: 7 })
    );
    let mut parser = Parser::new("a");
    assert_eq!(parser.parse(), Ok(id("a")));
    assert_eq!(parser.parse(), Ok(Expression::Empty));
}

#[test]
fn precedence_table() {
    assert_eq!(get_precedence(Token::Assign), 1);
    assert_eq!(get_precedence(Token::Or), 2);
    assert_eq!(get_precedence(Token::Xor), 2);
    assert_eq!(get_precedence(Token::And), 3);
    assert_eq!(get_precedence(Token::Equal), 4);
    assert_eq!(get_precedence(Token::NotEqual), 4);
    assert_eq!(get_precedence(Token::Less), 5);
    assert_eq!(get_precedence(Token::GreaterEqual), 5);
    assert_eq!(get_precedence(Token::Plus), 6);
    assert_eq!(get_precedence(Token::Minus), 6);
    assert_eq!(get_precedence(Token::Star), 7);
    assert_eq!(get_precedence(Token::Mod), 7);
    assert_eq!(get_precedence(Token::Pow), 7);
    assert_eq!(get_precedence(Token::Shl), 7);
    assert_eq!(get_precedence(Token::BitXor), 7);
    assert_eq!(get_precedence(Token::Identifier), 10);
    assert_eq!(get_precedence(Token::Int), 10);
    assert_eq!(get_precedence(Token::LeftParen), 0);
    assert_eq!(get_precedence(Token::Not), 0);
    assert_eq!(get_precedence(Token::Illegal), 0);
    assert_eq!(get_operator(Token::Plus), Some(Operator::Add));
    assert_eq!(get_operator(Token::Assign), None);
    assert_eq!(get_operator(Token::Identifier), None);
}

#[test]
fn rendering() {
    assert_eq!(parse("a + b").unwrap().render(), "(+ a b)");
    assert_eq!(parse("a - b - c").unwrap().render(), "(- (- a b) c)");
    assert_eq!(parse("a + b * c").unwrap().render(), "(+ a (* b c))");
    assert_eq!(parse("x = 10 mod 3").unwrap().render(), "(= x (mod 10 3))");
    assert_eq!(parse("a ** 2 >= b << 1").unwrap().render(), "(>= (** a 2) (<< b 1))");
    assert_eq!(Expression::Literal(0).render(), "0");
    assert_eq!(Expression::Literal(-15).render(), "-15");
    assert_eq!(Expression::Literal(i64::MIN).render(), "-9223372036854775808");
    assert_eq!(Expression::Literal(i64::MAX).render(), "9223372036854775807");
    assert_eq!(Expression::Empty.render(), "XXX");
}

#[test]
fn rendered_primitives_parse_to_themselves() {
    for source in ["a", "_tmp1", "fnx", "0", "42", "9223372036854775807"] {
        let tree = parse(source).unwrap();
        let text = tree.render();
        assert_eq!(text, source);
        assert_eq!(Parser::new(&text).parse().unwrap(), tree);
    }
}
