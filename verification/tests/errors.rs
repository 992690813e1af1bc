use compiler::error::{ErrorKind, SyntaxError};
use compiler::lexer::{lookup_keyword, Lexer};
use compiler::parser::Parser;
use compiler::token::Token;

fn message(kind: ErrorKind, line: usize, row: usize) -> String {
    SyntaxError { kind, line, row }.message()
}

#[test]
fn messages() {
    assert_eq!(
        message(ErrorKind::UnexpectedSymbol('$'), 1, 5),
        "Error: unexpected symbol '$' at line: 1, row: 5."
    );
    assert_eq!(
        message(ErrorKind::Expected { expected: '\'', found: Some('b') }, 12, 3),
        "Error: expected ''' got 'b' at line: 12, row: 3."
    );
    assert_eq!(
        message(ErrorKind::Expected { expected: '\'', found: None }, 2, 30),
        "Error: expected ''' got '' at line: 2, row: 30."
    );
    assert_eq!(
        message(ErrorKind::UnterminatedString, 100, 1),
        "Error: unterminated string at line: 100, row: 1."
    );
    assert_eq!(
        message(ErrorKind::MissingDigits, 1, 1),
        "Error: expect digits after '.' at line: 1, row: 1."
    );
    assert_eq!(
        message(ErrorKind::MissingIdentifier('@'), 1, 1),
        "Error: expected identifier after '@' at line: 1, row: 1."
    );
    assert_eq!(
        message(ErrorKind::UnexpectedToken(Token::LeftParen), 3, 4),
        "Error: unexpected token LeftParen at line: 3, row: 4."
    );
    assert_eq!(
        message(ErrorKind::UnexpectedEnd, 3, 4),
        "Error: unexpected end of input at line: 3, row: 4."
    );
    assert_eq!(
        message(ErrorKind::NoInfixRule(Token::Identifier), 1, 3),
        "Error: no infix rule for token Identifier at line: 1, row: 3."
    );
    assert_eq!(
        message(ErrorKind::IntegerOverflow, 1, 19),
        "Error: integer literal out of range at line: 1, row: 19."
    );
    assert_eq!(
        message(ErrorKind::UnexpectedSymbol('é'), usize::MAX, 0),
        format!("Error: unexpected symbol 'é' at line: {}, row: 0.", usize::MAX)
    );
}

#[test]
fn messages_of_found_errors() {
    let mut lexer = Lexer::new("a\n b $");
    while lexer.next().is_some() {}
    assert_eq!(
        lexer.error().unwrap().message(),
        "Error: unexpected symbol '$' at line: 2, row: 4."
    );
    assert_eq!(
        Parser::new("a + (").parse().unwrap_err().message(),
        "Error: unexpected token LeftParen at line: 1, row: 5."
    );
}

#[test]
fn descriptions() {
    let mut out = String::from("> ");
    ErrorKind::UnterminatedString.describe(&mut out);
    assert_eq!(out, "> unterminated string");
    let mut out = String::new();
    ErrorKind::UnexpectedSymbol('\u{10348}').describe(&mut out);
    assert_eq!(out, "unexpected symbol '\u{10348}'");
}

#[test]
fn kinds_of_error() {
    assert!(ErrorKind::UnexpectedSymbol('$').is_scan_error());
    assert!(ErrorKind::Expected { expected: '\'', found: None }.is_scan_error());
    assert!(ErrorKind::UnterminatedString.is_scan_error());
    assert!(ErrorKind::MissingDigits.is_scan_error());
    assert!(ErrorKind::MissingIdentifier(':').is_scan_error());
    assert!(!ErrorKind::UnexpectedToken(Token::Plus).is_scan_error());
    assert!(!ErrorKind::UnexpectedEnd.is_scan_error());
    assert!(!ErrorKind::NoInfixRule(Token::Int).is_scan_error());
    assert!(!ErrorKind::IntegerOverflow.is_scan_error());
}

#[test]
fn error_where_the_cursor_stands() {
    let mut lexer = Lexer::new("ab\ncd e");
    assert_eq!(
        lexer.error_here(ErrorKind::UnexpectedEnd),
        SyntaxError { kind: ErrorKind::UnexpectedEnd, line: 1, row: 1 }
    );
    lexer.next();
    assert_eq!(
        lexer.error_here(ErrorKind::UnexpectedEnd),
        SyntaxError { kind: ErrorKind::UnexpectedEnd, line: 1, row: 2 }
    );
    lexer.next();
    assert_eq!(
        lexer.error_here(ErrorKind::IntegerOverflow),
        SyntaxError { kind: ErrorKind::IntegerOverflow, line: 2, row: 2 }
    );
    assert!(!lexer.had_error());
}

#[test]
fn names_of_tokens() {
    let all = [
        (Token::Illegal, "Illegal"),
        (Token::Int, "Int"),
        (Token::Float, "Float"),
        (Token::String, "String"),
        (Token::Char, "Char"),
        (Token::Atom, "Atom"),
        (Token::Builtin, "Builtin"),
        (Token::Identifier, "Identifier"),
        (Token::LeftParen, "LeftParen"),
        (Token::RightParen, "RightParen"),
        (Token::LeftBrace, "LeftBrace"),
        (Token::RightBrace, "RightBrace"),
        (Token::LeftBracket, "LeftBracket"),
        (Token::RightBracket, "RightBracket"),
        (Token::Semicolon, "Semicolon"),
        (Token::Comma, "Comma"),
        (Token::Dot, "Dot"),
        (Token::BitNot, "BitNot"),
        (Token::Not, "Not"),
        (Token::Minus, "Minus"),
        (Token::Assign, "Assign"),
        (Token::Plus, "Plus"),
        (Token::Star, "Star"),
        (Token::Pow, "Pow"),
        (Token::Slash, "Slash"),
        (Token::Reminder, "Reminder"),
        (Token::Equal, "Equal"),
        (Token::NotEqual, "NotEqual"),
        (Token::And, "And"),
        (Token::Or, "Or"),
        (Token::Xor, "Xor"),
        (Token::BitAnd, "BitAnd"),
        (Token::BitOr, "BitOr"),
        (Token::BitXor, "BitXor"),
        (Token::Shl, "Shl"),
        (Token::Shr, "Shr"),
        (Token::Less, "Less"),
        (Token::LessEqual, "LessEqual"),
        (Token::Greater, "Greater"),
        (Token::GreaterEqual, "GreaterEqual"),
        (Token::Mod, "Mod"),
        (Token::If, "If"),
        (Token::Else, "Else"),
        (Token::Fn, "Fn"),
        (Token::While, "While"),
        (Token::For, "For"),
    ];
    for (token, name) in all {
        assert_eq!(token.name(), name);
        assert_eq!(format!("{:?}", token), name);
    }
}

#[test]
fn keywords() {
    assert_eq!(lookup_keyword("fn"), Some(Token::Fn));
    assert_eq!(lookup_keyword("mod"), Some(Token::Mod));
    assert_eq!(lookup_keyword("and"), Some(Token::And));
    assert_eq!(lookup_keyword("or"), Some(Token::Or));
    assert_eq!(lookup_keyword("xor"), Some(Token::Xor));
    assert_eq!(lookup_keyword("while"), Some(Token::While));
    assert_eq!(lookup_keyword("for"), Some(Token::For));
    assert_eq!(lookup_keyword("if"), Some(Token::If));
    assert_eq!(lookup_keyword("else"), Some(Token::Else));
    assert_eq!(lookup_keyword("fnx"), None);
    assert_eq!(lookup_keyword("f"), None);
    assert_eq!(lookup_keyword("FN"), None);
    assert_eq!(lookup_keyword(""), None);
    assert_eq!(lookup_keyword("elsewhere"), None);
}
