use compiler::error::{ErrorKind, SyntaxError};
use compiler::lexer::Lexer;
use compiler::token::Token;

fn tokens(source: &str) -> (Vec<(Token, String)>, Option<SyntaxError>) {
    let mut lexer = Lexer::new(source);
    let mut found = Vec::new();
    while let Some(token) = lexer.next() {
        found.push((token, lexer.get_lexeme().to_string()));
    }
    (found, lexer.error())
}

fn kinds(source: &str) -> Vec<Token> {
    let (found, error) = tokens(source);
    assert_eq!(error, None);
    found.into_iter().map(|(token, _)| token).collect()
}

#[test]
fn empty_source_has_no_tokens() {
    let mut lexer = Lexer::new("");
    assert_eq!(lexer.next(), None);
    assert!(!lexer.had_error());
    assert_eq!(lexer.error(), None);
    assert_eq!(lexer.get_lexeme(), "");
}

#[test]
fn single_character_tokens() {
    let cases = [
        ("+", Token::Plus),
        ("-", Token::Minus),
        ("*", Token::Star),
        ("/", Token::Slash),
        ("%", Token::Reminder),
        ("=", Token::Assign),
        ("<", Token::Less),
        (">", Token::Greater),
        ("!", Token::Not),
        ("~", Token::BitNot),
        ("&", Token::BitAnd),
        ("|", Token::BitOr),
        ("^", Token::BitXor),
        ("(", Token::LeftParen),
        (")", Token::RightParen),
        ("{", Token::LeftBrace),
        ("}", Token::RightBrace),
        ("[", Token::LeftBracket),
        ("]", Token::RightBracket),
        (";", Token::Semicolon),
        (",", Token::Comma),
        (".", Token::Dot),
    ];
    for (source, token) in cases {
        let (found, error) = tokens(source);
        assert_eq!(error, None);
        assert_eq!(found, vec![(token, source.to_string())]);
    }
}

#[test]
fn two_character_operators() {
    assert_eq!(tokens("**").0, vec![(Token::Pow, "**".to_string())]);
    assert_eq!(kinds("=="), vec![Token::Equal]);
    assert_eq!(kinds("!="), vec![Token::NotEqual]);
    assert_eq!(kinds("<="), vec![Token::LessEqual]);
    assert_eq!(kinds(">="), vec![Token::GreaterEqual]);
    assert_eq!(kinds("<<"), vec![Token::Shl]);
    assert_eq!(kinds(">>"), vec![Token::Shr]);
}

#[test]
fn star_before_another_character_stands_alone() {
    assert_eq!(
        tokens("*a").0,
        vec![(Token::Star, "*".to_string()), (Token::Identifier, "a".to_string())]
    );
    assert_eq!(kinds("* *"), vec![Token::Star, Token::Star]);
    assert_eq!(kinds("***"), vec![Token::Pow, Token::Star]);
    assert_eq!(kinds("=>"), vec![Token::Assign, Token::Greater]);
    assert_eq!(kinds("<>"), vec![Token::Less, Token::Greater]);
    assert_eq!(kinds("!x"), vec![Token::Not, Token::Identifier]);
}

#[test]
fn numbers() {
    assert_eq!(tokens("123").0, vec![(Token::Int, "123".to_string())]);
    assert_eq!(tokens("123.45").0, vec![(Token::Float, "123.45".to_string())]);
    assert_eq!(kinds("1 2.5 3"), vec![Token::Int, Token::Float, Token::Int]);
}

#[test]
fn number_with_bare_point_is_an_error() {
    let (found, error) = tokens("123.");
    assert_eq!(found, vec![]);
    assert_eq!(error, Some(SyntaxError { kind: ErrorKind::MissingDigits, line: 1, row: 3 }));
    let (found, error) = tokens("7.x");
    assert_eq!(found, vec![]);
    assert_eq!(error, Some(SyntaxError { kind: ErrorKind::MissingDigits, line: 1, row: 1 }));
}

#[test]
fn keywords_and_identifiers() {
    assert_eq!(tokens("fn").0, vec![(Token::Fn, "fn".to_string())]);
    assert_eq!(tokens("fnx").0, vec![(Token::Identifier, "fnx".to_string())]);
    assert_eq!(
        kinds("fn mod and or xor while for if else"),
        vec![
            Token::Fn,
            Token::Mod,
            Token::And,
            Token::Or,
            Token::Xor,
            Token::While,
            Token::For,
            Token::If,
            Token::Else
        ]
    );
    assert_eq!(kinds("Fn f _x x1 for_"), vec![Token::Identifier; 5]);
}

#[test]
fn strings_characters_atoms_builtins() {
    assert_eq!(
        tokens("\"a b\" 'c' :ok @len").0,
        vec![
            (Token::String, "\"a b\"".to_string()),
            (Token::Char, "'c'".to_string()),
            (Token::Atom, ":ok".to_string()),
            (Token::Builtin, "@len".to_string()),
        ]
    );
    assert_eq!(tokens("'é'").0, vec![(Token::Char, "'é'".to_string())]);
    assert_eq!(tokens("\"žluťoučký\nkůň\"").0.len(), 1);
    assert_eq!(kinds("@_x :_1"), vec![Token::Builtin, Token::Atom]);
}

#[test]
fn white_space_and_comments_are_skipped() {
    assert_eq!(
        tokens("  a // note + 1\n\t// more\n b\u{a0}// end").0,
        vec![(Token::Identifier, "a".to_string()), (Token::Identifier, "b".to_string())]
    );
    assert_eq!(kinds("a / b"), vec![Token::Identifier, Token::Slash, Token::Identifier]);
    assert_eq!(kinds("//"), vec![]);
}

#[test]
fn unexpected_symbol() {
    let (found, error) = tokens("a\n  $ b");
    assert_eq!(found, vec![(Token::Identifier, "a".to_string())]);
    assert_eq!(
        error,
        Some(SyntaxError { kind: ErrorKind::UnexpectedSymbol('$'), line: 2, row: 3 })
    );
    let (_, error) = tokens("#");
    assert_eq!(
        error,
        Some(SyntaxError { kind: ErrorKind::UnexpectedSymbol('#'), line: 1, row: 1 })
    );
    let (_, error) = tokens("\\");
    assert_eq!(
        error,
        Some(SyntaxError { kind: ErrorKind::UnexpectedSymbol('\\'), line: 1, row: 1 })
    );
    let (_, error) = tokens("é");
    assert_eq!(
        error,
        Some(SyntaxError { kind: ErrorKind::UnexpectedSymbol('é'), line: 1, row: 1 })
    );
}

#[test]
fn unterminated_string() {
    let (found, error) = tokens("x \"abc\ndef");
    assert_eq!(found, vec![(Token::Identifier, "x".to_string())]);
    assert_eq!(error, Some(SyntaxError { kind: ErrorKind::UnterminatedString, line: 2, row: 3 }));
}

#[test]
fn character_literal_without_closing_quote() {
    let (_, error) = tokens("'ab'");
    assert_eq!(
        error,
        Some(SyntaxError {
            kind: ErrorKind::Expected { expected: '\'', found: Some('b') },
            line: 1,
            row: 2
        })
    );
    let (_, error) = tokens("'a");
    assert_eq!(
        error,
        Some(SyntaxError {
            kind: ErrorKind::Expected { expected: '\'', found: None },
            line: 1,
            row: 2
        })
    );
    let (_, error) = tokens("'");
    assert_eq!(
        error,
        Some(SyntaxError {
            kind: ErrorKind::Expected { expected: '\'', found: None },
            line: 1,
            row: 1
        })
    );
}

#[test]
fn sigil_without_identifier() {
    let (_, error) = tokens(": x");
    assert_eq!(
        error,
        Some(SyntaxError { kind: ErrorKind::MissingIdentifier(':'), line: 1, row: 1 })
    );
    let (_, error) = tokens("a @1");
    assert_eq!(
        error,
        Some(SyntaxError { kind: ErrorKind::MissingIdentifier('@'), line: 1, row: 3 })
    );
}

#[test]
fn error_is_kept_and_stops_the_lexer() {
    let mut lexer = Lexer::new("a $ b");
    assert_eq!(lexer.next(), Some(Token::Identifier));
    assert!(!lexer.had_error());
    assert_eq!(lexer.next(), None);
    assert!(lexer.had_error());
    let error = lexer.error();
    assert_eq!(lexer.next(), None);
    assert_eq!(lexer.next(), None);
    assert_eq!(lexer.error(), error);
}

#[test]
fn end_of_source_is_final() {
    let mut lexer = Lexer::new("a ");
    assert_eq!(lexer.next(), Some(Token::Identifier));
    assert_eq!(lexer.get_lexeme(), "a");
    assert_eq!(lexer.next(), None);
    assert_eq!(lexer.next(), None);
    assert!(!lexer.had_error());
    assert_eq!(lexer.get_lexeme(), "");
}

#[test]
fn lexemes_are_the_consumed_characters() {
    let source = "fn add(a, b) { a+b**2 <= 10.5 } // done";
    let (found, error) = tokens(source);
    assert_eq!(error, None);
    let texts: Vec<&str> = found.iter().map(|(_, text)| text.as_str()).collect();
    assert_eq!(
        texts,
        vec!["fn", "add", "(", "a", ",", "b", ")", "{", "a", "+", "b", "**", "2", "<=", "10.5", "}"]
    );
    let mut rest = source;
    for text in texts {
        let at = rest.find(text).unwrap();
        assert!(rest[..at].chars().all(|c| c.is_whitespace()));
        rest = &rest[at + text.len()..];
    }
}

#[test]
fn lexer_can_be_copied() {
    let mut lexer = Lexer::new("a b");
    assert_eq!(lexer.next(), Some(Token::Identifier));
    let mut copy = lexer;
    assert_eq!(copy.next(), Some(Token::Identifier));
    assert_eq!(copy.get_lexeme(), "b");
    assert_eq!(lexer.get_lexeme(), "a");
}
