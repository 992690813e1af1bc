//! The lexer: a cursor over the source that hands out one token at a time.

use crate::chars::{is_digit, is_identifier, is_whitespace, Class};
use crate::error::{located, ErrorKind, SyntaxError};
use crate::location::{lemma_position_of_prefix, line_of, position_of_last, row_of};
use crate::scan::{
    char_at, keyword, lemma_run_end, lemma_scan_token, lemma_skip_trivia, run_end, scan_char,
    scan_number, scan_sigil, scan_string, scan_token, scan_word, skip_trivia, Scan,
};
use crate::text::{after_first, before_suffix, first_char, is_suffix_of, same_text};
use crate::token::Token;
use vstd::prelude::*;

verus! {

/// A cursor over a source text.
///
/// The lexer never moves backward.  Once it has found an error it keeps that
/// error and produces no further token.
#[derive(Clone, Copy, Debug)]
pub struct Lexer<'a> {
    source: &'a str,
    token_start: &'a str,
    rest: &'a str,
    error: Option<SyntaxError>,
}

impl<'a> Lexer<'a> {
    #[verifier::type_invariant]
    spec fn well_formed(&self) -> bool {
        &&& is_suffix_of(self.token_start@, self.source@)
        &&& is_suffix_of(self.rest@, self.token_start@)
    }

    /// The characters of the source.
    pub closed spec fn text(&self) -> Seq<char> {
        self.source@
    }

    /// The index at which the current token starts.
    pub closed spec fn start(&self) -> int {
        self.source@.len() - self.token_start@.len()
    }

    /// The index of the next character to read.
    pub closed spec fn cursor(&self) -> int {
        self.source@.len() - self.rest@.len()
    }

    /// The error that stopped the lexer, if one did.
    pub closed spec fn failure(&self) -> Option<SyntaxError> {
        self.error
    }

    /// A lexer at the start of `source`.
    pub fn new(source: &'a str) -> (lexer: Self)
        ensures
            lexer.text() == source@,
            lexer.start() == 0,
            lexer.cursor() == 0,
            lexer.failure() is None,
    {
        proof {
            assert(source@.subrange(0, source@.len() as int) =~= source@);
        }
        Self { source, token_start: source, rest: source, error: None }
    }

    /// The text of the current token: the characters from its start up to
    /// the cursor.
    pub fn get_lexeme(&self) -> (lexeme: &'a str)
        ensures
            0 <= self.start() <= self.cursor() <= self.text().len(),
            lexeme@ == self.text().subrange(self.start(), self.cursor()),
    {
        proof {
            use_type_invariant(self);
        }
        let lexeme = before_suffix(self.token_start, self.rest);
        proof {
            assert(lexeme@ =~= self.text().subrange(self.start(), self.cursor()));
        }
        lexeme
    }

    /// Whether an error has stopped the lexer.
    pub fn had_error(&self) -> (failed: bool)
        ensures
            failed == self.failure() is Some,
    {
        self.error.is_some()
    }

    /// The error that stopped the lexer, if one did.
    pub fn error(&self) -> (error: Option<SyntaxError>)
        ensures
            error == self.failure(),
    {
        self.error
    }

    /// The unread part of the source is what follows the cursor.
    proof fn lemma_unread(&self)
        requires
            self.well_formed(),
        ensures
            0 <= self.start() <= self.cursor() <= self.text().len(),
            self.rest@ == self.text().subrange(self.cursor(), self.text().len() as int),
            self.token_start@ == self.text().subrange(self.start(), self.text().len() as int),
    {
        assert(self.rest@ =~= self.text().subrange(self.cursor(), self.text().len() as int));
    }

    /// The next character, if one is left.
    fn peek(&self) -> (c: Option<char>)
        ensures
            c == char_at(self.text(), self.cursor()),
    {
        proof {
            use_type_invariant(self);
            self.lemma_unread();
        }
        first_char(self.rest)
    }

    /// The character after the next one, if there is one.
    fn peek_next(&self) -> (c: Option<char>)
        ensures
            c == char_at(self.text(), self.cursor() + 1),
    {
        proof {
            use_type_invariant(self);
            self.lemma_unread();
        }
        match first_char(self.rest) {
            Some(first) => first_char(after_first(self.rest, first)),
            None => None,
        }
    }

    /// Reads the next character, if one is left, and moves past it.
    fn advance(&mut self) -> (c: Option<char>)
        ensures
            final(self).text() == old(self).text(),
            final(self).start() == old(self).start(),
            final(self).failure() == old(self).failure(),
            c == char_at(old(self).text(), old(self).cursor()),
            final(self).cursor() == old(self).cursor() + (if c is Some { 1int } else { 0int }),
    {
        proof {
            use_type_invariant(&*self);
            self.lemma_unread();
        }
        match first_char(self.rest) {
            Some(c) => {
                let tail = after_first(self.rest, c);
                proof {
                    assert(tail@ =~= self.token_start@.subrange(
                        self.token_start@.len() - tail@.len(),
                        self.token_start@.len() as int,
                    ));
                }
                self.rest = tail;
                Some(c)
            },
            None => None,
        }
    }

    /// Moves past the next character if it is `c`, and says whether it was.
    fn matches(&mut self, c: char) -> (matched: bool)
        ensures
            final(self).text() == old(self).text(),
            final(self).start() == old(self).start(),
            final(self).failure() == old(self).failure(),
            matched == (char_at(old(self).text(), old(self).cursor()) == Some(c)),
            final(self).cursor() == old(self).cursor() + (if matched { 1int } else { 0int }),
    {
        let next = self.peek();
        if next == Some(c) {
            self.advance();
            true
        } else {
            false
        }
    }

    /// Makes the cursor the start of the current token.
    fn start_new_token(&mut self)
        ensures
            final(self).text() == old(self).text(),
            final(self).start() == old(self).cursor(),
            final(self).cursor() == old(self).cursor(),
            final(self).failure() == old(self).failure(),
    {
        proof {
            use_type_invariant(&*self);
            self.lemma_unread();
            assert(self.rest@.subrange(0, self.rest@.len() as int) =~= self.rest@);
        }
        self.token_start = self.rest;
    }

    /// Line and row of the last character read; line one, row one where none
    /// has been read.
    fn get_src_position(&self) -> (position: (usize, usize))
        ensures
            position.0 == line_of(self.text(), self.cursor() - 1),
            position.1 == row_of(self.text(), self.cursor() - 1),
    {
        proof {
            use_type_invariant(self);
            self.lemma_unread();
        }
        let read = before_suffix(self.source, self.rest);
        proof {
            lemma_position_of_prefix(read@, self.text(), self.cursor() - 1);
        }
        position_of_last(read)
    }

    /// An error of kind `kind`, found where the cursor stands.
    pub fn error_here(&self, kind: ErrorKind) -> (error: SyntaxError)
        ensures
            error == located(self.text(), kind, self.cursor()),
    {
        let (line, row) = self.get_src_position();
        SyntaxError { kind, line, row }
    }

    /// Records an error of kind `kind`, found where the cursor stands.
    fn error_msg(&mut self, kind: ErrorKind)
        ensures
            final(self).text() == old(self).text(),
            final(self).start() == old(self).start(),
            final(self).cursor() == old(self).cursor(),
            final(self).failure() == Some(located(old(self).text(), kind, old(self).cursor())),
    {
        let error = self.error_here(kind);
        proof {
            use_type_invariant(&*self);
        }
        self.error = Some(error);
    }

    /// Records that the character `symbol`, which was just read, begins no
    /// token.
    fn error_unexpected_char(&mut self, symbol: char)
        ensures
            final(self).text() == old(self).text(),
            final(self).start() == old(self).start(),
            final(self).cursor() == old(self).cursor(),
            final(self).failure() == Some(
                located(old(self).text(), ErrorKind::UnexpectedSymbol(symbol), old(self).cursor()),
            ),
    {
        self.error_msg(ErrorKind::UnexpectedSymbol(symbol));
    }

    /// Records that `c` was needed where the cursor stands.
    fn error_expected(&mut self, c: char)
        ensures
            final(self).text() == old(self).text(),
            final(self).start() == old(self).start(),
            final(self).cursor() == old(self).cursor(),
            final(self).failure() == Some(
                located(
                    old(self).text(),
                    ErrorKind::Expected {
                        expected: c,
                        found: char_at(old(self).text(), old(self).cursor()),
                    },
                    old(self).cursor(),
                ),
            ),
    {
        let found = self.peek();
        self.error_msg(ErrorKind::Expected { expected: c, found });
    }

    /// Moves past the next character and yields `token` if that character
    /// is `c`; records an error otherwise.
    fn consume(&mut self, c: char, token: Token) -> (r: Option<Token>)
        ensures
            final(self).text() == old(self).text(),
            final(self).start() == old(self).start(),
            final(self).cursor() == old(self).cursor() + (if r is Some { 1int } else { 0int }),
            r == (if char_at(old(self).text(), old(self).cursor()) == Some(c) {
                Some(token)
            } else {
                None
            }),
            final(self).failure() == (if r is Some {
                old(self).failure()
            } else {
                Some(
                    located(
                        old(self).text(),
                        ErrorKind::Expected {
                            expected: c,
                            found: char_at(old(self).text(), old(self).cursor()),
                        },
                        old(self).cursor(),
                    ),
                )
            }),
    {
        if self.matches(c) {
            Some(token)
        } else {
            self.error_expected(c);
            None
        }
    }

    /// Moves to the end of the run of characters of `class` that starts at
    /// the cursor.
    fn skip_run(&mut self, class: Class)
        ensures
            final(self).text() == old(self).text(),
            final(self).start() == old(self).start(),
            final(self).failure() == old(self).failure(),
            final(self).cursor() == run_end(old(self).text(), old(self).cursor(), class),
    {
        let ghost from = self.cursor();
        let ghost before = *self;
        proof {
            use_type_invariant(&*self);
            self.lemma_unread();
        }
        loop
            invariant
                self.text() == before.text(),
                self.start() == before.start(),
                self.failure() == before.failure(),
                0 <= self.cursor() <= self.text().len(),
                from == before.cursor(),
                run_end(self.text(), self.cursor(), class) == run_end(self.text(), from, class),
            ensures
                self.cursor() == run_end(self.text(), from, class),
            decreases self.text().len() - self.cursor(),
        {
            match self.peek() {
                None => {
                    break ;
                },
                Some(c) => {
                    if !class.contains(c) {
                        break ;
                    }
                    self.advance();
                },
            }
        }
    }

    /// The state of the lexer and the token it returned are those that the
    /// scan `scan` of the current token calls for.
    pub open spec fn reports(&self, token: Option<Token>, scan: Scan) -> bool {
        match scan {
            Scan::Token { kind, end } => {
                &&& token == Some(kind)
                &&& self.cursor() == end
                &&& self.failure() is None
            },
            Scan::End => {
                &&& token is None
                &&& self.cursor() == self.start()
                &&& self.failure() is None
            },
            Scan::Fail { error, end } => {
                &&& token is None
                &&& self.cursor() == end
                &&& self.failure() == Some(located(self.text(), error, end))
            },
        }
    }

    /// Moves past white space and line comments.
    fn skip_whitespace(&mut self)
        ensures
            final(self).text() == old(self).text(),
            final(self).start() == old(self).start(),
            final(self).failure() == old(self).failure(),
            final(self).cursor() == skip_trivia(old(self).text(), old(self).cursor()),
    {
        let ghost before = *self;
        proof {
            use_type_invariant(&*self);
            self.lemma_unread();
        }
        loop
            invariant
                self.text() == before.text(),
                self.start() == before.start(),
                self.failure() == before.failure(),
                0 <= self.cursor() <= self.text().len(),
                skip_trivia(self.text(), self.cursor()) == skip_trivia(
                    self.text(),
                    before.cursor(),
                ),
            ensures
                self.cursor() == skip_trivia(self.text(), before.cursor()),
            decreases self.text().len() - self.cursor(),
        {
            match self.peek() {
                None => {
                    break ;
                },
                Some(c) => {
                    if is_whitespace(c) {
                        self.advance();
                    } else if c == '/' && self.peek_next() == Some('/') {
                        proof {
                            lemma_run_end(self.text(), self.cursor() + 2, Class::WithinLine);
                        }
                        self.advance();
                        self.advance();
                        self.skip_run(Class::WithinLine);
                    } else {
                        break ;
                    }
                },
            }
        }
    }

    /// Scans the rest of a word whose first character has been read, and
    /// tells a keyword from an identifier.
    fn identifier(&mut self) -> (token: Token)
        ensures
            final(self).text() == old(self).text(),
            final(self).start() == old(self).start(),
            final(self).failure() == old(self).failure(),
            scan_word(old(self).text(), old(self).start(), old(self).cursor()) == (Scan::Token {
                kind: token,
                end: final(self).cursor(),
            }),
    {
        self.skip_run(Class::IdentifierPart);
        match lookup_keyword(self.get_lexeme()) {
            Some(token) => token,
            None => Token::Identifier,
        }
    }

    /// Scans the rest of a number whose first digit has been read.
    fn number(&mut self) -> (token: Option<Token>)
        requires
            old(self).failure() is None,
            0 <= old(self).cursor() <= old(self).text().len(),
        ensures
            final(self).text() == old(self).text(),
            final(self).start() == old(self).start(),
            final(self).reports(token, scan_number(old(self).text(), old(self).cursor())),
    {
        proof {
            lemma_run_end(self.text(), self.cursor(), Class::Digit);
        }
        self.skip_run(Class::Digit);
        if self.peek() == Some('.') {
            match self.peek_next() {
                Some(d) => {
                    if is_digit(d) {
                        self.advance();
                        self.advance();
                        self.skip_run(Class::Digit);
                        return Some(Token::Float);
                    }
                },
                None => {},
            }
            self.error_msg(ErrorKind::MissingDigits);
            return None;
        }
        Some(Token::Int)
    }

    /// Scans the rest of a character literal whose opening quote has been
    /// read.
    fn char(&mut self) -> (token: Option<Token>)
        requires
            old(self).failure() is None,
        ensures
            final(self).text() == old(self).text(),
            final(self).start() == old(self).start(),
            final(self).reports(token, scan_char(old(self).text(), old(self).cursor())),
    {
        proof {
            use_type_invariant(&*self);
            self.lemma_unread();
        }
        self.advance();
        self.consume('\'', Token::Char)
    }

    /// Scans the rest of a literal of kind `kind` whose sigil `mark` has been
    /// read.
    fn sigil(&mut self, mark: char, kind: Token) -> (token: Option<Token>)
        requires
            old(self).failure() is None,
            char_at(old(self).text(), old(self).cursor() - 1) == Some(mark),
        ensures
            final(self).text() == old(self).text(),
            final(self).start() == old(self).start(),
            final(self).reports(token, scan_sigil(old(self).text(), old(self).cursor(), kind)),
    {
        proof {
            use_type_invariant(&*self);
            self.lemma_unread();
        }
        match self.peek() {
            Some(c) => {
                if is_identifier(c) {
                    self.advance();
                    self.skip_run(Class::IdentifierPart);
                    return Some(kind);
                }
            },
            None => {},
        }
        self.error_msg(ErrorKind::MissingIdentifier(mark));
        None
    }

    /// Scans the rest of a builtin whose `@` has been read.
    fn builtin(&mut self) -> (token: Option<Token>)
        requires
            old(self).failure() is None,
            char_at(old(self).text(), old(self).cursor() - 1) == Some('@'),
        ensures
            final(self).text() == old(self).text(),
            final(self).start() == old(self).start(),
            final(self).reports(
                token,
                scan_sigil(old(self).text(), old(self).cursor(), Token::Builtin),
            ),
    {
        self.sigil('@', Token::Builtin)
    }

    /// Scans the rest of an atom whose `:` has been read.
    fn atom(&mut self) -> (token: Option<Token>)
        requires
            old(self).failure() is None,
            char_at(old(self).text(), old(self).cursor() - 1) == Some(':'),
        ensures
            final(self).text() == old(self).text(),
            final(self).start() == old(self).start(),
            final(self).reports(
                token,
                scan_sigil(old(self).text(), old(self).cursor(), Token::Atom),
            ),
    {
        self.sigil(':', Token::Atom)
    }

    /// Scans the rest of a string literal whose opening quote has been read.
    fn string(&mut self) -> (token: Option<Token>)
        requires
            old(self).failure() is None,
            0 <= old(self).cursor() <= old(self).text().len(),
        ensures
            final(self).text() == old(self).text(),
            final(self).start() == old(self).start(),
            final(self).reports(token, scan_string(old(self).text(), old(self).cursor())),
    {
        proof {
            lemma_run_end(self.text(), self.cursor(), Class::WithinString);
        }
        self.skip_run(Class::WithinString);
        if self.peek().is_none() {
            self.error_msg(ErrorKind::UnterminatedString);
            None
        } else {
            self.advance();
            Some(Token::String)
        }
    }

    /// Scans the next token.
    ///
    /// White space and line comments before the token are passed over.  The
    /// result is `None` at the end of the source and where the text is
    /// malformed; `had_error` tells the two apart.  Once an error has been
    /// found, every call returns `None` and leaves the lexer as it is.
    pub fn next(&mut self) -> (token: Option<Token>)
        ensures
            final(self).text() == old(self).text(),
            0 <= final(self).start() <= final(self).cursor() <= final(self).text().len(),
            old(self).start() <= final(self).start(),
            old(self).cursor() <= final(self).cursor(),
            old(self).failure() is Some ==> {
                &&& token is None
                &&& final(self).start() == old(self).start()
                &&& final(self).cursor() == old(self).cursor()
                &&& final(self).failure() == old(self).failure()
            },
            old(self).failure() is None ==> {
                &&& final(self).start() == skip_trivia(old(self).text(), old(self).cursor())
                &&& final(self).reports(token, scan_token(old(self).text(), final(self).start()))
            },
    {
        proof {
            use_type_invariant(&*self);
            self.lemma_unread();
        }
        if self.error.is_some() {
            return None;
        }
        proof {
            lemma_skip_trivia(self.text(), self.cursor());
            lemma_scan_token(self.text(), skip_trivia(self.text(), self.cursor()));
        }
        self.skip_whitespace();
        self.start_new_token();
        proof {
            use_type_invariant(&*self);
            self.lemma_unread();
        }
        let c = match self.advance() {
            Some(c) => c,
            None => {
                return None;
            },
        };
        let token = match c {
            '+' => Some(Token::Plus),
            '-' => Some(Token::Minus),
            '/' => Some(Token::Slash),
            '%' => Some(Token::Reminder),
            '~' => Some(Token::BitNot),
            '&' => Some(Token::BitAnd),
            '|' => Some(Token::BitOr),
            '^' => Some(Token::BitXor),
            '*' => if self.matches('*') {
                Some(Token::Pow)
            } else {
                Some(Token::Star)
            },
            '!' => if self.matches('=') {
                Some(Token::NotEqual)
            } else {
                Some(Token::Not)
            },
            '=' => if self.matches('=') {
                Some(Token::Equal)
            } else {
                Some(Token::Assign)
            },
            '>' => if self.matches('=') {
                Some(Token::GreaterEqual)
            } else if self.matches('>') {
                Some(Token::Shr)
            } else {
                Some(Token::Greater)
            },
            '<' => if self.matches('=') {
                Some(Token::LessEqual)
            } else if self.matches('<') {
                Some(Token::Shl)
            } else {
                Some(Token::Less)
            },
            '(' => Some(Token::LeftParen),
            ')' => Some(Token::RightParen),
            '{' => Some(Token::LeftBrace),
            '}' => Some(Token::RightBrace),
            '[' => Some(Token::LeftBracket),
            ']' => Some(Token::RightBracket),
            ';' => Some(Token::Semicolon),
            ',' => Some(Token::Comma),
            '.' => Some(Token::Dot),
            ':' => self.atom(),
            '@' => self.builtin(),
            '\'' => self.char(),
            '"' => self.string(),
            _ => {
                if is_digit(c) {
                    self.number()
                } else if is_identifier(c) {
                    Some(self.identifier())
                } else {
                    self.error_unexpected_char(c);
                    None
                }
            },
        };
        proof {
            use_type_invariant(&*self);
            self.lemma_unread();
        }
        token
    }
}

/// The keyword that `word` spells, if it spells one.
pub fn lookup_keyword(word: &str) -> (token: Option<Token>)
    ensures
        token == keyword(word@),
{
    if same_text(word, "fn") {
        Some(Token::Fn)
    } else if same_text(word, "mod") {
        Some(Token::Mod)
    } else if same_text(word, "and") {
        Some(Token::And)
    } else if same_text(word, "or") {
        Some(Token::Or)
    } else if same_text(word, "xor") {
        Some(Token::Xor)
    } else if same_text(word, "while") {
        Some(Token::While)
    } else if same_text(word, "for") {
        Some(Token::For)
    } else if same_text(word, "if") {
        Some(Token::If)
    } else if same_text(word, "else") {
        Some(Token::Else)
    } else {
        None
    }
}

} // verus!
