//! What the lexer does, stated over the characters of the source.
//!
//! Positions are indices into the sequence of characters.  Scanning one
//! token has two steps: [`skip_trivia`] finds where the token starts and
//! [`scan_token`] says which token starts there and where it ends.

use crate::chars::{digit, identifier_start, whitespace, Class};
use crate::error::ErrorKind;
use crate::token::Token;
use vstd::prelude::*;

verus! {

/// The result of scanning at one position.
pub enum Scan {
    /// A token of this kind; `end` is the index after its last character.
    Token { kind: Token, end: int },
    /// Nothing is left to scan.
    End,
    /// The text is malformed; `end` is the index after the last character
    /// that was read.
    Fail { error: ErrorKind, end: int },
}

/// The character at index `at`, if there is one.
pub open spec fn char_at(text: Seq<char>, at: int) -> Option<char> {
    if 0 <= at < text.len() {
        Some(text[at])
    } else {
        None
    }
}

/// Where the run of characters of `class` that starts at `from` ends: the
/// first index at or after `from` whose character is not of `class`, or the
/// end of the text.
pub open spec fn run_end(text: Seq<char>, from: int, class: Class) -> int
    decreases text.len() - from,
{
    if 0 <= from < text.len() && class.has(text[from]) {
        run_end(text, from + 1, class)
    } else {
        from
    }
}

/// Describes `run_end` without recursion: the run is made of characters of
/// `class`, and a character of another kind or the end of the text follows.
pub proof fn lemma_run_end(text: Seq<char>, from: int, class: Class)
    requires
        0 <= from <= text.len(),
    ensures
        from <= run_end(text, from, class) <= text.len(),
        forall|i: int| from <= i < run_end(text, from, class) ==> class.has(#[trigger] text[i]),
        run_end(text, from, class) < text.len() ==> !class.has(text[run_end(text, from, class)]),
    decreases text.len() - from,
{
    if from < text.len() && class.has(text[from]) {
        lemma_run_end(text, from + 1, class);
    }
}

/// A run that starts inside another run of the same class ends where that
/// one ends.
pub proof fn lemma_run_end_resumes(
    text: Seq<char>,
    from: int,
    mid: int,
    class: Class,
)
    requires
        0 <= from <= mid <= text.len(),
        forall|i: int| from <= i < mid ==> class.has(#[trigger] text[i]),
    ensures
        run_end(text, from, class) == run_end(text, mid, class),
    decreases mid - from,
{
    if from < mid {
        assert(class.has(text[from]));
        lemma_run_end_resumes(text, from + 1, mid, class);
    }
}

/// A line comment starts at `at`: two slashes.
pub open spec fn comment_at(text: Seq<char>, at: int) -> bool {
    0 <= at && at + 1 < text.len() && text[at] == '/' && text[at + 1] == '/'
}

/// Where the next token starts when scanning resumes at `from`: the first
/// index at or after `from` that lies neither in white space nor in a line
/// comment, or the end of the text.
pub open spec fn skip_trivia(text: Seq<char>, from: int) -> int
    decreases text.len() - from,
{
    if from < 0 || from >= text.len() {
        from
    } else if whitespace(text[from]) {
        skip_trivia(text, from + 1)
    } else if comment_at(text, from) {
        proof {
            lemma_run_end(text, from + 2, Class::WithinLine);
        }
        skip_trivia(text, run_end(text, from + 2, Class::WithinLine))
    } else {
        from
    }
}

/// The token that the character `c` spells when it stands alone.
pub open spec fn symbol(c: char) -> Option<Token> {
    if c == '+' {
        Some(Token::Plus)
    } else if c == '-' {
        Some(Token::Minus)
    } else if c == '*' {
        Some(Token::Star)
    } else if c == '/' {
        Some(Token::Slash)
    } else if c == '%' {
        Some(Token::Reminder)
    } else if c == '=' {
        Some(Token::Assign)
    } else if c == '<' {
        Some(Token::Less)
    } else if c == '>' {
        Some(Token::Greater)
    } else if c == '!' {
        Some(Token::Not)
    } else if c == '~' {
        Some(Token::BitNot)
    } else if c == '&' {
        Some(Token::BitAnd)
    } else if c == '|' {
        Some(Token::BitOr)
    } else if c == '^' {
        Some(Token::BitXor)
    } else if c == '(' {
        Some(Token::LeftParen)
    } else if c == ')' {
        Some(Token::RightParen)
    } else if c == '{' {
        Some(Token::LeftBrace)
    } else if c == '}' {
        Some(Token::RightBrace)
    } else if c == '[' {
        Some(Token::LeftBracket)
    } else if c == ']' {
        Some(Token::RightBracket)
    } else if c == ';' {
        Some(Token::Semicolon)
    } else if c == ',' {
        Some(Token::Comma)
    } else if c == '.' {
        Some(Token::Dot)
    } else {
        None
    }
}

/// The token that the character `c` spells together with the character `d`
/// after it.
pub open spec fn digraph(c: char, d: char) -> Option<Token> {
    if c == '*' && d == '*' {
        Some(Token::Pow)
    } else if c == '=' && d == '=' {
        Some(Token::Equal)
    } else if c == '!' && d == '=' {
        Some(Token::NotEqual)
    } else if c == '<' && d == '=' {
        Some(Token::LessEqual)
    } else if c == '<' && d == '<' {
        Some(Token::Shl)
    } else if c == '>' && d == '=' {
        Some(Token::GreaterEqual)
    } else if c == '>' && d == '>' {
        Some(Token::Shr)
    } else {
        None
    }
}

/// The keyword that `word` spells, if it spells one.
pub open spec fn keyword(word: Seq<char>) -> Option<Token> {
    if word == "fn"@ {
        Some(Token::Fn)
    } else if word == "mod"@ {
        Some(Token::Mod)
    } else if word == "and"@ {
        Some(Token::And)
    } else if word == "or"@ {
        Some(Token::Or)
    } else if word == "xor"@ {
        Some(Token::Xor)
    } else if word == "while"@ {
        Some(Token::While)
    } else if word == "for"@ {
        Some(Token::For)
    } else if word == "if"@ {
        Some(Token::If)
    } else if word == "else"@ {
        Some(Token::Else)
    } else {
        None
    }
}

/// Scans an operator or separator whose first character, at `from - 1`,
/// spells `alone` by itself.
pub open spec fn scan_symbol(text: Seq<char>, from: int, alone: Token) -> Scan {
    match char_at(text, from) {
        Some(d) => match digraph(text[from - 1], d) {
            Some(kind) => Scan::Token { kind, end: from + 1 },
            None => Scan::Token { kind: alone, end: from },
        },
        None => Scan::Token { kind: alone, end: from },
    }
}

/// Scans the rest of a word that starts at `start`; `from` is the index
/// after its first character.
pub open spec fn scan_word(text: Seq<char>, start: int, from: int) -> Scan {
    let end = run_end(text, from, Class::IdentifierPart);
    match keyword(text.subrange(start, end)) {
        Some(kind) => Scan::Token { kind, end },
        None => Scan::Token { kind: Token::Identifier, end },
    }
}

/// Scans the rest of a number; `from` is the index after its first digit.
pub open spec fn scan_number(text: Seq<char>, from: int) -> Scan {
    let point = run_end(text, from, Class::Digit);
    if char_at(text, point) == Some('.') {
        match char_at(text, point + 1) {
            Some(d) if digit(d) => Scan::Token {
                kind: Token::Float,
                end: run_end(text, point + 2, Class::Digit),
            },
            _ => Scan::Fail { error: ErrorKind::MissingDigits, end: point },
        }
    } else {
        Scan::Token { kind: Token::Int, end: point }
    }
}

/// Scans the rest of a character literal; `from` is the index after its
/// opening quote.
pub open spec fn scan_char(text: Seq<char>, from: int) -> Scan {
    let close = if from < text.len() {
        from + 1
    } else {
        from
    };
    if char_at(text, close) == Some('\'') {
        Scan::Token { kind: Token::Char, end: close + 1 }
    } else {
        Scan::Fail {
            error: ErrorKind::Expected { expected: '\'', found: char_at(text, close) },
            end: close,
        }
    }
}

/// Scans the rest of a string literal; `from` is the index after its opening
/// quote.
pub open spec fn scan_string(text: Seq<char>, from: int) -> Scan {
    let close = run_end(text, from, Class::WithinString);
    if close < text.len() {
        Scan::Token { kind: Token::String, end: close + 1 }
    } else {
        Scan::Fail { error: ErrorKind::UnterminatedString, end: close }
    }
}

/// Scans the rest of a literal of kind `kind` that starts with a sigil;
/// `from` is the index after the sigil.
pub open spec fn scan_sigil(text: Seq<char>, from: int, kind: Token) -> Scan {
    match char_at(text, from) {
        Some(c) if identifier_start(c) => Scan::Token {
            kind,
            end: run_end(text, from + 1, Class::IdentifierPart),
        },
        _ => Scan::Fail { error: ErrorKind::MissingIdentifier(text[from - 1]), end: from },
    }
}

/// Scans the token that starts at `start`.
pub open spec fn scan_token(text: Seq<char>, start: int) -> Scan {
    match char_at(text, start) {
        None => Scan::End,
        Some(c) => {
            let from = start + 1;
            if let Some(alone) = symbol(c) {
                scan_symbol(text, from, alone)
            } else if c == ':' {
                scan_sigil(text, from, Token::Atom)
            } else if c == '@' {
                scan_sigil(text, from, Token::Builtin)
            } else if c == '\'' {
                scan_char(text, from)
            } else if c == '"' {
                scan_string(text, from)
            } else if digit(c) {
                scan_number(text, from)
            } else if identifier_start(c) {
                scan_word(text, start, from)
            } else {
                Scan::Fail { error: ErrorKind::UnexpectedSymbol(c), end: from }
            }
        },
    }
}

/// Skipping moves forward, stays within the text, and stops where a token
/// starts or the text ends: from there, nothing is left to skip.
pub proof fn lemma_skip_trivia(text: Seq<char>, from: int)
    requires
        0 <= from <= text.len(),
    ensures
        from <= skip_trivia(text, from) <= text.len(),
        skip_trivia(text, skip_trivia(text, from)) == skip_trivia(text, from),
    decreases text.len() - from,
{
    if from < text.len() {
        if whitespace(text[from]) {
            lemma_skip_trivia(text, from + 1);
        } else if comment_at(text, from) {
            lemma_run_end(text, from + 2, Class::WithinLine);
            lemma_skip_trivia(text, run_end(text, from + 2, Class::WithinLine));
        }
    }
}

/// A token holds at least one character and ends within the text; so does
/// what was read of a malformed token.
pub proof fn lemma_scan_token(text: Seq<char>, start: int)
    ensures
        match scan_token(text, start) {
            Scan::Token { kind, end } => 0 <= start < end <= text.len(),
            Scan::End => !(0 <= start < text.len()),
            Scan::Fail { error, end } => 0 <= start < end <= text.len(),
        },
{
    if 0 <= start < text.len() {
        let from = start + 1;
        lemma_run_end(text, from, Class::IdentifierPart);
        lemma_run_end(text, from, Class::Digit);
        lemma_run_end(text, from, Class::WithinString);
        if from < text.len() {
            lemma_run_end(text, from + 1, Class::IdentifierPart);
        }
        let point = run_end(text, from, Class::Digit);
        if point + 2 <= text.len() {
            lemma_run_end(text, point + 2, Class::Digit);
        }
    }
}

/// The text of an integer token is a run of digits, one at least.
pub proof fn lemma_integer_token(text: Seq<char>, start: int)
    requires
        scan_token(text, start) matches Scan::Token { kind, .. } && kind == Token::Int,
    ensures
        scan_token(text, start) matches Scan::Token { kind, end } && start < end <= text.len()
            && forall|i: int| start <= i < end ==> digit(#[trigger] text[i]),
{
    lemma_scan_token(text, start);
    lemma_run_end(text, start + 1, Class::Digit);
    let end = scan_token(text, start)->Token_end;
    assert forall|i: int| start <= i < end implies digit(#[trigger] text[i]) by {
        if i > start {
            assert(Class::Digit.has(text[i]));
        }
    }
}

/// A run that holds only characters of its class goes on to the end of the
/// text.
pub proof fn lemma_run_to_end(text: Seq<char>, from: int, class: Class)
    requires
        0 <= from <= text.len(),
        forall|i: int| from <= i < text.len() ==> class.has(#[trigger] text[i]),
    ensures
        run_end(text, from, class) == text.len(),
{
    lemma_run_end(text, from, class);
}

} // verus!
