//! Errors of scanning and parsing, each with the place where it was found.

use crate::decimal::{decimal_text, push_decimal};
use crate::location::{line_of, row_of};
use crate::token::Token;
use vstd::prelude::*;
use vstd::string::StringExecFns;

verus! {

/// What went wrong.
#[derive(Debug, PartialEq, Eq, Clone, Copy)]
pub enum ErrorKind {
    /// The lexer met a character that begins no token.
    UnexpectedSymbol(char),
    /// The lexer needed the character `expected` and found another, or found
    /// none because the input ended.
    Expected { expected: char, found: Option<char> },
    /// The input ended inside a string literal.
    UnterminatedString,
    /// A number ends in a decimal point that no digit follows.
    MissingDigits,
    /// No identifier follows the sigil.
    MissingIdentifier(char),
    /// The parser needed an expression and found this token.
    UnexpectedToken(Token),
    /// The parser needed an expression and the input ended.
    UnexpectedEnd,
    /// The token stands where an operator belongs, and no expression can be
    /// built from it and the operand on its left.
    NoInfixRule(Token),
    /// An integer literal is too large.
    IntegerOverflow,
}

/// An error and the line and row of the last character that had been read
/// when it was found.
#[derive(Debug, PartialEq, Eq, Clone, Copy)]
pub struct SyntaxError {
    pub kind: ErrorKind,
    pub line: usize,
    pub row: usize,
}

impl ErrorKind {
    /// The lexer finds this kind of error; the parser finds the others.
    pub open spec fn from_scanning(self) -> bool {
        self is UnexpectedSymbol || self is Expected || self is UnterminatedString
            || self is MissingDigits || self is MissingIdentifier
    }

    /// Whether the lexer finds this kind of error; the parser finds the
    /// others.
    pub fn is_scan_error(self) -> (r: bool)
        ensures
            r == self.from_scanning(),
    {
        match self {
            ErrorKind::UnexpectedSymbol(_)
            | ErrorKind::Expected { .. }
            | ErrorKind::UnterminatedString
            | ErrorKind::MissingDigits
            | ErrorKind::MissingIdentifier(_) => true,
            _ => false,
        }
    }
}

impl ErrorKind {
    /// What went wrong, in words.
    pub open spec fn description_text(self) -> Seq<char> {
        match self {
            ErrorKind::UnexpectedSymbol(symbol) => "unexpected symbol '"@.push(symbol) + "'"@,
            ErrorKind::Expected { expected, found } => "expected '"@.push(expected) + "' got '"@
                + match found {
                Some(c) => seq![c],
                None => Seq::<char>::empty(),
            } + "'"@,
            ErrorKind::UnterminatedString => "unterminated string"@,
            ErrorKind::MissingDigits => "expect digits after '.'"@,
            ErrorKind::MissingIdentifier(sigil) => "expected identifier after '"@.push(sigil)
                + "'"@,
            ErrorKind::UnexpectedToken(token) => "unexpected token "@ + token.name_text(),
            ErrorKind::UnexpectedEnd => "unexpected end of input"@,
            ErrorKind::NoInfixRule(token) => "no infix rule for token "@ + token.name_text(),
            ErrorKind::IntegerOverflow => "integer literal out of range"@,
        }
    }

    /// Appends the description of the error to `out`.
    pub fn describe(self, out: &mut String)
        ensures
            final(out)@ == old(out)@ + self.description_text(),
    {
        match self {
            ErrorKind::UnexpectedSymbol(symbol) => {
                out.append("unexpected symbol '");
                out.push(symbol);
                out.append("'");
            },
            ErrorKind::Expected { expected, found } => {
                out.append("expected '");
                out.push(expected);
                out.append("' got '");
                match found {
                    Some(c) => out.push(c),
                    None => {},
                }
                out.append("'");
            },
            ErrorKind::UnterminatedString => {
                out.append("unterminated string");
            },
            ErrorKind::MissingDigits => {
                out.append("expect digits after '.'");
            },
            ErrorKind::MissingIdentifier(sigil) => {
                out.append("expected identifier after '");
                out.push(sigil);
                out.append("'");
            },
            ErrorKind::UnexpectedToken(token) => {
                out.append("unexpected token ");
                out.append(token.name());
            },
            ErrorKind::UnexpectedEnd => {
                out.append("unexpected end of input");
            },
            ErrorKind::NoInfixRule(token) => {
                out.append("no infix rule for token ");
                out.append(token.name());
            },
            ErrorKind::IntegerOverflow => {
                out.append("integer literal out of range");
            },
        }
        proof {
            assert(final(out)@ =~= old(out)@ + self.description_text());
        }
    }
}

impl SyntaxError {
    /// The report of the error: what went wrong, and the line and row.
    pub open spec fn message_text(self) -> Seq<char> {
        "Error: "@ + self.kind.description_text() + " at line: "@ + decimal_text(self.line as nat)
            + ", row: "@ + decimal_text(self.row as nat) + "."@
    }

    /// The report of the error: what went wrong, and the line and row.
    pub fn message(&self) -> (text: String)
        ensures
            text@ == self.message_text(),
    {
        let mut text = String::new();
        text.append("Error: ");
        self.kind.describe(&mut text);
        text.append(" at line: ");
        push_decimal(&mut text, self.line as u64);
        text.append(", row: ");
        push_decimal(&mut text, self.row as u64);
        text.append(".");
        proof {
            assert(text@ =~= self.message_text());
        }
        text
    }
}

/// The error of kind `kind` found when the first `read` characters of `text`
/// had been read.
pub open spec fn located(text: Seq<char>, kind: ErrorKind, read: int) -> SyntaxError {
    SyntaxError {
        kind,
        line: line_of(text, read - 1) as usize,
        row: row_of(text, read - 1) as usize,
    }
}

} // verus!
