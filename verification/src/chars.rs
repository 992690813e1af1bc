//! Character classes of the language.

use vstd::prelude::*;

verus! {

/// `c` is one of the ten ASCII digits.
pub open spec fn digit(c: char) -> bool {
    '0' <= c <= '9'
}

/// `c` is an ASCII letter.
pub open spec fn letter(c: char) -> bool {
    ('a' <= c <= 'z') || ('A' <= c <= 'Z')
}

/// `c` may begin an identifier: a letter or an underscore.
pub open spec fn identifier_start(c: char) -> bool {
    letter(c) || c == '_'
}

/// `c` may continue an identifier: a letter, a digit or an underscore.
pub open spec fn identifier_part(c: char) -> bool {
    identifier_start(c) || digit(c)
}

/// `c` is white space: a character with the Unicode property `White_Space`.
pub open spec fn whitespace(c: char) -> bool {
    let u = c as u32;
    ||| 0x09 <= u <= 0x0d
    ||| u == 0x20
    ||| u == 0x85
    ||| u == 0xa0
    ||| u == 0x1680
    ||| 0x2000 <= u <= 0x200a
    ||| u == 0x2028
    ||| u == 0x2029
    ||| u == 0x202f
    ||| u == 0x205f
    ||| u == 0x3000
}

/// A class of characters of which a token may hold a run.
#[derive(Debug, PartialEq, Eq, Clone, Copy)]
pub enum Class {
    /// The digits.
    Digit,
    /// The characters that continue an identifier.
    IdentifierPart,
    /// The characters that continue a line: all but the line break.
    WithinLine,
    /// The characters that continue a string literal: all but the double
    /// quote.
    WithinString,
}

impl Class {
    /// `c` belongs to this class.
    pub open spec fn has(self, c: char) -> bool {
        match self {
            Class::Digit => digit(c),
            Class::IdentifierPart => identifier_part(c),
            Class::WithinLine => c != '\n',
            Class::WithinString => c != '"',
        }
    }

    /// Whether `c` belongs to this class.
    pub fn contains(self, c: char) -> (r: bool)
        ensures
            r == self.has(c),
    {
        match self {
            Class::Digit => is_digit(c),
            Class::IdentifierPart => is_identifier_part(c),
            Class::WithinLine => c != '\n',
            Class::WithinString => c != '"',
        }
    }
}

#[verifier::when_used_as_spec(digit)]
pub fn is_digit(c: char) -> (r: bool)
    ensures
        r == digit(c),
{
    '0' <= c && c <= '9'
}

#[verifier::when_used_as_spec(identifier_start)]
pub fn is_identifier(c: char) -> (r: bool)
    ensures
        r == identifier_start(c),
{
    ('a' <= c && c <= 'z') || ('A' <= c && c <= 'Z') || c == '_'
}

#[verifier::when_used_as_spec(identifier_part)]
pub fn is_identifier_part(c: char) -> (r: bool)
    ensures
        r == identifier_part(c),
{
    is_identifier(c) || is_digit(c)
}

#[verifier::when_used_as_spec(whitespace)]
pub fn is_whitespace(c: char) -> (r: bool)
    ensures
        r == whitespace(c),
{
    let u: u32 = c as u32;
    (0x09 <= u && u <= 0x0d) || u == 0x20 || u == 0x85 || u == 0xa0 || u == 0x1680 || (0x2000 <= u
        && u <= 0x200a) || u == 0x2028 || u == 0x2029 || u == 0x202f || u == 0x205f || u == 0x3000
}

} // verus!
