//! The kinds of token that the lexer produces.

use vstd::prelude::*;

verus! {

/// The kind of a token.  A token carries no text of its own: the lexer that
/// produced it knows where in the source it lies.
#[derive(Debug, PartialEq, Eq, Clone, Copy, Hash, Structural)]
pub enum Token {
    /// Stands for "no token"; the lexer never produces it.
    Illegal,
    // literals
    Int,
    Float,
    String,
    Char,
    Atom,
    Builtin,
    Identifier,
    // separators
    LeftParen,
    RightParen,
    LeftBrace,
    RightBrace,
    LeftBracket,
    RightBracket,
    Semicolon,
    Comma,
    Dot,
    // unary operators
    BitNot,
    Not,
    // binary operators
    Minus,
    Assign,
    Plus,
    Star,
    Pow,
    Slash,
    Reminder,
    Equal,
    NotEqual,
    And,
    Or,
    Xor,
    BitAnd,
    BitOr,
    BitXor,
    Shl,
    Shr,
    Less,
    LessEqual,
    Greater,
    GreaterEqual,
    Mod,
    // keywords
    If,
    Else,
    Fn,
    While,
    For,
}

impl Token {
    /// How a token of this kind is written, where all tokens of the kind are
    /// written alike.
    pub open spec fn spelling(self) -> Option<Seq<char>> {
        match self {
            Token::Plus => Some("+"@),
            Token::Minus => Some("-"@),
            Token::Star => Some("*"@),
            Token::Slash => Some("/"@),
            Token::Reminder => Some("%"@),
            Token::Assign => Some("="@),
            Token::Less => Some("<"@),
            Token::Greater => Some(">"@),
            Token::Not => Some("!"@),
            Token::BitNot => Some("~"@),
            Token::BitAnd => Some("&"@),
            Token::BitOr => Some("|"@),
            Token::BitXor => Some("^"@),
            Token::LeftParen => Some("("@),
            Token::RightParen => Some(")"@),
            Token::LeftBrace => Some("{"@),
            Token::RightBrace => Some("}"@),
            Token::LeftBracket => Some("["@),
            Token::RightBracket => Some("]"@),
            Token::Semicolon => Some(";"@),
            Token::Comma => Some(","@),
            Token::Dot => Some("."@),
            Token::Pow => Some("**"@),
            Token::Equal => Some("=="@),
            Token::NotEqual => Some("!="@),
            Token::LessEqual => Some("<="@),
            Token::GreaterEqual => Some(">="@),
            Token::Shl => Some("<<"@),
            Token::Shr => Some(">>"@),
            Token::Fn => Some("fn"@),
            Token::Mod => Some("mod"@),
            Token::And => Some("and"@),
            Token::Or => Some("or"@),
            Token::Xor => Some("xor"@),
            Token::While => Some("while"@),
            Token::For => Some("for"@),
            Token::If => Some("if"@),
            Token::Else => Some("else"@),
            _ => None,
        }
    }

    /// The name of the kind.
    pub open spec fn name_text(self) -> Seq<char> {
        match self {
            Token::Illegal => "Illegal"@,
            Token::Int => "Int"@,
            Token::Float => "Float"@,
            Token::String => "String"@,
            Token::Char => "Char"@,
            Token::Atom => "Atom"@,
            Token::Builtin => "Builtin"@,
            Token::Identifier => "Identifier"@,
            Token::LeftParen => "LeftParen"@,
            Token::RightParen => "RightParen"@,
            Token::LeftBrace => "LeftBrace"@,
            Token::RightBrace => "RightBrace"@,
            Token::LeftBracket => "LeftBracket"@,
            Token::RightBracket => "RightBracket"@,
            Token::Semicolon => "Semicolon"@,
            Token::Comma => "Comma"@,
            Token::Dot => "Dot"@,
            Token::BitNot => "BitNot"@,
            Token::Not => "Not"@,
            Token::Minus => "Minus"@,
            Token::Assign => "Assign"@,
            Token::Plus => "Plus"@,
            Token::Star => "Star"@,
            Token::Pow => "Pow"@,
            Token::Slash => "Slash"@,
            Token::Reminder => "Reminder"@,
            Token::Equal => "Equal"@,
            Token::NotEqual => "NotEqual"@,
            Token::And => "And"@,
            Token::Or => "Or"@,
            Token::Xor => "Xor"@,
            Token::BitAnd => "BitAnd"@,
            Token::BitOr => "BitOr"@,
            Token::BitXor => "BitXor"@,
            Token::Shl => "Shl"@,
            Token::Shr => "Shr"@,
            Token::Less => "Less"@,
            Token::LessEqual => "LessEqual"@,
            Token::Greater => "Greater"@,
            Token::GreaterEqual => "GreaterEqual"@,
            Token::Mod => "Mod"@,
            Token::If => "If"@,
            Token::Else => "Else"@,
            Token::Fn => "Fn"@,
            Token::While => "While"@,
            Token::For => "For"@,
        }
    }

    /// The name of the kind.
    pub fn name(self) -> (text: &'static str)
        ensures
            text@ == self.name_text(),
    {
        match self {
            Token::Illegal => "Illegal",
            Token::Int => "Int",
            Token::Float => "Float",
            Token::String => "String",
            Token::Char => "Char",
            Token::Atom => "Atom",
            Token::Builtin => "Builtin",
            Token::Identifier => "Identifier",
            Token::LeftParen => "LeftParen",
            Token::RightParen => "RightParen",
            Token::LeftBrace => "LeftBrace",
            Token::RightBrace => "RightBrace",
            Token::LeftBracket => "LeftBracket",
            Token::RightBracket => "RightBracket",
            Token::Semicolon => "Semicolon",
            Token::Comma => "Comma",
            Token::Dot => "Dot",
            Token::BitNot => "BitNot",
            Token::Not => "Not",
            Token::Minus => "Minus",
            Token::Assign => "Assign",
            Token::Plus => "Plus",
            Token::Star => "Star",
            Token::Pow => "Pow",
            Token::Slash => "Slash",
            Token::Reminder => "Reminder",
            Token::Equal => "Equal",
            Token::NotEqual => "NotEqual",
            Token::And => "And",
            Token::Or => "Or",
            Token::Xor => "Xor",
            Token::BitAnd => "BitAnd",
            Token::BitOr => "BitOr",
            Token::BitXor => "BitXor",
            Token::Shl => "Shl",
            Token::Shr => "Shr",
            Token::Less => "Less",
            Token::LessEqual => "LessEqual",
            Token::Greater => "Greater",
            Token::GreaterEqual => "GreaterEqual",
            Token::Mod => "Mod",
            Token::If => "If",
            Token::Else => "Else",
            Token::Fn => "Fn",
            Token::While => "While",
            Token::For => "For",
        }
    }
}

} // verus!
