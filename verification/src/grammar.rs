//! What the parser does, stated over the characters of the source.
//!
//! The parser climbs by precedence.  An expression is a primary, an
//! identifier or an integer literal, followed by any number of operators,
//! each with its right operand.  An operator is taken only if it binds at
//! least as tightly as the caller asks; its right operand is read with a
//! demand one higher than the operator's own precedence, so that operators
//! of equal precedence group to the left.

use crate::decimal::decimal_value;
use crate::error::{located, ErrorKind, SyntaxError};
use crate::expression::{Ast, Operator};
use crate::scan::{lemma_scan_token, lemma_skip_trivia, scan_token, skip_trivia, Scan};
use crate::token::Token;
use vstd::prelude::*;

verus! {

/// The precedence of a token that is no operator.
pub const PREC_NONE: u8 = 0;

pub const PREC_ASSIGNMENT: u8 = 1;

pub const PREC_OR: u8 = 2;

pub const PREC_AND: u8 = 3;

pub const PREC_EQUALITY: u8 = 4;

pub const PREC_COMPARISON: u8 = 5;

pub const PREC_TERM: u8 = 6;

pub const PREC_FACTOR: u8 = 7;

pub const PREC_UNARY: u8 = 8;

pub const PREC_CALL: u8 = 9;

/// The precedence of identifiers and literals: nothing binds more tightly.
pub const PREC_PRIMARY: u8 = 10;

/// How tightly a token binds the operands on its two sides; `PREC_NONE` for
/// a token that cannot stand between two operands.
pub open spec fn precedence(token: Token) -> u8 {
    match token {
        Token::Assign => PREC_ASSIGNMENT,
        Token::Or | Token::Xor => PREC_OR,
        Token::And => PREC_AND,
        Token::Equal | Token::NotEqual => PREC_EQUALITY,
        Token::Less | Token::Greater | Token::LessEqual | Token::GreaterEqual => PREC_COMPARISON,
        Token::Plus | Token::Minus => PREC_TERM,
        Token::Star | Token::Slash | Token::Reminder | Token::Mod | Token::Pow | Token::Shl
        | Token::Shr | Token::BitAnd | Token::BitOr | Token::BitXor => PREC_FACTOR,
        Token::Identifier | Token::Int | Token::Float | Token::String | Token::Char | Token::Atom
        | Token::Builtin => PREC_PRIMARY,
        _ => PREC_NONE,
    }
}

/// The operator that a token denotes between two operands.
pub open spec fn binary_operator(token: Token) -> Option<Operator> {
    match token {
        Token::Plus => Some(Operator::Add),
        Token::Minus => Some(Operator::Sub),
        Token::Star => Some(Operator::Mul),
        Token::Slash => Some(Operator::Div),
        Token::Reminder => Some(Operator::Rem),
        Token::Pow => Some(Operator::Pow),
        Token::Mod => Some(Operator::Mod),
        Token::Equal => Some(Operator::Equal),
        Token::NotEqual => Some(Operator::NotEqual),
        Token::Less => Some(Operator::Less),
        Token::Greater => Some(Operator::Greater),
        Token::LessEqual => Some(Operator::LessEqual),
        Token::GreaterEqual => Some(Operator::GreaterEqual),
        Token::And => Some(Operator::And),
        Token::Or => Some(Operator::Or),
        Token::Xor => Some(Operator::Xor),
        Token::Shl => Some(Operator::Shl),
        Token::Shr => Some(Operator::Shr),
        Token::BitAnd => Some(Operator::BitAnd),
        Token::BitOr => Some(Operator::BitOr),
        Token::BitXor => Some(Operator::BitXor),
        _ => None,
    }
}

/// The expression that the token `op` builds from the operands on its left
/// and right, if it builds one: an assignment from `=` after a name, and
/// from every binary operator its application.
pub open spec fn infix(op: Token, left: Ast, right: Ast) -> Option<Ast> {
    if op == Token::Assign {
        match left {
            Ast::Identifier(name) => Some(Ast::Assign { name, value: Box::new(right) }),
            _ => None,
        }
    } else {
        match binary_operator(op) {
            Some(operator) => Some(
                Ast::BinaryOp { operator, left: Box::new(left), right: Box::new(right) },
            ),
            None => None,
        }
    }
}

/// Whether the token `op` builds an expression from the operand `left` and
/// an operand on its right.
pub open spec fn has_infix_rule(op: Token, left: Ast) -> bool {
    if op == Token::Assign {
        left is Identifier
    } else {
        binary_operator(op) is Some
    }
}

/// The result of parsing, and where the next token to read starts.
pub struct Parsed {
    pub result: Result<Ast, SyntaxError>,
    pub next: int,
}

/// The primary that the token of kind `kind` from `start` to `end` denotes.
pub open spec fn primary(text: Seq<char>, start: int, kind: Token, end: int) -> Result<
    Ast,
    SyntaxError,
> {
    if kind == Token::Identifier {
        Ok(Ast::Identifier(text.subrange(start, end)))
    } else if kind == Token::Int {
        let value = decimal_value(text.subrange(start, end));
        if value <= i64::MAX {
            Ok(Ast::Literal(value))
        } else {
            Err(located(text, ErrorKind::IntegerOverflow, end))
        }
    } else {
        Err(located(text, ErrorKind::UnexpectedToken(kind), end))
    }
}

/// Parses, from `from`, an expression whose operators have precedence `min`
/// at least.
pub open spec fn parse_precedence(text: Seq<char>, from: int, min: int) -> Parsed
    decreases text.len() - from, 1int,
{
    let start = skip_trivia(text, from);
    match scan_token(text, start) {
        Scan::End => Parsed {
            result: Err(located(text, ErrorKind::UnexpectedEnd, start)),
            next: start,
        },
        Scan::Fail { error, end } => Parsed { result: Err(located(text, error, end)), next: start },
        Scan::Token { kind, end } => match primary(text, start, kind, end) {
            Err(error) => Parsed { result: Err(error), next: start },
            Ok(left) => {
                proof {
                    lemma_scan_token(text, start);
                    if 0 <= from <= text.len() {
                        lemma_skip_trivia(text, from);
                    }
                }
                parse_operators(text, left, end, min)
            },
        },
    }
}

/// Parses, from `from`, the operators that follow the operand `left`, each
/// with its right operand, as long as their precedence is `min` at least.
pub open spec fn parse_operators(text: Seq<char>, left: Ast, from: int, min: int) -> Parsed
    decreases text.len() - from, 0int,
{
    let start = skip_trivia(text, from);
    match scan_token(text, start) {
        Scan::End => Parsed { result: Ok(left), next: start },
        Scan::Fail { error, end } => Parsed { result: Err(located(text, error, end)), next: start },
        Scan::Token { kind, end } => {
            if precedence(kind) == PREC_NONE || precedence(kind) < min {
                Parsed { result: Ok(left), next: start }
            } else if !has_infix_rule(kind, left) {
                Parsed {
                    result: Err(located(text, ErrorKind::NoInfixRule(kind), end)),
                    next: start,
                }
            } else {
                proof {
                    lemma_scan_token(text, start);
                    if 0 <= from <= text.len() {
                        lemma_skip_trivia(text, from);
                    }
                }
                let right = parse_precedence(text, end, precedence(kind) + 1);
                match right.result {
                    Err(error) => right,
                    Ok(operand) => {
                        // An operand holds one token at least, so the test never
                        // fails: see `lemma_parse_precedence_advances`.
                        if start < right.next <= text.len() {
                            parse_operators(
                                text,
                                infix(kind, left, operand).unwrap(),
                                right.next,
                                min,
                            )
                        } else {
                            right
                        }
                    },
                }
            }
        },
    }
}

/// Parses the expression that starts at `from`.  Where no token is left the
/// result is the empty expression.
pub open spec fn parse_expression(text: Seq<char>, from: int) -> Parsed {
    let start = skip_trivia(text, from);
    if scan_token(text, start) is End {
        Parsed { result: Ok(Ast::Empty), next: start }
    } else {
        parse_precedence(text, from, PREC_ASSIGNMENT as int)
    }
}

/// Parses the expression that `text` holds.
pub open spec fn parse_text(text: Seq<char>) -> Result<Ast, SyntaxError> {
    parse_expression(text, 0).result
}

/// Parsing an expression never moves backward, and an expression holds one
/// token at least.
pub proof fn lemma_parse_precedence_advances(text: Seq<char>, from: int, min: int)
    requires
        0 <= from <= text.len(),
    ensures
        skip_trivia(text, from) <= parse_precedence(text, from, min).next <= text.len(),
        parse_precedence(text, from, min).result is Ok ==> skip_trivia(text, from)
            < parse_precedence(text, from, min).next,
    decreases text.len() - from, 1int,
{
    let start = skip_trivia(text, from);
    lemma_skip_trivia(text, from);
    lemma_scan_token(text, start);
    if let Scan::Token { kind, end } = scan_token(text, start) {
        if let Ok(left) = primary(text, start, kind, end) {
            lemma_parse_operators_advances(text, left, end, min);
            lemma_skip_trivia(text, end);
        }
    }
}

/// Reading the operators after an operand never moves backward.
pub proof fn lemma_parse_operators_advances(text: Seq<char>, left: Ast, from: int, min: int)
    requires
        0 <= from <= text.len(),
    ensures
        skip_trivia(text, from) <= parse_operators(text, left, from, min).next <= text.len(),
    decreases text.len() - from, 0int,
{
    let start = skip_trivia(text, from);
    lemma_skip_trivia(text, from);
    lemma_scan_token(text, start);
    if let Scan::Token { kind, end } = scan_token(text, start) {
        if !(precedence(kind) == PREC_NONE || precedence(kind) < min) && has_infix_rule(
            kind,
            left,
        ) {
            let right = parse_precedence(text, end, precedence(kind) + 1);
            lemma_parse_precedence_advances(text, end, precedence(kind) + 1);
            lemma_skip_trivia(text, end);
            if let Ok(operand) = right.result {
                lemma_parse_operators_advances(
                    text,
                    infix(kind, left, operand).unwrap(),
                    right.next,
                    min,
                );
                lemma_skip_trivia(text, right.next);
            }
        }
    }
}

/// Parsing from the end of a token and from the start of the next token
/// give the same.
pub proof fn lemma_parse_from_token_start(text: Seq<char>, left: Ast, from: int, min: int)
    requires
        0 <= from <= text.len(),
    ensures
        parse_precedence(text, skip_trivia(text, from), min) == parse_precedence(text, from, min),
        parse_operators(text, left, skip_trivia(text, from), min) == parse_operators(
            text,
            left,
            from,
            min,
        ),
        parse_expression(text, skip_trivia(text, from)) == parse_expression(text, from),
{
    lemma_skip_trivia(text, from);
}

} // verus!
