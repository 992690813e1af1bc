//! The parser: builds an expression from the tokens of a lexer.

use crate::decimal::{lemma_decimal_value_nonnegative, parse_decimal};
use crate::error::{located, ErrorKind, SyntaxError};
use crate::expression::{Ast, Expression, Operator};
use crate::grammar::{
    binary_operator, has_infix_rule, infix, lemma_parse_from_token_start, parse_expression,
    parse_operators, parse_precedence, precedence, primary, PREC_AND, PREC_ASSIGNMENT,
    PREC_COMPARISON, PREC_EQUALITY, PREC_FACTOR, PREC_NONE, PREC_OR, PREC_PRIMARY, PREC_TERM,
};
use crate::lexer::Lexer;
use crate::scan::{
    lemma_integer_token, lemma_scan_token, lemma_skip_trivia, scan_token, skip_trivia, Scan,
};
use crate::token::Token;
use vstd::prelude::*;

verus! {

/// The mathematical value of a parser's result.
pub open spec fn model_of(result: Result<Expression<'_>, SyntaxError>) -> Result<Ast, SyntaxError> {
    match result {
        Ok(expression) => Ok(expression@),
        Err(error) => Err(error),
    }
}

/// How tightly `token` binds the operands on its two sides.
pub fn get_precedence(token: Token) -> (level: u8)
    ensures
        level == precedence(token),
{
    match token {
        Token::Assign => PREC_ASSIGNMENT,
        Token::Plus => PREC_TERM,
        Token::Minus => PREC_TERM,
        Token::Identifier => PREC_PRIMARY,
        Token::Int => PREC_PRIMARY,
        Token::Float => PREC_PRIMARY,
        Token::String => PREC_PRIMARY,
        Token::Char => PREC_PRIMARY,
        Token::Atom => PREC_PRIMARY,
        Token::Builtin => PREC_PRIMARY,
        Token::Star => PREC_FACTOR,
        Token::Slash => PREC_FACTOR,
        Token::Reminder => PREC_FACTOR,
        Token::Mod => PREC_FACTOR,
        Token::Pow => PREC_FACTOR,
        Token::Equal => PREC_EQUALITY,
        Token::NotEqual => PREC_EQUALITY,
        Token::Less => PREC_COMPARISON,
        Token::Greater => PREC_COMPARISON,
        Token::LessEqual => PREC_COMPARISON,
        Token::GreaterEqual => PREC_COMPARISON,
        Token::And => PREC_AND,
        Token::Or => PREC_OR,
        Token::Xor => PREC_OR,
        Token::Shl => PREC_FACTOR,
        Token::Shr => PREC_FACTOR,
        Token::BitAnd => PREC_FACTOR,
        Token::BitOr => PREC_FACTOR,
        Token::BitXor => PREC_FACTOR,
        _ => PREC_NONE,
    }
}

/// The operator that `token` denotes between two operands.
pub fn get_operator(token: Token) -> (operator: Option<Operator>)
    ensures
        operator == binary_operator(token),
{
    match token {
        Token::Plus => Some(Operator::Add),
        Token::Minus => Some(Operator::Sub),
        Token::Star => Some(Operator::Mul),
        Token::Pow => Some(Operator::Pow),
        Token::Slash => Some(Operator::Div),
        Token::Reminder => Some(Operator::Rem),
        Token::Mod => Some(Operator::Mod),
        Token::Equal => Some(Operator::Equal),
        Token::NotEqual => Some(Operator::NotEqual),
        Token::And => Some(Operator::And),
        Token::Or => Some(Operator::Or),
        Token::Xor => Some(Operator::Xor),
        Token::BitAnd => Some(Operator::BitAnd),
        Token::BitOr => Some(Operator::BitOr),
        Token::BitXor => Some(Operator::BitXor),
        Token::Shl => Some(Operator::Shl),
        Token::Shr => Some(Operator::Shr),
        Token::Less => Some(Operator::Less),
        Token::LessEqual => Some(Operator::LessEqual),
        Token::Greater => Some(Operator::Greater),
        Token::GreaterEqual => Some(Operator::GreaterEqual),
        _ => None,
    }
}

/// A parser over a source text, with one token of lookahead.
pub struct Parser<'a> {
    lexer: Lexer<'a>,
    /// The token to read next; the last token where `at_end` holds.
    curr_token: Token,
    /// What `curr_token` was before the last move.
    prev_token: Token,
    /// The lexer has no further token: the source has ended or is malformed.
    at_end: bool,
}

impl<'a> Parser<'a> {
    #[verifier::type_invariant]
    spec fn well_formed(&self) -> bool {
        let text = self.lexer.text();
        let start = self.lexer.start();
        &&& 0 <= start <= self.lexer.cursor() <= text.len()
        &&& skip_trivia(text, start) == start
        &&& self.lexer.reports(
            if self.at_end {
                None
            } else {
                Some(self.curr_token)
            },
            scan_token(text, start),
        )
    }

    /// The characters of the source.
    pub closed spec fn text(&self) -> Seq<char> {
        self.lexer.text()
    }

    /// The index at which the token that the parser will read next starts;
    /// the length of the text where none is left.
    pub closed spec fn position(&self) -> int {
        self.lexer.start()
    }

    /// The kind of the token that the parser will read next; while there is
    /// one, that is the token which starts at `position`.
    spec fn current(&self) -> Token {
        self.curr_token
    }

    /// The kind of the token that was current before the last move.
    spec fn previous(&self) -> Token {
        self.prev_token
    }

    /// A parser at the start of `source`.
    pub fn new(source: &'a str) -> (parser: Self)
        ensures
            parser.text() == source@,
            parser.position() == skip_trivia(source@, 0),
            parse_expression(source@, parser.position()) == parse_expression(source@, 0),
    {
        let mut lexer = Lexer::new(source);
        let first = lexer.next();
        proof {
            lemma_skip_trivia(source@, 0);
        }
        match first {
            Some(token) => Parser {
                lexer,
                curr_token: token,
                prev_token: Token::Illegal,
                at_end: false,
            },
            None => Parser {
                lexer,
                curr_token: Token::Illegal,
                prev_token: Token::Illegal,
                at_end: true,
            },
        }
    }

    /// Moves to the next token.  At the end of the tokens nothing changes.
    fn advance(&mut self)
        ensures
            final(self).text() == old(self).text(),
            old(self).position() <= final(self).position() <= final(self).text().len(),
            final(self).position() == (match scan_token(old(self).text(), old(self).position()) {
                Scan::Token { kind, end } => skip_trivia(old(self).text(), end),
                _ => old(self).position(),
            }),
            final(self).previous() == old(self).current(),
            final(self).current() == (match scan_token(
                final(self).text(),
                final(self).position(),
            ) {
                Scan::Token { kind, end } => kind,
                _ => old(self).current(),
            }),
    {
        proof {
            use_type_invariant(&*self);
            lemma_scan_token(self.text(), self.position());
        }
        let mut lexer = self.lexer;
        let current = self.curr_token;
        let next = lexer.next();
        proof {
            lemma_skip_trivia(self.text(), self.lexer.cursor());
        }
        match next {
            Some(token) => {
                *self = Parser { lexer, curr_token: token, prev_token: current, at_end: false };
            },
            None => {
                *self = Parser { lexer, curr_token: current, prev_token: current, at_end: true };
            },
        }
    }

    /// The identifier that the current token, an identifier, denotes.
    fn identifier(&self) -> (expression: Expression<'a>)
        requires
            scan_token(self.text(), self.position()) matches Scan::Token { kind, .. } && kind
                == Token::Identifier,
        ensures
            scan_token(self.text(), self.position()) matches Scan::Token { kind, end } && primary(
                self.text(),
                self.position(),
                kind,
                end,
            ) == Ok::<Ast, SyntaxError>(expression@),
    {
        proof {
            use_type_invariant(self);
        }
        Expression::Identifier(self.lexer.get_lexeme())
    }

    /// The literal that the current token, an integer, denotes; an error
    /// where the number is too large.
    fn integer(&self) -> (result: Result<Expression<'a>, SyntaxError>)
        requires
            scan_token(self.text(), self.position()) matches Scan::Token { kind, .. } && kind
                == Token::Int,
        ensures
            scan_token(self.text(), self.position()) matches Scan::Token { kind, end } && primary(
                self.text(),
                self.position(),
                kind,
                end,
            ) == model_of(result),
    {
        proof {
            use_type_invariant(self);
            lemma_integer_token(self.text(), self.position());
            lemma_decimal_value_nonnegative(
                self.text().subrange(self.position(), self.lexer.cursor()),
            );
        }
        match parse_decimal(self.lexer.get_lexeme()) {
            Some(value) => Ok(Expression::Literal(value)),
            None => Err(self.lexer.error_here(ErrorKind::IntegerOverflow)),
        }
    }

    /// Reads the operator `op`, the current token, and its right operand,
    /// and builds the expression that `op` makes of `a` and that operand.
    fn run_infix(&mut self, a: Expression<'a>, op: Token) -> (result: Result<
        Expression<'a>,
        SyntaxError,
    >)
        requires
            scan_token(old(self).text(), old(self).position()) matches Scan::Token { kind, .. }
                && kind == op,
        ensures
            final(self).text() == old(self).text(),
            old(self).position() <= final(self).position() <= final(self).text().len(),
            result is Ok ==> old(self).position() < final(self).position(),
            scan_token(old(self).text(), old(self).position()) matches Scan::Token { kind, end }
                && if !has_infix_rule(op, a@) {
                &&& result == Err::<Expression<'a>, SyntaxError>(
                    located(old(self).text(), ErrorKind::NoInfixRule(op), end),
                )
                &&& final(self).position() == old(self).position()
            } else {
                let right = parse_precedence(old(self).text(), end, precedence(op) + 1);
                &&& final(self).position() == right.next
                &&& match right.result {
                    Ok(operand) => model_of(result) == Ok::<Ast, SyntaxError>(
                        infix(op, a@, operand).unwrap(),
                    ),
                    Err(error) => model_of(result) == Err::<Ast, SyntaxError>(error),
                }
            },
        decreases old(self).text().len() - old(self).position(), 0int,
    {
        proof {
            use_type_invariant(&*self);
            lemma_scan_token(self.text(), self.position());
        }
        let ghost text = self.text();
        let ghost end = self.lexer.cursor();
        match op {
            Token::Assign => {
                let name = match a {
                    Expression::Identifier(name) => name,
                    _ => {
                        return Err(self.lexer.error_here(ErrorKind::NoInfixRule(op)));
                    },
                };
                self.advance();
                proof {
                    lemma_skip_trivia(text, end);
                    lemma_parse_from_token_start(text, a@, end, PREC_ASSIGNMENT + 1);
                }
                let value = self.parse_precedence(PREC_ASSIGNMENT + 1)?;
                Ok(Expression::Assign { name, value: Box::new(value) })
            },
            _ => {
                let operator = match get_operator(op) {
                    Some(operator) => operator,
                    None => {
                        return Err(self.lexer.error_here(ErrorKind::NoInfixRule(op)));
                    },
                };
                let level = get_precedence(op);
                self.advance();
                proof {
                    lemma_skip_trivia(text, end);
                    lemma_parse_from_token_start(text, a@, end, level + 1);
                }
                let right = self.parse_precedence(level + 1)?;
                Ok(Expression::BinaryOp { operator, left: Box::new(a), right: Box::new(right) })
            },
        }
    }

    /// Parses an expression whose operators have precedence `precedence` at
    /// least.
    fn parse_precedence(&mut self, precedence: u8) -> (result: Result<Expression<'a>, SyntaxError>)
        ensures
            final(self).text() == old(self).text(),
            old(self).position() <= final(self).position() <= final(self).text().len(),
            result is Ok ==> old(self).position() < final(self).position(),
            model_of(result) == parse_precedence(
                old(self).text(),
                old(self).position(),
                precedence as int,
            ).result,
            final(self).position() == parse_precedence(
                old(self).text(),
                old(self).position(),
                precedence as int,
            ).next,
        decreases old(self).text().len() - old(self).position(), 1int,
    {
        proof {
            use_type_invariant(&*self);
            lemma_scan_token(self.text(), self.position());
        }
        let ghost text = self.text();
        let ghost from = self.position();
        let ghost end = self.lexer.cursor();
        if self.at_end {
            return Err(
                match self.lexer.error() {
                    Some(error) => error,
                    None => self.lexer.error_here(ErrorKind::UnexpectedEnd),
                },
            );
        }
        let mut expression = match self.curr_token {
            Token::Identifier => self.identifier(),
            Token::Int => self.integer()?,
            _ => {
                return Err(self.lexer.error_here(ErrorKind::UnexpectedToken(self.curr_token)));
            },
        };
        let ghost left = expression@;
        self.advance();
        proof {
            lemma_skip_trivia(text, end);
            lemma_parse_from_token_start(text, left, end, precedence as int);
        }
        loop
            invariant
                text == old(self).text(),
                from == old(self).position(),
                self.text() == text,
                from < self.position() <= text.len(),
                parse_operators(text, expression@, self.position(), precedence as int)
                    == parse_operators(text, left, end, precedence as int),
                parse_precedence(text, from, precedence as int) == parse_operators(
                    text,
                    left,
                    end,
                    precedence as int,
                ),
            decreases text.len() - self.position(),
        {
            proof {
                use_type_invariant(&*self);
                lemma_scan_token(text, self.position());
            }
            if self.at_end {
                return match self.lexer.error() {
                    Some(error) => Err(error),
                    None => Ok(expression),
                };
            }
            let op = self.curr_token;
            let level = get_precedence(op);
            if level == PREC_NONE || level < precedence {
                return Ok(expression);
            }
            expression = self.run_infix(expression, op)?;
        }
    }

    /// Parses the expression that starts at the current token.
    ///
    /// Where no token is left, the result is the empty expression.  Tokens
    /// after the expression that continue no expression are left unread.
    pub fn parse(&mut self) -> (result: Result<Expression<'a>, SyntaxError>)
        ensures
            final(self).text() == old(self).text(),
            model_of(result) == parse_expression(old(self).text(), old(self).position()).result,
            final(self).position() == parse_expression(old(self).text(), old(self).position()).next,
    {
        proof {
            use_type_invariant(&*self);
        }
        if self.at_end && !self.lexer.had_error() {
            return Ok(Expression::Empty);
        }
        self.parse_precedence(PREC_ASSIGNMENT)
    }
}

} // verus!
