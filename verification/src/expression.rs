//! Expressions: the trees that the parser builds.

use crate::decimal::{integer_text, push_integer};
use vstd::prelude::*;
use vstd::string::StringExecFns;

verus! {

/// An operator that takes two operands.
#[derive(Debug, PartialEq, Eq, Clone, Copy, Hash, Structural)]
pub enum Operator {
    Add,
    Sub,
    Mul,
    Div,
    Rem,
    Pow,
    Mod,
    Equal,
    NotEqual,
    Less,
    Greater,
    LessEqual,
    GreaterEqual,
    And,
    Or,
    Xor,
    Shl,
    Shr,
    BitAnd,
    BitOr,
    BitXor,
}

impl Operator {
    /// How the operator is written.
    pub open spec fn spelling(self) -> Seq<char> {
        match self {
            Operator::Add => "+"@,
            Operator::Sub => "-"@,
            Operator::Mul => "*"@,
            Operator::Div => "/"@,
            Operator::Rem => "%"@,
            Operator::Pow => "**"@,
            Operator::Mod => "mod"@,
            Operator::Equal => "=="@,
            Operator::NotEqual => "!="@,
            Operator::Less => "<"@,
            Operator::Greater => ">"@,
            Operator::LessEqual => "<="@,
            Operator::GreaterEqual => ">="@,
            Operator::And => "and"@,
            Operator::Or => "or"@,
            Operator::Xor => "xor"@,
            Operator::Shl => "<<"@,
            Operator::Shr => ">>"@,
            Operator::BitAnd => "&"@,
            Operator::BitOr => "|"@,
            Operator::BitXor => "^"@,
        }
    }

    /// How tightly the operator binds its operands: the higher, the tighter.
    pub open spec fn level(self) -> u8 {
        match self {
            Operator::Or | Operator::Xor => 2,
            Operator::And => 3,
            Operator::Equal | Operator::NotEqual => 4,
            Operator::Less | Operator::Greater | Operator::LessEqual | Operator::GreaterEqual => 5,
            Operator::Add | Operator::Sub => 6,
            Operator::Mul | Operator::Div | Operator::Rem | Operator::Pow | Operator::Mod
            | Operator::Shl | Operator::Shr | Operator::BitAnd | Operator::BitOr
            | Operator::BitXor => 7,
        }
    }

    /// How the operator is written.
    pub fn symbol(self) -> (text: &'static str)
        ensures
            text@ == self.spelling(),
    {
        match self {
            Operator::Add => "+",
            Operator::Sub => "-",
            Operator::Mul => "*",
            Operator::Div => "/",
            Operator::Rem => "%",
            Operator::Pow => "**",
            Operator::Mod => "mod",
            Operator::Equal => "==",
            Operator::NotEqual => "!=",
            Operator::Less => "<",
            Operator::Greater => ">",
            Operator::LessEqual => "<=",
            Operator::GreaterEqual => ">=",
            Operator::And => "and",
            Operator::Or => "or",
            Operator::Xor => "xor",
            Operator::Shl => "<<",
            Operator::Shr => ">>",
            Operator::BitAnd => "&",
            Operator::BitOr => "|",
            Operator::BitXor => "^",
        }
    }
}

/// An expression.  Names are slices of the source that was parsed; every
/// node owns its operands.
#[derive(Debug, PartialEq, Eq)]
pub enum Expression<'a> {
    /// An integer literal.
    Literal(i64),
    /// A name.
    Identifier(&'a str),
    /// The assignment of `value` to the variable `name`.
    Assign { name: &'a str, value: Box<Expression<'a>> },
    /// The operator applied to `left` and `right`.
    BinaryOp { operator: Operator, left: Box<Expression<'a>>, right: Box<Expression<'a>> },
    /// No expression: what parsing yields where the source holds none.
    Empty,
}

/// An expression as a mathematical value: names are sequences of characters
/// and literals are integers.
pub enum Ast {
    Literal(int),
    Identifier(Seq<char>),
    Assign { name: Seq<char>, value: Box<Ast> },
    BinaryOp { operator: Operator, left: Box<Ast>, right: Box<Ast> },
    Empty,
}

impl Ast {
    /// The expression in prefix notation: `(+ a b)` for the sum of `a` and
    /// `b`.
    pub open spec fn rendered(self) -> Seq<char>
        decreases self,
    {
        match self {
            Ast::Literal(value) => integer_text(value),
            Ast::Identifier(name) => name,
            Ast::Assign { name, value } => "(= "@ + name + " "@ + value.rendered() + ")"@,
            Ast::BinaryOp { operator, left, right } => "("@ + operator.spelling() + " "@
                + left.rendered() + " "@ + right.rendered() + ")"@,
            Ast::Empty => "XXX"@,
        }
    }
}

impl<'a> Expression<'a> {
    /// The expression as a mathematical value.
    pub open spec fn model(&self) -> Ast
        decreases self,
    {
        match self {
            Expression::Literal(value) => Ast::Literal(*value as int),
            Expression::Identifier(name) => Ast::Identifier(name@),
            Expression::Assign { name, value } => Ast::Assign {
                name: name@,
                value: Box::new(value.model()),
            },
            Expression::BinaryOp { operator, left, right } => Ast::BinaryOp {
                operator: *operator,
                left: Box::new(left.model()),
                right: Box::new(right.model()),
            },
            Expression::Empty => Ast::Empty,
        }
    }
}

impl<'a> View for Expression<'a> {
    type V = Ast;

    open spec fn view(&self) -> Ast {
        self.model()
    }
}

impl<'a> Expression<'a> {
    /// Appends the expression, in prefix notation, to `out`.
    pub fn render_into(&self, out: &mut String)
        ensures
            final(out)@ == old(out)@ + self@.rendered(),
        decreases self,
    {
        match self {
            Expression::Literal(value) => {
                push_integer(out, *value);
            },
            Expression::Identifier(name) => {
                out.append(name);
            },
            Expression::Assign { name, value } => {
                out.append("(= ");
                out.append(name);
                out.append(" ");
                value.render_into(out);
                out.append(")");
                proof {
                    assert(final(out)@ =~= old(out)@ + self@.rendered());
                }
            },
            Expression::BinaryOp { operator, left, right } => {
                out.append("(");
                out.append(operator.symbol());
                out.append(" ");
                left.render_into(out);
                out.append(" ");
                right.render_into(out);
                out.append(")");
                proof {
                    assert(final(out)@ =~= old(out)@ + self@.rendered());
                }
            },
            Expression::Empty => {
                out.append("XXX");
            },
        }
    }

    /// The expression in prefix notation.
    pub fn render(&self) -> (text: String)
        ensures
            text@ == self@.rendered(),
    {
        let mut text = String::new();
        self.render_into(&mut text);
        proof {
            assert(Seq::<char>::empty() + self@.rendered() =~= self@.rendered());
        }
        text
    }
}

} // verus!
