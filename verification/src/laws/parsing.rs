//! Laws of parsing: what holds of the expression that is read from any text.

use crate::chars::{digit, identifier_part, Class};
use crate::decimal::{
    decimal_text, decimal_value, lemma_decimal_text, lemma_decimal_value_nonnegative,
};
use crate::error::SyntaxError;
use crate::expression::{Ast, Operator};
use crate::grammar::{
    binary_operator, has_infix_rule, infix, lemma_parse_precedence_advances, parse_operators,
    parse_precedence, parse_text, precedence, primary, Parsed, PREC_ASSIGNMENT, PREC_NONE,
    PREC_PRIMARY,
};
use crate::laws::scanning::{is_word, law_lexeme, reveal_keywords};
use crate::scan::{
    keyword, lemma_run_to_end, lemma_scan_token, lemma_skip_trivia, scan_token, skip_trivia, Scan,
};
use crate::token::Token;
use vstd::prelude::*;

verus! {

/// The table of precedences and the table of operators agree: every token
/// that denotes a binary operator has a precedence of its own, above that of
/// no operator and below that of a primary; and the only other token with
/// such a precedence is the assignment.
pub proof fn law_operator_table(token: Token)
    ensures
        binary_operator(token) is Some ==> PREC_NONE < precedence(token) < PREC_PRIMARY,
        PREC_NONE < precedence(token) < PREC_PRIMARY ==> binary_operator(token) is Some || token
            == Token::Assign,
        binary_operator(token) matches Some(operator) ==> token.spelling() == Some(
            operator.spelling(),
        ) && operator.level() == precedence(token),
{
}

/// The text of the empty source holds no token, and parsing it gives the
/// empty expression.
pub proof fn law_empty_text()
    ensures
        skip_trivia(Seq::<char>::empty(), 0) == 0,
        scan_token(Seq::<char>::empty(), 0) is End,
        parse_text(Seq::<char>::empty()) == Ok::<Ast, SyntaxError>(Ast::Empty),
{
}

/// A name that is written out parses to itself: the text of an identifier
/// that is no keyword holds one token, and parsing it gives that identifier.
pub proof fn law_identifier_round_trip(name: Seq<char>)
    requires
        is_word(name),
        keyword(name) is None,
    ensures
        parse_text(Ast::Identifier(name).rendered()) == Ok::<Ast, SyntaxError>(
            Ast::Identifier(name),
        ),
{
    reveal_keywords();
    assert forall|i: int| 1 <= i < name.len() implies Class::IdentifierPart.has(
        #[trigger] name[i],
    ) by {
        assert(identifier_part(name[i]));
    }
    lemma_run_to_end(name, 1, Class::IdentifierPart);
    assert(name.subrange(0, name.len() as int) =~= name);
    assert(skip_trivia(name, 0) == 0);
    assert(scan_token(name, 0) == (Scan::Token {
        kind: Token::Identifier,
        end: name.len() as int,
    }));
    assert(skip_trivia(name, name.len() as int) == name.len());
    assert(scan_token(name, name.len() as int) is End);
}

/// A number that is written out parses to itself: the numeral of an integer
/// from zero to `i64::MAX` holds one token, and parsing it gives that
/// integer.
pub proof fn law_literal_round_trip(value: int)
    requires
        0 <= value <= i64::MAX,
    ensures
        parse_text(Ast::Literal(value).rendered()) == Ok::<Ast, SyntaxError>(Ast::Literal(value)),
{
    let text = decimal_text(value as nat);
    lemma_decimal_text(value as nat);
    assert(digit(text[0]));
    assert forall|i: int| 1 <= i < text.len() implies Class::Digit.has(#[trigger] text[i]) by {
        assert(digit(text[i]));
    }
    lemma_run_to_end(text, 1, Class::Digit);
    assert(text.subrange(0, text.len() as int) =~= text);
    assert(skip_trivia(text, 0) == 0);
    assert(scan_token(text, 0) == (Scan::Token { kind: Token::Int, end: text.len() as int }));
    assert(skip_trivia(text, text.len() as int) == text.len());
    assert(scan_token(text, text.len() as int) is End);
}

/// What comes of reading operators after an operand is that operand, or an
/// expression that an operator built.
proof fn lemma_operators_build(text: Seq<char>, left: Ast, from: int, min: int)
    requires
        0 <= from <= text.len(),
    ensures
        parse_operators(text, left, from, min).result matches Ok(tree) ==> tree == left
            || tree is Assign || tree is BinaryOp,
    decreases text.len() - from,
{
    let start = skip_trivia(text, from);
    if let Scan::Token { kind, end } = scan_token(text, start) {
        if !(precedence(kind) == PREC_NONE || precedence(kind) < min) && has_infix_rule(
            kind,
            left,
        ) {
            lemma_scan_token(text, start);
            if 0 <= from <= text.len() {
                lemma_skip_trivia(text, from);
            }
            let right = parse_precedence(text, end, precedence(kind) + 1);
            lemma_parse_precedence_advances(text, end, precedence(kind) + 1);
            lemma_skip_trivia(text, end);
            if let Ok(operand) = right.result {
                let built = infix(kind, left, operand).unwrap();
                lemma_operators_build(text, built, right.next, min);
            }
        }
    }
}

/// Writing out a parsed identifier or integer and parsing what was written
/// gives the same expression again.
pub proof fn law_primitive_round_trip(text: Seq<char>)
    requires
        parse_text(text) matches Ok(tree) && (tree is Identifier || tree is Literal),
    ensures
        parse_text(parse_text(text).unwrap().rendered()) == parse_text(text),
{
    let tree = parse_text(text).unwrap();
    let start = skip_trivia(text, 0);
    lemma_skip_trivia(text, 0);
    lemma_scan_token(text, start);
    let kind = scan_token(text, start)->Token_kind;
    let end = scan_token(text, start)->Token_end;
    let left = primary(text, start, kind, end).unwrap();
    lemma_operators_build(text, left, end, PREC_ASSIGNMENT as int);
    assert(tree == left);
    law_lexeme(text, start);
    let lexeme = text.subrange(start, end);
    if kind == Token::Identifier {
        law_identifier_round_trip(lexeme);
    } else {
        lemma_decimal_value_nonnegative(lexeme);
        law_literal_round_trip(decimal_value(lexeme));
    }
}

/// An expression ends before a token that is no operator, before an operator
/// that binds less tightly than was asked for, or at the end of the source.
/// So the right operand of an operator, which is read with a demand one
/// above the operator's precedence, never takes in a following operator of
/// the same precedence: operators of equal precedence group to the left.
pub proof fn law_expression_ends_below_demand(text: Seq<char>, from: int, min: int)
    requires
        0 <= from <= text.len(),
        parse_precedence(text, from, min).result is Ok,
    ensures
        match scan_token(text, parse_precedence(text, from, min).next) {
            Scan::Token { kind, end } => precedence(kind) == PREC_NONE || precedence(kind) < min,
            Scan::End => true,
            Scan::Fail { error, end } => false,
        },
    decreases text.len() - from, 1int,
{
    let start = skip_trivia(text, from);
    lemma_skip_trivia(text, from);
    lemma_scan_token(text, start);
    let kind = scan_token(text, start)->Token_kind;
    let end = scan_token(text, start)->Token_end;
    let left = primary(text, start, kind, end).unwrap();
    lemma_operators_end_below_demand(text, left, end, min);
}

/// The operators after an operand end as an expression does.
proof fn lemma_operators_end_below_demand(text: Seq<char>, left: Ast, from: int, min: int)
    requires
        0 <= from <= text.len(),
        parse_operators(text, left, from, min).result is Ok,
    ensures
        match scan_token(text, parse_operators(text, left, from, min).next) {
            Scan::Token { kind, end } => precedence(kind) == PREC_NONE || precedence(kind) < min,
            Scan::End => true,
            Scan::Fail { error, end } => false,
        },
    decreases text.len() - from, 0int,
{
    let start = skip_trivia(text, from);
    lemma_skip_trivia(text, from);
    lemma_scan_token(text, start);
    if let Scan::Token { kind, end } = scan_token(text, start) {
        if !(precedence(kind) == PREC_NONE || precedence(kind) < min) {
            let right = parse_precedence(text, end, precedence(kind) + 1);
            lemma_parse_precedence_advances(text, end, precedence(kind) + 1);
            lemma_skip_trivia(text, end);
            let operand = right.result.unwrap();
            lemma_operators_end_below_demand(
                text,
                infix(kind, left, operand).unwrap(),
                right.next,
                min,
            );
        }
    }
}

/// The outcome of parsing that `tree` was read and the next token starts at
/// `next`.
pub open spec fn read(tree: Ast, next: int) -> Parsed {
    Parsed { result: Ok(tree), next }
}

/// The application of `operator` to `left` and `right`.
pub open spec fn apply(operator: Operator, left: Ast, right: Ast) -> Ast {
    Ast::BinaryOp { operator, left: Box::new(left), right: Box::new(right) }
}

/// Precedence and grouping of two operators between three names.
///
/// Let the source hold, in this order and with any white space and comments
/// between them, a name that ends at `ends[0]`, a binary operator that ends
/// at `ends[1]`, a name that ends at `ends[2]`, a binary operator that ends
/// at `ends[3]`, a name that ends at `ends[4]`, and nothing more.  Where the
/// second operator binds more tightly than the first, it takes the second
/// and third names and the first operator takes the first name and that
/// result; else the first operator takes the first two names and the second
/// operator takes that result and the third name.
pub proof fn law_two_operators(text: Seq<char>, ends: Seq<int>, first: Token, second: Token)
    requires
        ends.len() == 5,
        scan_token(text, skip_trivia(text, 0)) == (Scan::Token {
            kind: Token::Identifier,
            end: ends[0],
        }),
        scan_token(text, skip_trivia(text, ends[0])) == (Scan::Token { kind: first, end: ends[1] }),
        scan_token(text, skip_trivia(text, ends[1])) == (Scan::Token {
            kind: Token::Identifier,
            end: ends[2],
        }),
        scan_token(text, skip_trivia(text, ends[2])) == (Scan::Token {
            kind: second,
            end: ends[3],
        }),
        scan_token(text, skip_trivia(text, ends[3])) == (Scan::Token {
            kind: Token::Identifier,
            end: ends[4],
        }),
        scan_token(text, skip_trivia(text, ends[4])) is End,
        binary_operator(first) is Some,
        binary_operator(second) is Some,
    ensures
        parse_text(text) == Ok::<Ast, SyntaxError>(
            {
                let a = Ast::Identifier(text.subrange(skip_trivia(text, 0), ends[0]));
                let b = Ast::Identifier(text.subrange(skip_trivia(text, ends[1]), ends[2]));
                let c = Ast::Identifier(text.subrange(skip_trivia(text, ends[3]), ends[4]));
                if precedence(second) > precedence(first) {
                    apply(
                        binary_operator(first).unwrap(),
                        a,
                        apply(binary_operator(second).unwrap(), b, c),
                    )
                } else {
                    apply(
                        binary_operator(second).unwrap(),
                        apply(binary_operator(first).unwrap(), a, b),
                        c,
                    )
                }
            },
        ),
{
    let a = Ast::Identifier(text.subrange(skip_trivia(text, 0), ends[0]));
    let b = Ast::Identifier(text.subrange(skip_trivia(text, ends[1]), ends[2]));
    let c = Ast::Identifier(text.subrange(skip_trivia(text, ends[3]), ends[4]));
    let low = precedence(first) as int;
    let high = precedence(second) as int;
    let former = binary_operator(first).unwrap();
    let latter = binary_operator(second).unwrap();
    lemma_skip_trivia(text, 0);
    lemma_scan_token(text, skip_trivia(text, 0));
    lemma_skip_trivia(text, ends[0]);
    lemma_scan_token(text, skip_trivia(text, ends[0]));
    lemma_skip_trivia(text, ends[1]);
    lemma_scan_token(text, skip_trivia(text, ends[1]));
    lemma_skip_trivia(text, ends[2]);
    lemma_scan_token(text, skip_trivia(text, ends[2]));
    lemma_skip_trivia(text, ends[3]);
    lemma_scan_token(text, skip_trivia(text, ends[3]));
    lemma_skip_trivia(text, ends[4]);
    let last = skip_trivia(text, ends[4]);
    // The third name, wherever it is read, is followed by the end.
    assert forall|min: int| #[trigger]
        parse_precedence(text, ends[3], min) == read(c, last) by {
        assert(parse_operators(text, c, ends[4], min) == read(c, last));
    }
    let middle = skip_trivia(text, ends[2]);
    law_operator_table(first);
    law_operator_table(second);
    assert(first != Token::Assign && second != Token::Assign);
    assert(has_infix_rule(first, a) && has_infix_rule(second, b));
    assert(middle < ends[3] <= last <= text.len());
    assert(parse_precedence(text, ends[3], high + 1) == read(c, last));
    if high > low {
        let bc = apply(latter, b, c);
        assert(infix(second, b, c) == Some(bc));
        assert(parse_operators(text, bc, last, low + 1) == read(bc, last));
        assert(parse_operators(text, b, ends[2], low + 1) == read(bc, last));
        assert(parse_precedence(text, ends[1], low + 1) == read(bc, last));
        let abc = apply(former, a, bc);
        assert(parse_operators(text, abc, last, 1) == read(abc, last));
        assert(parse_operators(text, a, ends[0], 1) == read(abc, last));
    } else {
        assert(parse_operators(text, b, ends[2], low + 1) == read(b, middle));
        assert(parse_precedence(text, ends[1], low + 1) == read(b, middle));
        let ab = apply(former, a, b);
        let abc = apply(latter, ab, c);
        assert(parse_operators(text, abc, last, 1) == read(abc, last));
        assert(parse_operators(text, ab, middle, 1) == read(abc, last));
        assert(parse_operators(text, a, ends[0], 1) == read(abc, last));
    }
}

/// How tightly the expression `tree` holds together: the precedence of the
/// operator at its root; that of a primary where it has none.
pub open spec fn binding(tree: Ast) -> int {
    match tree {
        Ast::BinaryOp { operator, .. } => operator.level() as int,
        Ast::Assign { .. } => PREC_ASSIGNMENT as int,
        _ => PREC_PRIMARY as int,
    }
}

/// Every operator in `tree` has on its left an operand that binds at least
/// as tightly as the operator does, and on its right an operand that binds
/// more tightly.
pub open spec fn well_grouped(tree: Ast) -> bool
    decreases tree,
{
    match tree {
        Ast::BinaryOp { operator, left, right } => {
            &&& well_grouped(*left)
            &&& well_grouped(*right)
            &&& binding(*left) >= operator.level()
            &&& binding(*right) > operator.level()
        },
        Ast::Assign { name, value } => well_grouped(*value) && binding(*value) > PREC_ASSIGNMENT,
        _ => true,
    }
}

/// Precedence and grouping, of every expression that the parser builds.
///
/// An operand on the right of an operator binds more tightly than the
/// operator: so a chain of operators of one precedence is grouped to the
/// left, as in `(a - b) - c`.  An operand on the left binds at least as
/// tightly: so an operator of higher precedence takes its operands first,
/// as in `a + (b * c)`.  And the expression as a whole binds as tightly as
/// was asked for.
pub proof fn law_grouping(text: Seq<char>, from: int, min: int)
    requires
        0 <= from <= text.len(),
        parse_precedence(text, from, min).result is Ok,
    ensures
        well_grouped(parse_precedence(text, from, min).result.unwrap()),
        binding(parse_precedence(text, from, min).result.unwrap()) >= min || binding(
            parse_precedence(text, from, min).result.unwrap(),
        ) == PREC_PRIMARY,
    decreases text.len() - from, 1int,
{
    let start = skip_trivia(text, from);
    lemma_skip_trivia(text, from);
    lemma_scan_token(text, start);
    let kind = scan_token(text, start)->Token_kind;
    let end = scan_token(text, start)->Token_end;
    let left = primary(text, start, kind, end).unwrap();
    lemma_operators_grouping(text, left, end, min);
}

/// Grouping is kept while operators are read after an operand that no
/// following operator binds more tightly than.
proof fn lemma_operators_grouping(text: Seq<char>, left: Ast, from: int, min: int)
    requires
        0 <= from <= text.len(),
        parse_operators(text, left, from, min).result is Ok,
        well_grouped(left),
        binding(left) >= min || binding(left) == PREC_PRIMARY,
        scan_token(text, skip_trivia(text, from)) matches Scan::Token { kind, .. } ==> precedence(
            kind,
        ) <= binding(left),
    ensures
        well_grouped(parse_operators(text, left, from, min).result.unwrap()),
        binding(parse_operators(text, left, from, min).result.unwrap()) >= min || binding(
            parse_operators(text, left, from, min).result.unwrap(),
        ) == PREC_PRIMARY,
    decreases text.len() - from, 0int,
{
    let start = skip_trivia(text, from);
    lemma_skip_trivia(text, from);
    lemma_scan_token(text, start);
    if let Scan::Token { kind, end } = scan_token(text, start) {
        if !(precedence(kind) == PREC_NONE || precedence(kind) < min) {
            let level = precedence(kind) as int;
            let right = parse_precedence(text, end, level + 1);
            lemma_parse_precedence_advances(text, end, level + 1);
            lemma_skip_trivia(text, end);
            let operand = right.result.unwrap();
            law_grouping(text, end, level + 1);
            law_expression_ends_below_demand(text, end, level + 1);
            law_operator_table(kind);
            let built = infix(kind, left, operand).unwrap();
            assert(binding(built) == level);
            lemma_skip_trivia(text, right.next);
            lemma_operators_grouping(text, built, right.next, min);
        }
    }
}

/// What a token adds to an expression.
pub enum Leaf {
    Name(Seq<char>),
    Number(int),
    Operator(Operator),
    Assignment,
    /// A token that no expression holds.
    Other(Token),
}

/// What the token of kind `kind` from `start` to `end` adds to an
/// expression.
pub open spec fn leaf(text: Seq<char>, start: int, kind: Token, end: int) -> Leaf {
    if kind == Token::Identifier {
        Leaf::Name(text.subrange(start, end))
    } else if kind == Token::Int {
        Leaf::Number(decimal_value(text.subrange(start, end)))
    } else if kind == Token::Assign {
        Leaf::Assignment
    } else {
        match binary_operator(kind) {
            Some(operator) => Leaf::Operator(operator),
            None => Leaf::Other(kind),
        }
    }
}

/// The tokens of `text` that are scanned from `from` on and end at `until`
/// or before, in their order.
pub open spec fn leaves(text: Seq<char>, from: int, until: int) -> Seq<Leaf>
    decreases text.len() - from,
{
    let start = skip_trivia(text, from);
    match scan_token(text, start) {
        Scan::Token { kind, end } => {
            if end <= until {
                proof {
                    lemma_scan_token(text, start);
                    if 0 <= from <= text.len() {
                        lemma_skip_trivia(text, from);
                    }
                }
                seq![leaf(text, start, kind, end)] + leaves(text, end, until)
            } else {
                Seq::empty()
            }
        },
        _ => Seq::empty(),
    }
}

/// The names, numbers and operators of `tree`, read from left to right.
pub open spec fn flatten(tree: Ast) -> Seq<Leaf>
    decreases tree,
{
    match tree {
        Ast::Literal(value) => seq![Leaf::Number(value)],
        Ast::Identifier(name) => seq![Leaf::Name(name)],
        Ast::Assign { name, value } => seq![Leaf::Name(name), Leaf::Assignment] + flatten(*value),
        Ast::BinaryOp { operator, left, right } => flatten(*left) + seq![Leaf::Operator(operator)]
            + flatten(*right),
        Ast::Empty => Seq::empty(),
    }
}

/// Scanning from `from` comes, after some tokens or none, to a token that
/// starts at `to`, or to the end of the text at `to`.
spec fn comes_to(text: Seq<char>, from: int, to: int) -> bool
    decreases text.len() - from,
{
    let start = skip_trivia(text, from);
    start == to || match scan_token(text, start) {
        Scan::Token { kind, end } => {
            proof {
                lemma_scan_token(text, start);
                if 0 <= from <= text.len() {
                    lemma_skip_trivia(text, from);
                }
            }
            end <= to && comes_to(text, end, to)
        },
        _ => false,
    }
}

/// Where scanning comes to lies at or after where it set out, and from there
/// nothing is left to skip.
proof fn lemma_comes_to(text: Seq<char>, from: int, to: int)
    requires
        0 <= from <= text.len(),
        comes_to(text, from, to),
    ensures
        skip_trivia(text, from) <= to <= text.len(),
        skip_trivia(text, to) == to,
    decreases text.len() - from,
{
    let start = skip_trivia(text, from);
    lemma_skip_trivia(text, from);
    lemma_scan_token(text, start);
    if start != to {
        lemma_comes_to(text, scan_token(text, start)->Token_end, to);
    }
}

/// Scanning that comes to one place and from there to another comes from
/// the first to the last.
proof fn lemma_comes_further(text: Seq<char>, from: int, mid: int, to: int)
    requires
        0 <= from <= text.len(),
        comes_to(text, from, mid),
        comes_to(text, mid, to),
    ensures
        comes_to(text, from, to),
    decreases text.len() - from,
{
    let start = skip_trivia(text, from);
    lemma_skip_trivia(text, from);
    lemma_scan_token(text, start);
    lemma_comes_to(text, from, mid);
    lemma_comes_to(text, mid, to);
    if start != mid {
        lemma_comes_further(text, scan_token(text, start)->Token_end, mid, to);
    }
}

/// The tokens up to a place that scanning comes to, and the tokens from
/// there on, are together the tokens of the whole stretch.
proof fn lemma_leaves_split(text: Seq<char>, from: int, mid: int, until: int)
    requires
        0 <= from <= text.len(),
        comes_to(text, from, mid),
        mid <= until,
    ensures
        leaves(text, from, until) == leaves(text, from, mid) + leaves(text, mid, until),
    decreases text.len() - from,
{
    let start = skip_trivia(text, from);
    lemma_skip_trivia(text, from);
    lemma_scan_token(text, start);
    lemma_comes_to(text, from, mid);
    if start == mid {
        assert(leaves(text, from, mid) =~= Seq::<Leaf>::empty());
        assert(leaves(text, from, until) == leaves(text, mid, until));
        assert(leaves(text, from, until) =~= leaves(text, from, mid) + leaves(text, mid, until));
    } else {
        let end = scan_token(text, start)->Token_end;
        lemma_leaves_split(text, end, mid, until);
        assert(leaves(text, from, until) =~= leaves(text, from, mid) + leaves(text, mid, until));
    }
}

/// Parsing an expression keeps the order of the tokens.
proof fn lemma_precedence_order(text: Seq<char>, from: int, min: int)
    requires
        0 <= from <= text.len(),
        parse_precedence(text, from, min).result is Ok,
    ensures
        comes_to(text, from, parse_precedence(text, from, min).next),
        leaves(text, from, parse_precedence(text, from, min).next) == flatten(
            parse_precedence(text, from, min).result.unwrap(),
        ),
    decreases text.len() - from, 1int,
{
    let start = skip_trivia(text, from);
    lemma_skip_trivia(text, from);
    lemma_scan_token(text, start);
    let kind = scan_token(text, start)->Token_kind;
    let end = scan_token(text, start)->Token_end;
    let left = primary(text, start, kind, end).unwrap();
    let next = skip_trivia(text, end);
    lemma_skip_trivia(text, end);
    lemma_scan_token(text, next);
    assert(comes_to(text, end, next));
    assert(comes_to(text, from, next));
    assert(leaves(text, end, next) =~= Seq::<Leaf>::empty());
    assert(leaves(text, from, next) =~= flatten(left));
    lemma_operators_order(text, left, from, end, min);
}

/// Reading the operators after an operand keeps the order of the tokens.
proof fn lemma_operators_order(text: Seq<char>, left: Ast, origin: int, from: int, min: int)
    requires
        0 <= origin <= from <= text.len(),
        parse_operators(text, left, from, min).result is Ok,
        comes_to(text, origin, skip_trivia(text, from)),
        leaves(text, origin, skip_trivia(text, from)) == flatten(left),
    ensures
        comes_to(text, origin, parse_operators(text, left, from, min).next),
        leaves(text, origin, parse_operators(text, left, from, min).next) == flatten(
            parse_operators(text, left, from, min).result.unwrap(),
        ),
    decreases text.len() - from, 0int,
{
    let start = skip_trivia(text, from);
    lemma_skip_trivia(text, from);
    lemma_scan_token(text, start);
    if let Scan::Token { kind, end } = scan_token(text, start) {
        if !(precedence(kind) == PREC_NONE || precedence(kind) < min) {
            let level = precedence(kind) as int;
            let right = parse_precedence(text, end, level + 1);
            lemma_parse_precedence_advances(text, end, level + 1);
            lemma_skip_trivia(text, end);
            let operand = right.result.unwrap();
            let built = infix(kind, left, operand).unwrap();
            lemma_precedence_order(text, end, level + 1);
            // From the operator to the end of its right operand.
            assert(comes_to(text, start, right.next));
            assert(leaves(text, start, right.next) =~= seq![leaf(text, start, kind, end)]
                + flatten(operand));
            // From the origin to the end of the right operand.
            lemma_comes_further(text, origin, start, right.next);
            lemma_leaves_split(text, origin, start, right.next);
            assert(flatten(built) =~= flatten(left) + seq![leaf(text, start, kind, end)]
                + flatten(operand));
            assert(leaves(text, origin, right.next) =~= flatten(built));
            lemma_comes_to(text, origin, right.next);
            lemma_operators_order(text, built, origin, right.next, min);
        }
    }
}

/// The parser keeps the order of the tokens.
///
/// The names, numbers and operators of a parsed expression, read from left
/// to right, are the tokens of the source from the first token of the
/// expression to its last: none is lost, none is added, and none changes its
/// place.  Only the grouping is the parser's own, and `law_grouping` says
/// what it is.
pub proof fn law_reading_order(text: Seq<char>, from: int, min: int)
    requires
        0 <= from <= text.len(),
        parse_precedence(text, from, min).result is Ok,
    ensures
        leaves(text, from, parse_precedence(text, from, min).next) == flatten(
            parse_precedence(text, from, min).result.unwrap(),
        ),
{
    lemma_precedence_order(text, from, min);
}

} // verus!
