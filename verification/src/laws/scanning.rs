//! Laws of scanning: what holds of the tokens of every text.

use crate::chars::{digit, identifier_part, identifier_start, whitespace, Class};
use crate::decimal::all_digits;
use crate::scan::{
    char_at, comment_at, digraph, keyword, lemma_run_end, lemma_run_end_resumes, lemma_scan_token,
    run_end, scan_token, skip_trivia, symbol, Scan,
};
use crate::token::Token;
use vstd::prelude::*;

verus! {

/// `word` has the shape of an identifier: a letter or an underscore, then
/// letters, digits and underscores.
pub open spec fn is_word(word: Seq<char>) -> bool {
    &&& word.len() > 0
    &&& identifier_start(word[0])
    &&& forall|i: int| 0 < i < word.len() ==> identifier_part(#[trigger] word[i])
}

/// `lexeme` is the text of a token of kind `kind`.
pub open spec fn is_lexeme_of(kind: Token, lexeme: Seq<char>) -> bool {
    match kind.spelling() {
        Some(spelling) => lexeme == spelling,
        None => match kind {
            Token::Identifier => is_word(lexeme) && keyword(lexeme) is None,
            Token::Int => lexeme.len() > 0 && all_digits(lexeme),
            Token::Float => exists|point: int|
                {
                    &&& 0 < point < lexeme.len() - 1
                    &&& #[trigger] lexeme[point] == '.'
                    &&& all_digits(lexeme.subrange(0, point))
                    &&& all_digits(lexeme.subrange(point + 1, lexeme.len() as int))
                },
            Token::String => {
                &&& lexeme.len() >= 2
                &&& lexeme.first() == '"'
                &&& lexeme.last() == '"'
                &&& forall|i: int| 0 < i < lexeme.len() - 1 ==> #[trigger] lexeme[i] != '"'
            },
            Token::Char => lexeme.len() == 3 && lexeme[0] == '\'' && lexeme[2] == '\'',
            Token::Atom => lexeme.len() > 0 && lexeme[0] == ':' && is_word(lexeme.drop_first()),
            Token::Builtin => lexeme.len() > 0 && lexeme[0] == '@' && is_word(
                lexeme.drop_first(),
            ),
            _ => false,
        },
    }
}

/// Makes known what the string literals of the token spellings hold.
proof fn reveal_spellings()
    ensures
        "+"@ == seq!['+'],
        "-"@ == seq!['-'],
        "*"@ == seq!['*'],
        "/"@ == seq!['/'],
        "%"@ == seq!['%'],
        "="@ == seq!['='],
        "<"@ == seq!['<'],
        ">"@ == seq!['>'],
        "!"@ == seq!['!'],
        "~"@ == seq!['~'],
        "&"@ == seq!['&'],
        "|"@ == seq!['|'],
        "^"@ == seq!['^'],
        "("@ == seq!['('],
        ")"@ == seq![')'],
        "{"@ == seq!['{'],
        "}"@ == seq!['}'],
        "["@ == seq!['['],
        "]"@ == seq![']'],
        ";"@ == seq![';'],
        ","@ == seq![','],
        "."@ == seq!['.'],
        "**"@ == seq!['*', '*'],
        "=="@ == seq!['=', '='],
        "!="@ == seq!['!', '='],
        "<="@ == seq!['<', '='],
        ">="@ == seq!['>', '='],
        "<<"@ == seq!['<', '<'],
        ">>"@ == seq!['>', '>'],
{
    reveal_strlit("+");
    reveal_strlit("-");
    reveal_strlit("*");
    reveal_strlit("/");
    reveal_strlit("%");
    reveal_strlit("=");
    reveal_strlit("<");
    reveal_strlit(">");
    reveal_strlit("!");
    reveal_strlit("~");
    reveal_strlit("&");
    reveal_strlit("|");
    reveal_strlit("^");
    reveal_strlit("(");
    reveal_strlit(")");
    reveal_strlit("{");
    reveal_strlit("}");
    reveal_strlit("[");
    reveal_strlit("]");
    reveal_strlit(";");
    reveal_strlit(",");
    reveal_strlit(".");
    reveal_strlit("**");
    reveal_strlit("==");
    reveal_strlit("!=");
    reveal_strlit("<=");
    reveal_strlit(">=");
    reveal_strlit("<<");
    reveal_strlit(">>");
    assert("+"@ =~= seq!['+']);
    assert("-"@ =~= seq!['-']);
    assert("*"@ =~= seq!['*']);
    assert("/"@ =~= seq!['/']);
    assert("%"@ =~= seq!['%']);
    assert("="@ =~= seq!['=']);
    assert("<"@ =~= seq!['<']);
    assert(">"@ =~= seq!['>']);
    assert("!"@ =~= seq!['!']);
    assert("~"@ =~= seq!['~']);
    assert("&"@ =~= seq!['&']);
    assert("|"@ =~= seq!['|']);
    assert("^"@ =~= seq!['^']);
    assert("("@ =~= seq!['(']);
    assert(")"@ =~= seq![')']);
    assert("{"@ =~= seq!['{']);
    assert("}"@ =~= seq!['}']);
    assert("["@ =~= seq!['[']);
    assert("]"@ =~= seq![']']);
    assert(";"@ =~= seq![';']);
    assert(","@ =~= seq![',']);
    assert("."@ =~= seq!['.']);
    assert("**"@ =~= seq!['*', '*']);
    assert("=="@ =~= seq!['=', '=']);
    assert("!="@ =~= seq!['!', '=']);
    assert("<="@ =~= seq!['<', '=']);
    assert(">="@ =~= seq!['>', '=']);
    assert("<<"@ =~= seq!['<', '<']);
    assert(">>"@ =~= seq!['>', '>']);
}

/// Makes known what the string literals of the keywords hold.
pub(crate) proof fn reveal_keywords()
    ensures
        "fn"@ == seq!['f', 'n'],
        "mod"@ == seq!['m', 'o', 'd'],
        "and"@ == seq!['a', 'n', 'd'],
        "or"@ == seq!['o', 'r'],
        "xor"@ == seq!['x', 'o', 'r'],
        "while"@ == seq!['w', 'h', 'i', 'l', 'e'],
        "for"@ == seq!['f', 'o', 'r'],
        "if"@ == seq!['i', 'f'],
        "else"@ == seq!['e', 'l', 's', 'e'],
{
    reveal_strlit("fn");
    reveal_strlit("mod");
    reveal_strlit("and");
    reveal_strlit("or");
    reveal_strlit("xor");
    reveal_strlit("while");
    reveal_strlit("for");
    reveal_strlit("if");
    reveal_strlit("else");
    assert("fn"@ =~= seq!['f', 'n']);
    assert("mod"@ =~= seq!['m', 'o', 'd']);
    assert("and"@ =~= seq!['a', 'n', 'd']);
    assert("or"@ =~= seq!['o', 'r']);
    assert("xor"@ =~= seq!['x', 'o', 'r']);
    assert("while"@ =~= seq!['w', 'h', 'i', 'l', 'e']);
    assert("for"@ =~= seq!['f', 'o', 'r']);
    assert("if"@ =~= seq!['i', 'f']);
    assert("else"@ =~= seq!['e', 'l', 's', 'e']);
}

/// A text that holds nothing but one operator or separator of a single
/// character yields exactly one token: the token that the character spells,
/// with the character as its text, and then the end.
pub proof fn law_single_symbol(c: char)
    requires
        symbol(c) is Some,
    ensures
        skip_trivia(seq![c], 0) == 0,
        scan_token(seq![c], 0) == (Scan::Token { kind: symbol(c).unwrap(), end: 1 }),
        seq![c].subrange(0, 1) == seq![c],
        symbol(c).unwrap().spelling() == Some(seq![c]),
        scan_token(seq![c], skip_trivia(seq![c], 1)) is End,
{
    reveal_spellings();
    assert(seq![c].subrange(0, 1) =~= seq![c]);
}

/// An operator of two characters is one token, not two; where the second
/// character does not continue the operator, the first is a token by itself
/// and the second is left for the next token.
pub proof fn law_longest_operator(text: Seq<char>, start: int)
    requires
        0 <= start < text.len(),
        symbol(text[start]) is Some,
    ensures
        scan_token(text, start) == (match char_at(text, start + 1) {
            Some(d) => match digraph(text[start], d) {
                Some(kind) => Scan::Token { kind, end: start + 2 },
                None => Scan::Token { kind: symbol(text[start]).unwrap(), end: start + 1 },
            },
            None => Scan::Token { kind: symbol(text[start]).unwrap(), end: start + 1 },
        }),
        text[start] == '*' ==> scan_token(text, start) == (if char_at(text, start + 1) == Some(
            '*',
        ) {
            Scan::Token { kind: Token::Pow, end: start + 2 }
        } else {
            Scan::Token { kind: Token::Star, end: start + 1 }
        }),
{
}

/// The character at `at` lies in a line comment that starts at `from` or
/// later.
pub open spec fn in_comment(text: Seq<char>, from: int, at: int) -> bool {
    exists|slashes: int|
        from <= slashes <= at && comment_at(text, slashes) && at < #[trigger] run_end(
            text,
            slashes,
            Class::WithinLine,
        )
}

/// A token starts neither with white space nor with a line comment, and
/// between the place where scanning resumes and the start of the next token
/// lies nothing but white space and line comments.
pub proof fn law_trivia(text: Seq<char>, from: int)
    requires
        0 <= from <= text.len(),
    ensures
        from <= skip_trivia(text, from) <= text.len(),
        skip_trivia(text, from) < text.len() ==> !whitespace(text[skip_trivia(text, from)])
            && !comment_at(text, skip_trivia(text, from)),
        forall|i: int|
            from <= i < skip_trivia(text, from) ==> whitespace(#[trigger] text[i]) || in_comment(
                text,
                from,
                i,
            ),
    decreases text.len() - from,
{
    if from < text.len() {
        let stop = skip_trivia(text, from);
        if whitespace(text[from]) {
            law_trivia(text, from + 1);
            assert forall|i: int| from <= i < stop implies whitespace(#[trigger] text[i])
                || in_comment(text, from, i) by {
                if i > from && !whitespace(text[i]) {
                    lemma_in_comment_from_earlier(text, from, from + 1, i);
                }
            }
        } else if comment_at(text, from) {
            let line_end = run_end(text, from + 2, Class::WithinLine);
            lemma_run_end(text, from + 2, Class::WithinLine);
            lemma_run_end_resumes(text, from, from + 2, Class::WithinLine);
            law_trivia(text, line_end);
            assert forall|i: int| from <= i < stop implies whitespace(#[trigger] text[i])
                || in_comment(text, from, i) by {
                if i < line_end {
                    assert(i < run_end(text, from, Class::WithinLine));
                } else if !whitespace(text[i]) {
                    lemma_in_comment_from_earlier(text, from, line_end, i);
                }
            }
        }
    }
}

/// A comment that starts at `later` or after it starts at `from` or after
/// it, where `from` comes first.
proof fn lemma_in_comment_from_earlier(text: Seq<char>, from: int, later: int, at: int)
    requires
        from <= later,
        in_comment(text, later, at),
    ensures
        in_comment(text, from, at),
{
    let slashes = choose|slashes: int|
        later <= slashes <= at && comment_at(text, slashes) && at < #[trigger] run_end(
            text,
            slashes,
            Class::WithinLine,
        );
    assert(from <= slashes <= at && comment_at(text, slashes) && at < run_end(
        text,
        slashes,
        Class::WithinLine,
    ));
}

/// The text of a token has the shape of its kind.  An operator, a separator
/// or a keyword is written as that kind always is; a literal or an
/// identifier is made of the characters that its kind allows, from the first
/// to the last, with none missing and none too many.
pub proof fn law_lexeme(text: Seq<char>, start: int)
    requires
        scan_token(text, start) is Token,
    ensures
        scan_token(text, start) matches Scan::Token { kind, end } && 0 <= start < end
            <= text.len() && is_lexeme_of(kind, text.subrange(start, end)),
{
    lemma_scan_token(text, start);
    reveal_spellings();
    reveal_keywords();
    let c = text[start];
    let from = start + 1;
    let end = scan_token(text, start)->Token_end;
    let kind = scan_token(text, start)->Token_kind;
    let lexeme = text.subrange(start, end);
    if symbol(c) is Some {
        if end == from {
            assert(lexeme =~= seq![c]);
        } else {
            assert(lexeme =~= seq![c, text[from]]);
        }
    } else if c == ':' || c == '@' {
        lemma_run_end(text, from + 1, Class::IdentifierPart);
        let word = lexeme.drop_first();
        assert(word[0] == text[from]);
        assert forall|i: int| 0 < i < word.len() implies identifier_part(#[trigger] word[i]) by {
            assert(word[i] == text[from + i]);
        }
    } else if c == '\'' {
    } else if c == '"' {
        lemma_run_end(text, from, Class::WithinString);
        assert forall|i: int| 0 < i < lexeme.len() - 1 implies #[trigger] lexeme[i] != '"' by {
            assert(lexeme[i] == text[start + i]);
            assert(Class::WithinString.has(text[start + i]));
        }
    } else if digit(c) {
        lemma_run_end(text, from, Class::Digit);
        let point = run_end(text, from, Class::Digit);
        if kind == Token::Int {
            assert forall|i: int| 0 <= i < lexeme.len() implies digit(#[trigger] lexeme[i]) by {
                assert(lexeme[i] == text[start + i]);
                if i > 0 {
                    assert(Class::Digit.has(text[start + i]));
                }
            }
        } else {
            lemma_run_end(text, point + 2, Class::Digit);
            let p = point - start;
            let whole = lexeme.subrange(0, p);
            let fraction = lexeme.subrange(p + 1, lexeme.len() as int);
            assert forall|i: int| 0 <= i < whole.len() implies digit(#[trigger] whole[i]) by {
                assert(whole[i] == text[start + i]);
                if i > 0 {
                    assert(Class::Digit.has(text[start + i]));
                }
            }
            assert forall|i: int| 0 <= i < fraction.len() implies digit(
                #[trigger] fraction[i],
            ) by {
                assert(fraction[i] == text[point + 1 + i]);
                if i > 0 {
                    assert(Class::Digit.has(text[point + 1 + i]));
                }
            }
            assert(lexeme[p] == '.');
        }
    } else {
        lemma_run_end(text, from, Class::IdentifierPart);
        assert forall|i: int| 0 < i < lexeme.len() implies identifier_part(
            #[trigger] lexeme[i],
        ) by {
            assert(lexeme[i] == text[start + i]);
            assert(Class::IdentifierPart.has(text[start + i]));
        }
        assert(is_word(lexeme));
    }
}

/// What stops the lexer is an error of scanning, found after one character
/// at least had been read; and the lexer never yields the token that stands
/// for no token.
pub proof fn law_scan_outcomes(text: Seq<char>, start: int)
    ensures
        match scan_token(text, start) {
            Scan::Token { kind, end } => kind != Token::Illegal,
            Scan::End => !(0 <= start < text.len()),
            Scan::Fail { error, end } => error.from_scanning() && 0 <= start < end <= text.len(),
        },
{
    lemma_scan_token(text, start);
}

/// A word is a keyword only if the whole of it spells the keyword: a word
/// that goes on after a keyword is an identifier.
pub proof fn law_keyword_is_whole_word(text: Seq<char>, start: int)
    requires
        0 <= start < text.len(),
        identifier_start(text[start]),
    ensures
        scan_token(text, start) matches Scan::Token { kind, end } && end == run_end(
            text,
            start + 1,
            Class::IdentifierPart,
        ) && (end == text.len() || !identifier_part(text[end])) && kind == (match keyword(
            text.subrange(start, end),
        ) {
            Some(word) => word,
            None => Token::Identifier,
        }),
{
    lemma_run_end(text, start + 1, Class::IdentifierPart);
}

} // verus!
