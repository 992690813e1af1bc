//! Line and row of a character in a text.
//!
//! Lines and rows are counted from one.  A line break ends its line: the
//! character after it is the first of the next line.

use crate::text::{after_first, byte_len, first_char, lemma_encode_len};
use vstd::prelude::*;
use vstd::string::StringSliceAdditionalSpecFns;

verus! {

/// The line of the character at index `at`: one more than the number of line
/// breaks before it.
pub open spec fn line_of(text: Seq<char>, at: int) -> int
    decreases at,
{
    if at <= 0 {
        1
    } else if text[at - 1] == '\n' {
        line_of(text, at - 1) + 1
    } else {
        line_of(text, at - 1)
    }
}

/// The row of the character at index `at`: its place within its line.
pub open spec fn row_of(text: Seq<char>, at: int) -> int
    decreases at,
{
    if at <= 0 {
        1
    } else if text[at - 1] == '\n' {
        1
    } else {
        row_of(text, at - 1) + 1
    }
}

/// Line and row lie between one and one more than the index.
pub proof fn lemma_position_bounds(text: Seq<char>, at: int)
    ensures
        1 <= line_of(text, at) <= (if at <= 0 { 1 } else { at + 1 }),
        1 <= row_of(text, at) <= (if at <= 0 { 1 } else { at + 1 }),
    decreases at,
{
    if at > 0 {
        lemma_position_bounds(text, at - 1);
    }
}

/// Line and row of a character depend only on the characters before it.
pub proof fn lemma_position_of_prefix(text: Seq<char>, other: Seq<char>, at: int)
    requires
        at <= text.len(),
        at <= other.len(),
        forall|i: int| 0 <= i < at ==> text[i] == other[i],
    ensures
        line_of(text, at) == line_of(other, at),
        row_of(text, at) == row_of(other, at),
    decreases at,
{
    if at > 0 {
        lemma_position_of_prefix(text, other, at - 1);
    }
}

/// Line and row of the last character of `read`; line one, row one where
/// `read` is empty.
pub fn position_of_last(read: &str) -> (position: (usize, usize))
    ensures
        position.0 == line_of(read@, read@.len() - 1),
        position.1 == row_of(read@, read@.len() - 1),
{
    let mut rest = read;
    let mut line: usize = 1;
    let mut row: usize = 1;
    let ghost mut at: int = 0;
    let bytes = byte_len(read);
    proof {
        lemma_encode_len(read@);
        assert(read@.subrange(0, read@.len() as int) =~= read@);
    }
    loop
        invariant
            0 <= at <= read@.len(),
            at == 0 || at < read@.len(),
            read@.len() <= usize::MAX,
            rest@ == read@.subrange(at, read@.len() as int),
            line == line_of(read@, at),
            row == row_of(read@, at),
        ensures
            line == line_of(read@, read@.len() - 1),
            row == row_of(read@, read@.len() - 1),
        decreases read@.len() - at,
    {
        match first_char(rest) {
            None => {
                break ;
            },
            Some(c) => {
                let tail = after_first(rest, c);
                assert(tail@ =~= read@.subrange(at + 1, read@.len() as int));
                if byte_len(tail) == 0 {
                    proof {
                        lemma_encode_len(tail@);
                    }
                    break ;
                }
                proof {
                    lemma_position_bounds(read@, at);
                    assert(tail.spec_bytes().len() > 0);
                    assert(tail@.len() > 0) by {
                        if tail@.len() == 0 {
                            assert(tail@ =~= Seq::<char>::empty());
                            assert(vstd::utf8::encode_utf8(tail@).len() == 0);
                        }
                    }
                }
                if c == '\n' {
                    line = line + 1;
                    row = 1;
                } else {
                    row = row + 1;
                }
                rest = tail;
                proof {
                    at = at + 1;
                }
            },
        }
    }
    (line, row)
}

} // verus!
