//! Decimal numerals: the number that a run of digits denotes, and the digits
//! that denote a number.

use crate::chars::{digit, is_digit};
use crate::text::{after_first, first_char};
use vstd::prelude::*;

verus! {

/// The value of the digit `c`.
pub open spec fn digit_value(c: char) -> int {
    c as int - '0' as int
}

/// The digit whose value is `d`.
pub open spec fn digit_char(d: int) -> char {
    ((d + 48) as u8) as char
}

/// Every character of `text` is a digit.
pub open spec fn all_digits(text: Seq<char>) -> bool {
    forall|i: int| 0 <= i < text.len() ==> digit(#[trigger] text[i])
}

/// The number that the digits `digits` denote in base ten; zero for no
/// digits.
pub open spec fn decimal_value(digits: Seq<char>) -> int
    decreases digits.len(),
{
    if digits.len() == 0 {
        0
    } else {
        decimal_value(digits.drop_last()) * 10 + digit_value(digits.last())
    }
}

/// The digits that denote `n` in base ten, without leading zeros.
pub open spec fn decimal_text(n: nat) -> Seq<char>
    decreases n,
{
    if n < 10 {
        seq![digit_char(n as int)]
    } else {
        decimal_text(n / 10).push(digit_char((n % 10) as int))
    }
}

/// The numeral of the integer `n`: a minus sign before the digits of a
/// negative number.
pub open spec fn integer_text(n: int) -> Seq<char> {
    if n < 0 {
        seq!['-'] + decimal_text((-n) as nat)
    } else {
        decimal_text(n as nat)
    }
}

/// The value of a run of digits is not negative, and no prefix of the run
/// denotes more than the run.
pub proof fn lemma_decimal_value_grows(digits: Seq<char>, k: int)
    requires
        all_digits(digits),
        0 <= k <= digits.len(),
    ensures
        0 <= decimal_value(digits.subrange(0, k)) <= decimal_value(digits),
    decreases digits.len() - k,
{
    lemma_decimal_value_nonnegative(digits.subrange(0, k));
    if k < digits.len() {
        let longer = digits.subrange(0, k + 1);
        assert(longer.drop_last() =~= digits.subrange(0, k));
        assert(digit(longer.last()));
        lemma_decimal_value_grows(digits, k + 1);
    } else {
        assert(digits.subrange(0, k) =~= digits);
    }
}

/// The value of a run of digits is not negative.
pub proof fn lemma_decimal_value_nonnegative(digits: Seq<char>)
    requires
        all_digits(digits),
    ensures
        0 <= decimal_value(digits),
    decreases digits.len(),
{
    if digits.len() > 0 {
        assert(digit(digits.last()));
        lemma_decimal_value_nonnegative(digits.drop_last());
    }
}

/// The digits of a number are digits, at least one, and denote the number.
pub proof fn lemma_decimal_text(n: nat)
    ensures
        decimal_text(n).len() > 0,
        all_digits(decimal_text(n)),
        decimal_value(decimal_text(n)) == n,
    decreases n,
{
    if n < 10 {
        let text = decimal_text(n);
        assert(text.drop_last() =~= Seq::<char>::empty());
        assert(decimal_value(text.drop_last()) == 0);
    } else {
        lemma_decimal_text(n / 10);
        let text = decimal_text(n);
        assert(text.drop_last() =~= decimal_text(n / 10));
    }
}

/// The number that `digits` denotes, where `digits` is a run of at least one
/// digit and the number is no more than `i64::MAX`.
pub fn parse_decimal(digits: &str) -> (value: Option<i64>)
    ensures
        value == (if digits@.len() > 0 && all_digits(digits@) && decimal_value(digits@)
            <= i64::MAX {
            Some(decimal_value(digits@) as i64)
        } else {
            None
        }),
{
    let mut rest = digits;
    let mut value: i64 = 0;
    let ghost mut at: int = 0;
    proof {
        assert(digits@.subrange(0, digits@.len() as int) =~= digits@);
        assert(digits@.subrange(0, 0) =~= Seq::<char>::empty());
    }
    loop
        invariant
            0 <= at <= digits@.len(),
            rest@ == digits@.subrange(at, digits@.len() as int),
            all_digits(digits@.subrange(0, at)),
            value == decimal_value(digits@.subrange(0, at)),
            0 <= value,
        decreases digits@.len() - at,
    {
        match first_char(rest) {
            None => {
                proof {
                    assert(digits@.subrange(0, at) =~= digits@);
                }
                return if digits.is_empty() {
                    None
                } else {
                    Some(value)
                };
            },
            Some(c) => {
                if !is_digit(c) {
                    proof {
                        assert(!digit(digits@[at]));
                    }
                    return None;
                }
                let d: i64 = (c as u32 - '0' as u32) as i64;
                let ghost longer = digits@.subrange(0, at + 1);
                proof {
                    assert(longer.drop_last() =~= digits@.subrange(0, at));
                    assert(longer.last() == c);
                    assert(decimal_value(longer) == value * 10 + d);
                    assert(all_digits(longer)) by {
                        assert forall|i: int| 0 <= i < longer.len() implies digit(
                            #[trigger] longer[i],
                        ) by {
                            if i < at {
                                assert(longer[i] == digits@.subrange(0, at)[i]);
                            }
                        }
                    }
                }
                if value > (i64::MAX - d) / 10 {
                    proof {
                        if all_digits(digits@) {
                            lemma_decimal_value_grows(digits@, at + 1);
                        }
                    }
                    return None;
                }
                value = value * 10 + d;
                rest = after_first(rest, c);
                proof {
                    assert(rest@ =~= digits@.subrange(at + 1, digits@.len() as int));
                    at = at + 1;
                }
            },
        }
    }
}

/// Appends the digits of `n` to `out`.
pub fn push_decimal(out: &mut String, n: u64)
    ensures
        final(out)@ == old(out)@ + decimal_text(n as nat),
    decreases n,
{
    if n >= 10 {
        push_decimal(out, n / 10);
    }
    let d: u8 = (n % 10) as u8;
    out.push((d + 48) as char);
    proof {
        if n >= 10 {
            assert(final(out)@ =~= old(out)@ + decimal_text(n as nat));
        } else {
            assert(final(out)@ =~= old(out)@ + decimal_text(n as nat));
        }
    }
}

/// Appends the numeral of `n` to `out`.
pub fn push_integer(out: &mut String, n: i64)
    ensures
        final(out)@ == old(out)@ + integer_text(n as int),
{
    if n < 0 {
        out.push('-');
        let magnitude: u64 = ((-(n + 1)) as u64) + 1;
        push_decimal(out, magnitude);
        proof {
            assert(final(out)@ =~= old(out)@ + integer_text(n as int));
        }
    } else {
        push_decimal(out, n as u64);
    }
}

} // verus!
