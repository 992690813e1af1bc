use compiler::chars::{is_digit, is_identifier, is_identifier_part, is_whitespace, Class};
use compiler::decimal::{parse_decimal, push_decimal, push_integer};
use compiler::location::position_of_last;
use compiler::text::{byte_len, first_char, same_text, utf8_width};

#[test]
fn first_character() {
    assert_eq!(first_char(""), None);
    assert_eq!(first_char("a"), Some('a'));
    assert_eq!(first_char("éa"), Some('é'));
    assert_eq!(first_char("\u{10348}x"), Some('\u{10348}'));
}

#[test]
fn width_of_every_character() {
    for code in 0..=0x10ffffu32 {
        if let Some(c) = char::from_u32(code) {
            assert_eq!(utf8_width(c), c.len_utf8());
        }
    }
    assert_eq!(utf8_width('a'), 1);
    assert_eq!(utf8_width('é'), 2);
    assert_eq!(utf8_width('€'), 3);
    assert_eq!(utf8_width('\u{10348}'), 4);
}

#[test]
fn length_in_bytes() {
    assert_eq!(byte_len(""), 0);
    assert_eq!(byte_len("abc"), 3);
    assert_eq!(byte_len("é€"), 5);
}

#[test]
fn comparison_of_texts() {
    assert!(same_text("", ""));
    assert!(same_text("while", "while"));
    assert!(same_text("kůň", "kůň"));
    assert!(!same_text("fn", "fnx"));
    assert!(!same_text("fnx", "fn"));
    assert!(!same_text("for", "fox"));
    assert!(!same_text("", "a"));
    assert!(!same_text("a", ""));
}

#[test]
fn classes_of_every_character() {
    for code in 0..=0x10ffffu32 {
        if let Some(c) = char::from_u32(code) {
            assert_eq!(is_whitespace(c), c.is_whitespace(), "{:?}", c);
            assert_eq!(is_digit(c), c.is_ascii_digit());
            assert_eq!(is_identifier(c), c.is_ascii_alphabetic() || c == '_');
            assert_eq!(is_identifier_part(c), c.is_ascii_alphanumeric() || c == '_');
            assert_eq!(Class::Digit.contains(c), c.is_ascii_digit());
            assert_eq!(Class::IdentifierPart.contains(c), c.is_ascii_alphanumeric() || c == '_');
            assert_eq!(Class::WithinLine.contains(c), c != '\n');
            assert_eq!(Class::WithinString.contains(c), c != '"');
        }
    }
}

#[test]
fn line_and_row() {
    assert_eq!(position_of_last(""), (1, 1));
    assert_eq!(position_of_last("a"), (1, 1));
    assert_eq!(position_of_last("abc"), (1, 3));
    assert_eq!(position_of_last("ab\n"), (1, 3));
    assert_eq!(position_of_last("ab\nc"), (2, 1));
    assert_eq!(position_of_last("ab\n\n\ncde"), (4, 3));
    assert_eq!(position_of_last("é€\u{10348}x"), (1, 4));
    assert_eq!(position_of_last("\n"), (1, 1));
    assert_eq!(position_of_last("\n\n"), (2, 1));
}

#[test]
fn value_of_digits() {
    assert_eq!(parse_decimal("0"), Some(0));
    assert_eq!(parse_decimal("7"), Some(7));
    assert_eq!(parse_decimal("000123"), Some(123));
    assert_eq!(parse_decimal("9223372036854775807"), Some(i64::MAX));
    assert_eq!(parse_decimal("9223372036854775808"), None);
    assert_eq!(parse_decimal("92233720368547758070"), None);
    assert_eq!(parse_decimal("18446744073709551616"), None);
    assert_eq!(parse_decimal(""), None);
    assert_eq!(parse_decimal("12a"), None);
    assert_eq!(parse_decimal("-1"), None);
    assert_eq!(parse_decimal("+1"), None);
    assert_eq!(parse_decimal("١٢"), None);
}

#[test]
fn digits_of_values() {
    let cases: [(u64, &str); 6] = [
        (0, "0"),
        (9, "9"),
        (10, "10"),
        (1905, "1905"),
        (9223372036854775808, "9223372036854775808"),
        (u64::MAX, "18446744073709551615"),
    ];
    for (value, digits) in cases {
        let mut out = String::from("n=");
        push_decimal(&mut out, value);
        assert_eq!(out, format!("n={}", digits));
    }
    for value in [0i64, 1, -1, 42, -42, i64::MAX, i64::MIN, i64::MIN + 1] {
        let mut out = String::new();
        push_integer(&mut out, value);
        assert_eq!(out, value.to_string());
    }
}

#[test]
fn digits_written_and_read_are_the_same_number() {
    for value in [0i64, 5, 10, 99, 100, 123456789, i64::MAX] {
        let mut out = String::new();
        push_integer(&mut out, value);
        assert_eq!(parse_decimal(&out), Some(value));
    }
}
