use iai::number::{
    append_decimal, append_fixed_decimal, append_signed_decimal, parse_isize, parse_u64,
    to_decimal, NumberError,
};
use iai::text::{is_whitespace, pad_left, same, split_words, strip_prefix};

#[test]
fn whitespace_is_that_of_unicode() {
    for n in 0..=0x10ffffu32 {
        if let Some(c) = char::from_u32(n) {
            assert_eq!(is_whitespace(c), c.is_whitespace(), "{n:x}");
        }
    }
}

#[test]
fn words_are_separated_by_whitespace() {
    for text in [
        "",
        " ",
        "a",
        " a",
        "a ",
        "Ir I1mr  ILmr",
        "\t1\u{a0}2\u{3000}3\n",
        "ä ß\u{2003}ö",
        "\r\n\r\n",
    ] {
        let expected: Vec<&str> = text.split_whitespace().collect();
        assert_eq!(split_words(text), expected);
    }
}

#[test]
fn prefixes_are_stripped() {
    for (text, prefix) in [
        ("events: Ir", "events: "),
        ("events:", "events: "),
        ("", ""),
        ("", "a"),
        ("abc", ""),
        ("äöü", "ä"),
        ("aaa", "aa"),
        ("ab", "abc"),
    ] {
        assert_eq!(strip_prefix(text, prefix), text.strip_prefix(prefix));
    }
}

#[test]
fn padding_fills_up_from_the_left() {
    assert_eq!(pad_left("1735", 15), format!("{:>15}", "1735"));
    assert_eq!(pad_left("äö", 3), " äö");
    assert_eq!(pad_left("12345", 3), "12345");
    assert_eq!(pad_left("", 0), "");
}

#[test]
fn texts_are_compared_by_their_characters() {
    assert!(same("", ""));
    assert!(same("bench_a", "bench_a"));
    assert!(!same("bench_a", "bench_b"));
    assert!(!same("bench", "bench_b"));
}

#[test]
fn decimals_are_written_without_leading_zeros() {
    for n in [0, 1, 9, 10, 99, 1735, 26214735, u64::MAX] {
        assert_eq!(to_decimal(n), n.to_string());
    }
    let mut text = "n = ".to_owned();
    append_decimal(&mut text, u128::MAX);
    assert_eq!(text, format!("n = {}", u128::MAX));
    for n in [0, 7, -1, isize::MAX, isize::MIN] {
        let mut text = String::new();
        append_signed_decimal(&mut text, n);
        assert_eq!(text, n.to_string());
    }
}

#[test]
fn fixed_decimals_have_leading_zeros() {
    for (n, width) in [(0, 1), (0, 6), (12, 6), (999999, 6), (5, 0)] {
        let mut text = String::new();
        append_fixed_decimal(&mut text, n, width);
        if width == 0 {
            assert_eq!(text, "");
        } else {
            assert_eq!(text, format!("{n:0width$}"));
        }
    }
}

#[test]
fn numbers_are_read_as_they_were_written() {
    for n in [0, 1, 42, u64::MAX - 1, u64::MAX] {
        assert_eq!(parse_u64(&to_decimal(n)), Ok(n));
    }
    for n in [0, 1, -1, 42, isize::MAX, isize::MIN] {
        let mut text = String::new();
        append_signed_decimal(&mut text, n);
        assert_eq!(parse_isize(&text), Ok(n));
    }
}

#[test]
fn numbers_are_read_like_those_of_the_language() {
    for text in [
        "",
        "+",
        "-",
        "0",
        "-0",
        "+0",
        "007",
        "+7",
        "-7",
        "++7",
        "+-7",
        "7 ",
        " 7",
        "7a",
        "a7",
        "٣",
        "18446744073709551615",
        "18446744073709551616",
        "9223372036854775807",
        "9223372036854775808",
        "-9223372036854775808",
        "-9223372036854775809",
        "99999999999999999999999999",
        "-99999999999999999999999999",
        "99999999999999999999999999x",
        "99999999999999999999x",
    ] {
        match (parse_u64(text), text.parse::<u64>()) {
            (Ok(n), Ok(expected)) => assert_eq!(n, expected),
            (Err(error), Err(expected)) => assert_eq!(error.message(), expected.to_string()),
            (n, expected) => panic!("{text}: {n:?} {expected:?}"),
        }
        match (parse_isize(text), text.parse::<isize>()) {
            (Ok(n), Ok(expected)) => assert_eq!(n, expected),
            (Err(error), Err(expected)) => assert_eq!(error.message(), expected.to_string()),
            (n, expected) => panic!("{text}: {n:?} {expected:?}"),
        }
    }
}

#[test]
fn each_kind_of_number_error_is_told_apart() {
    assert_eq!(parse_u64(""), Err(NumberError::Empty));
    assert_eq!(parse_u64("x"), Err(NumberError::InvalidDigit));
    assert_eq!(
        parse_u64("18446744073709551616"),
        Err(NumberError::PosOverflow)
    );
    assert_eq!(
        parse_isize("-9223372036854775809"),
        Err(NumberError::NegOverflow)
    );
}
