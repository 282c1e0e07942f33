use neo::decimal::{format_decimal, parse_decimal, push_decimal};

fn chars(text: &str) -> Vec<char> {
    text.chars().collect()
}

#[test]
fn numbers_in_decimal_notation() {
    assert_eq!(format_decimal(0), "0");
    assert_eq!(format_decimal(7), "7");
    assert_eq!(format_decimal(10), "10");
    assert_eq!(format_decimal(27), "27");
    assert_eq!(format_decimal(65535), "65535");
    assert_eq!(format_decimal(1234567890), "1234567890");
    assert_eq!(format_decimal(usize::MAX), usize::MAX.to_string());
}

#[test]
fn push_decimal_appends() {
    let mut text = String::from("Content-Length: ");
    push_decimal(&mut text, 42);
    assert_eq!(text, "Content-Length: 42");
    push_decimal(&mut text, 0);
    assert_eq!(text, "Content-Length: 420");
}

#[test]
fn digits_are_read_as_a_number() {
    assert_eq!(parse_decimal(&chars("0"), 100), Some(0));
    assert_eq!(parse_decimal(&chars("80"), 100), Some(80));
    assert_eq!(parse_decimal(&chars("100"), 100), Some(100));
    assert_eq!(parse_decimal(&chars("007"), 100), Some(7));
    assert_eq!(parse_decimal(&chars("0000000000000000000000000000012"), 100), Some(12));
}

#[test]
fn a_number_above_the_limit_is_none() {
    assert_eq!(parse_decimal(&chars("101"), 100), None);
    assert_eq!(parse_decimal(&chars("1000"), 100), None);
    assert_eq!(parse_decimal(&chars("99999999999999999999999999999999"), 100), None);
    assert_eq!(parse_decimal(&chars("1"), 0), None);
    assert_eq!(parse_decimal(&chars("0"), 0), Some(0));
}

#[test]
fn the_limit_may_be_the_largest_number() {
    let largest = usize::MAX.to_string();
    assert_eq!(parse_decimal(&chars(&largest), usize::MAX), Some(usize::MAX));
    assert_eq!(parse_decimal(&chars(&largest), usize::MAX - 1), None);
    assert_eq!(parse_decimal(&chars("340282366920938463463374607431768211456"), usize::MAX), None);
    let mut next: Vec<char> = largest.chars().collect();
    let last = next.len() - 1;
    next[last] = char::from_digit(next[last].to_digit(10).unwrap() + 1, 10).unwrap();
    assert_eq!(parse_decimal(&next, usize::MAX), None);
    assert_eq!(parse_decimal(&chars("19"), 19), Some(19));
    assert_eq!(parse_decimal(&chars("20"), 19), None);
    assert_eq!(parse_decimal(&chars("9"), 9), Some(9));
    assert_eq!(parse_decimal(&chars("10"), 9), None);
}

#[test]
fn anything_but_digits_is_none() {
    assert_eq!(parse_decimal(&chars(""), 100), None);
    assert_eq!(parse_decimal(&chars("+8"), 100), None);
    assert_eq!(parse_decimal(&chars("-8"), 100), None);
    assert_eq!(parse_decimal(&chars(" 8"), 100), None);
    assert_eq!(parse_decimal(&chars("8 "), 100), None);
    assert_eq!(parse_decimal(&chars("8o"), 100), None);
    assert_eq!(parse_decimal(&chars("1000x"), 100), None);
    assert_eq!(parse_decimal(&chars("٣"), 100), None);
    assert_eq!(parse_decimal(&chars("0x10"), 100), None);
}

#[test]
fn reading_what_was_written_gives_the_number_back() {
    for n in [0usize, 1, 9, 10, 99, 100, 12345, 65535] {
        assert_eq!(parse_decimal(&chars(&format_decimal(n)), 65535), Some(n));
    }
}
