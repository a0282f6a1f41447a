use rics::text::{decimal_string, parse_decimal, push_decimal, push_decimal_digits};

#[test]
fn decimal_of_zero() {
    assert_eq!(decimal_string(0), "0");
}

#[test]
fn decimal_of_small_numbers() {
    assert_eq!(decimal_string(7), "7");
    assert_eq!(decimal_string(10), "10");
    assert_eq!(decimal_string(291), "291");
    assert_eq!(decimal_string(-1), "-1");
    assert_eq!(decimal_string(-120), "-120");
}

#[test]
fn decimal_of_the_ends_of_the_range() {
    assert_eq!(decimal_string(i32::MAX), "2147483647");
    assert_eq!(decimal_string(i32::MIN), "-2147483648");
}

#[test]
fn decimal_agrees_with_to_string() {
    let mut n: i64 = -2147483648;
    while n <= 2147483647 {
        assert_eq!(decimal_string(n as i32), (n as i32).to_string());
        n += 9_999_991;
    }
    for n in -1100..1100 {
        assert_eq!(decimal_string(n), n.to_string());
    }
}

#[test]
fn digits_are_appended() {
    let mut out = String::from("id ");
    push_decimal_digits(&mut out, 4294967295);
    assert_eq!(out, "id 4294967295");
    push_decimal(&mut out, -5);
    assert_eq!(out, "id 4294967295-5");
}

#[test]
fn parse_plain_numbers() {
    assert_eq!(parse_decimal("0"), Some(0));
    assert_eq!(parse_decimal("42"), Some(42));
    assert_eq!(parse_decimal("-42"), Some(-42));
    assert_eq!(parse_decimal("+42"), Some(42));
    assert_eq!(parse_decimal("-0"), Some(0));
    assert_eq!(parse_decimal("0000000000000000000000012"), Some(12));
}

#[test]
fn parse_the_ends_of_the_range() {
    assert_eq!(parse_decimal("2147483647"), Some(i32::MAX));
    assert_eq!(parse_decimal("-2147483648"), Some(i32::MIN));
    assert_eq!(parse_decimal("2147483648"), None);
    assert_eq!(parse_decimal("-2147483649"), None);
    assert_eq!(parse_decimal("99999999999999999999999999"), None);
}

#[test]
fn parse_refuses_what_is_no_number() {
    assert_eq!(parse_decimal(""), None);
    assert_eq!(parse_decimal("+"), None);
    assert_eq!(parse_decimal("-"), None);
    assert_eq!(parse_decimal(" 1"), None);
    assert_eq!(parse_decimal("1 "), None);
    assert_eq!(parse_decimal("1x"), None);
    assert_eq!(parse_decimal("alpha"), None);
    assert_eq!(parse_decimal("--1"), None);
    assert_eq!(parse_decimal("+-1"), None);
    assert_eq!(parse_decimal("0x10"), None);
    assert_eq!(parse_decimal("1.0"), None);
    assert_eq!(parse_decimal("\u{663}"), None);
    assert_eq!(parse_decimal("1\u{e9}"), None);
}

#[test]
fn parse_agrees_with_str_parse() {
    let samples = [
        "", "0", "-", "+", "+0", "-0", "12", "-12", "+12", "007", "2147483647", "2147483648",
        "-2147483648", "-2147483649", "21474836470", "a", "1a", "a1", " 1", "1 ", "1_000", "١٢",
        "4294967296", "-4294967296", "+2147483647", "+2147483648", "00000000002147483647",
    ];
    for text in samples.iter() {
        assert_eq!(parse_decimal(text), text.parse::<i32>().ok(), "{:?}", text);
    }
}

#[test]
fn parse_reads_back_what_decimal_writes() {
    for n in [0, 1, -1, 9, 10, -10, 12345, -98765, i32::MAX, i32::MIN].iter() {
        assert_eq!(parse_decimal(&decimal_string(*n)), Some(*n));
    }
}
