use adder::runtime::{checked_parse_input, error_text, parse_input, value_text};
use adder::text::decimal_string;

#[test]
fn input_words_and_numbers() {
    assert_eq!(parse_input("true"), 3);
    assert_eq!(parse_input("false"), 1);
    assert_eq!(parse_input("5"), 10);
    assert_eq!(parse_input("-7"), -14);
    assert_eq!(parse_input("+3"), 6);
    assert_eq!(parse_input("0"), 0);
}

#[test]
fn input_that_is_not_a_value() {
    assert_eq!(checked_parse_input("abc"), None);
    assert_eq!(checked_parse_input(""), None);
    assert_eq!(checked_parse_input("-"), None);
    assert_eq!(checked_parse_input(" 5"), None);
    assert_eq!(checked_parse_input("True"), None);
    assert_eq!(checked_parse_input("9223372036854775808"), None);
}

#[test]
fn large_input_shifts_out_its_top_bit() {
    assert_eq!(parse_input("4611686018427387904"), i64::MIN);
}

#[test]
fn shown_values() {
    assert_eq!(value_text(10), "5");
    assert_eq!(value_text(-14), "-7");
    assert_eq!(value_text(0), "0");
    assert_eq!(value_text(3), "true");
    assert_eq!(value_text(1), "false");
    assert_eq!(value_text(5), "Unknown value: 5");
    assert_eq!(value_text(-1), "Unknown value: -1");
}

#[test]
fn error_codes() {
    assert_eq!(error_text(1), "invalid argument");
    assert_eq!(error_text(2), "overflow");
    assert_eq!(error_text(7), "an error occurred 7");
    assert_eq!(error_text(-3), "an error occurred -3");
}

#[test]
fn decimal_texts() {
    assert_eq!(decimal_string(0), "0");
    assert_eq!(decimal_string(1234), "1234");
    assert_eq!(decimal_string(-56), "-56");
    assert_eq!(decimal_string(i64::MIN), "-9223372036854775808");
    assert_eq!(decimal_string(i64::MAX), "9223372036854775807");
}

#[test]
fn input_numbers_at_the_edges_of_i64() {
    assert_eq!(parse_input("9223372036854775807"), -2);
    assert_eq!(parse_input("-9223372036854775808"), 0);
    assert_eq!(parse_input("00012"), 24);
    assert_eq!(parse_input("-0"), 0);
    assert_eq!(checked_parse_input("-9223372036854775809"), None);
    assert_eq!(checked_parse_input("99999999999999999999999999999999"), None);
    assert_eq!(checked_parse_input("+"), None);
    assert_eq!(checked_parse_input("--1"), None);
    assert_eq!(checked_parse_input("+-1"), None);
    assert_eq!(checked_parse_input("1_000"), None);
}
