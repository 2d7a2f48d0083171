use std::str::FromStr;

use json_parser::error::ErrorKind;
use json_parser::json::JsonValue;
use json_parser::parser::parse_json_char;
use json_parser::parser::parse_number;
use json_parser::parser::parse_string;
use json_parser::parser::parse_value;
use json_parser::parser::trim_whitespace;

#[test]
pub fn parse_number_test() {
    let input = "12345";
    let mut pos = 0;
    let out = parse_number(input, &mut pos);
    assert_eq!(12345.0, f64::from_str(&out.unwrap()).unwrap());
    assert_eq!(pos, 5);
}

#[test]
pub fn parse_number_test_with_e() {
    let input = "12345.0e+2";
    let mut pos = 0;
    let out = parse_number(input, &mut pos);
    assert_eq!(1234500.0, f64::from_str(&out.unwrap()).unwrap());
    assert_eq!(pos, 10);
}

#[test]
pub fn parse_value_string() {
    let input = "\"Hello World!\"";
    let out = parse_value(input, 0);
    assert_eq!(JsonValue::Str("Hello World!".to_string()), out.unwrap().0);
}

#[test]
fn number_literal_is_captured_exactly() {
    let input = "-12.5e+3";
    let (v, end) = parse_value(input, 0).unwrap();
    assert_eq!(v, JsonValue::Num("-12.5e+3".to_string()));
    assert_eq!(end, 8);
    match v {
        JsonValue::Num(lit) => {
            assert_eq!(f64::from_str(&lit).unwrap(), f64::from_str(input).unwrap());
        }
        _ => unreachable!(),
    }
}

#[test]
fn number_stops_before_bare_dot() {
    // a dot without digits is left unconsumed by backtracking
    let mut pos = 0;
    let out = parse_number("1.x", &mut pos).unwrap();
    assert_eq!(out, "1");
    assert_eq!(pos, 1);
}

#[test]
fn number_exponent_needs_sign() {
    // the exponent marker without a sign is left unconsumed
    let mut pos = 0;
    let out = parse_number("1e5", &mut pos).unwrap();
    assert_eq!(out, "1");
    assert_eq!(pos, 1);
}

#[test]
fn number_leading_zeros_accepted() {
    let mut pos = 0;
    let out = parse_number("0012", &mut pos).unwrap();
    assert_eq!(out, "0012");
    assert_eq!(f64::from_str("0012").unwrap(), 12.0);
}

#[test]
fn lone_minus_is_rejected() {
    let mut pos = 0;
    let out = parse_number("-", &mut pos);
    let err = out.unwrap_err();
    assert_eq!(err.kind, ErrorKind::Mismatch);
    assert_eq!(pos, 0);
}

#[test]
fn string_keeps_escapes_verbatim() {
    let mut pos = 0;
    let out = parse_string("\"a\\nb\\u00Ff!\"", &mut pos).unwrap();
    assert_eq!(out, "a\\nb\\u00Ff!");
}

#[test]
fn string_unterminated_fails() {
    let mut pos = 0;
    let out = parse_string("\"abc", &mut pos);
    assert!(out.is_err());
    assert_eq!(pos, 0);
}

#[test]
fn string_bad_escape_fails() {
    let mut pos = 0;
    assert!(parse_string("\"a\\q\"", &mut pos).is_err());
    let mut pos2 = 0;
    assert!(parse_string("\"a\\u00g1\"", &mut pos2).is_err());
}

#[test]
fn string_control_character_fails() {
    let mut pos = 0;
    let input = "\"a\u{0001}b\"";
    assert!(parse_string(input, &mut pos).is_err());
}

#[test]
fn string_non_ascii_contents() {
    let input = "\"h\u{e9}llo\"";
    let (v, end) = parse_value(input, 0).unwrap();
    assert_eq!(v, JsonValue::Str("h\u{e9}llo".to_string()));
    assert_eq!(end, input.chars().count());
}

#[test]
fn json_char_unicode_escape_consumes_six() {
    let mut pos = 0;
    parse_json_char("\\u045fxx", &mut pos).unwrap();
    assert_eq!(pos, 6);
}

#[test]
fn trim_whitespace_consumes_all_kinds() {
    let mut pos = 0;
    trim_whitespace(" \t\r\nx", &mut pos);
    assert_eq!(pos, 4);
    let mut pos2 = 0;
    trim_whitespace("x", &mut pos2);
    assert_eq!(pos2, 0);
}
