use json_parser::error::ErrorKind;
use json_parser::json::JsonValue;
use json_parser::parser::parse_value;

#[test]
fn empty_array() {
    let (v, end) = parse_value("[]", 0).unwrap();
    assert_eq!(v, JsonValue::Array(vec![]));
    assert_eq!(end, 2);
}

#[test]
fn empty_array_with_interior_whitespace() {
    let (v, end) = parse_value("[ \t ]", 0).unwrap();
    assert_eq!(v, JsonValue::Array(vec![]));
    assert_eq!(end, 5);
}

#[test]
fn empty_object() {
    let (v, end) = parse_value("{}", 0).unwrap();
    assert_eq!(v, JsonValue::Object(vec![]));
    assert_eq!(end, 2);
}

#[test]
fn empty_object_with_interior_whitespace() {
    let (v, end) = parse_value("{ \n }", 0).unwrap();
    assert_eq!(v, JsonValue::Object(vec![]));
    assert_eq!(end, 5);
}

#[test]
fn trailing_comma_in_array_is_separator_violation() {
    let err = parse_value("[1,2,]", 0).unwrap_err();
    assert_eq!(err.kind, ErrorKind::SeparatorViolation);
}

#[test]
fn trailing_comma_in_object_is_separator_violation() {
    let err = parse_value("{\"a\":1,}", 0).unwrap_err();
    assert_eq!(err.kind, ErrorKind::SeparatorViolation);
}

#[test]
fn array_without_trailing_comma_succeeds() {
    let (v, _) = parse_value("[1,2]", 0).unwrap();
    assert_eq!(
        v,
        JsonValue::Array(vec![
            JsonValue::Num("1".to_string()),
            JsonValue::Num("2".to_string()),
        ])
    );
}

#[test]
fn object_without_trailing_comma_succeeds() {
    let (v, _) = parse_value("{\"a\":1}", 0).unwrap();
    assert_eq!(
        v,
        JsonValue::Object(vec![("a".to_string(), JsonValue::Num("1".to_string()))])
    );
}

#[test]
fn missing_comma_between_elements_fails() {
    assert!(parse_value("[1 2]", 0).is_err());
}

#[test]
fn nested_document_structure() {
    let input = "{\"a\":[1,2,{\"b\":true,\"c\":null}],\"d\":\"x\\ny\"}";
    let (v, end) = parse_value(input, 0).unwrap();
    let expected = JsonValue::Object(vec![
        (
            "a".to_string(),
            JsonValue::Array(vec![
                JsonValue::Num("1".to_string()),
                JsonValue::Num("2".to_string()),
                JsonValue::Object(vec![
                    ("b".to_string(), JsonValue::Boolean(true)),
                    ("c".to_string(), JsonValue::Null),
                ]),
            ]),
        ),
        ("d".to_string(), JsonValue::Str("x\\ny".to_string())),
    ]);
    assert_eq!(v, expected);
    assert_eq!(end, input.chars().count());
}

#[test]
fn whitespace_insensitive_structures() {
    let a = parse_value("{ \"a\" : 1 }", 0).unwrap().0;
    let b = parse_value("{\"a\":1}", 0).unwrap().0;
    assert_eq!(a, b);
}

#[test]
fn missing_value_error_at_or_after_colon() {
    let err = parse_value("{\"a\": }", 0).unwrap_err();
    assert_eq!(err.kind, ErrorKind::Mismatch);
    assert!(err.pos >= 4);
    assert_eq!(err.pos, 6);
}

#[test]
fn literals_parse() {
    assert_eq!(parse_value("true", 0).unwrap().0, JsonValue::Boolean(true));
    assert_eq!(parse_value("false", 0).unwrap().0, JsonValue::Boolean(false));
    assert_eq!(parse_value("null", 0).unwrap().0, JsonValue::Null);
}

#[test]
fn surrounding_whitespace_is_consumed() {
    let (v, end) = parse_value("  true  ", 0).unwrap();
    assert_eq!(v, JsonValue::Boolean(true));
    assert_eq!(end, 8);
}

#[test]
fn garbage_input_fails_at_start() {
    let err = parse_value("?", 0).unwrap_err();
    assert_eq!(err.kind, ErrorKind::Mismatch);
    assert_eq!(err.pos, 0);
}

#[test]
fn empty_input_fails() {
    assert!(parse_value("", 0).is_err());
}

#[test]
fn duplicate_keys_last_write_wins() {
    let (v, _) = parse_value("{\"a\":1,\"b\":2,\"a\":3}", 0).unwrap();
    assert_eq!(
        v,
        JsonValue::Object(vec![
            ("a".to_string(), JsonValue::Num("3".to_string())),
            ("b".to_string(), JsonValue::Num("2".to_string())),
        ])
    );
}

fn print_json(v: &JsonValue) -> String {
    match v {
        JsonValue::Null => "null".to_string(),
        JsonValue::Boolean(true) => "true".to_string(),
        JsonValue::Boolean(false) => "false".to_string(),
        JsonValue::Num(lit) => lit.clone(),
        JsonValue::Str(raw) => format!("\"{}\"", raw),
        JsonValue::Array(vs) => {
            let mut out = String::from("[");
            for (i, e) in vs.iter().enumerate() {
                if i > 0 {
                    out.push(',');
                }
                out.push_str(&print_json(e));
            }
            out.push(']');
            out
        }
        JsonValue::Object(ps) => {
            let mut out = String::from("{");
            for (i, (k, e)) in ps.iter().enumerate() {
                if i > 0 {
                    out.push(',');
                }
                out.push_str(&format!("\"{}\":{}", k, print_json(e)));
            }
            out.push('}');
            out
        }
    }
}

#[test]
fn print_then_reparse_gives_equal_structure() {
    let input = "{ \"a\" : [ 1 , 2.50e+1 , { \"b\" : true } ] , \"d\" : \"x\\ny\" }";
    let (v, _) = parse_value(input, 0).unwrap();
    let printed = print_json(&v);
    let (v2, _) = parse_value(&printed, 0).unwrap();
    assert_eq!(v, v2);
}
