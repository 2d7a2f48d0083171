use json_parser::error::decimal_string;
use json_parser::error::ErrorKind;
use json_parser::json::JsonValue;
use json_parser::parser::parse_array_inner_reducer;
use json_parser::parser::parse_object_inner_reducer;
use json_parser::parser::parse_object_item;
use json_parser::parser::parse_value;
use json_parser::parser::Delimited;
use json_parser::parser::DelimitedMap;

#[test]
fn decimal_rendering() {
    assert_eq!(decimal_string(0), "0");
    assert_eq!(decimal_string(7), "7");
    assert_eq!(decimal_string(10), "10");
    assert_eq!(decimal_string(90710), "90710");
}

#[test]
fn render_reports_position_kind_context_and_trace() {
    let input = "[1,2,]";
    let err = parse_value(input, 0).unwrap_err();
    assert_eq!(err.pos, 5);
    let rendered = err.render(input);
    assert_eq!(
        rendered,
        "parse error at position 5: separator comma misplaced\nnear: [1,2,]\nrules: array < value"
    );
}

#[test]
fn render_window_is_clipped_around_position() {
    let input = "{\"key\": [1,2,3,4,5,6,7,8,9,10,]}";
    let err = parse_value(input, 0).unwrap_err();
    let rendered = err.render(input);
    assert!(rendered.starts_with("parse error at position "));
    assert!(rendered.contains("near: "));
    assert!(rendered.contains("rules: "));
}

#[test]
fn array_reducer_respects_comma_flag() {
    let mut acc = Delimited::<JsonValue> { values: vec![], comma: true };
    assert!(parse_array_inner_reducer(&mut acc, (JsonValue::Null, Some(','))));
    assert_eq!(acc.values, vec![JsonValue::Null]);
    assert!(acc.comma);
    assert!(parse_array_inner_reducer(&mut acc, (JsonValue::Boolean(true), None)));
    assert!(!acc.comma);
    assert!(!parse_array_inner_reducer(&mut acc, (JsonValue::Null, None)));
    assert_eq!(acc.values.len(), 2);
}

#[test]
fn object_reducer_overwrites_duplicate_key_in_place() {
    let mut acc = DelimitedMap { values: vec![], comma: true };
    assert!(parse_object_inner_reducer(
        &mut acc,
        ("a".to_string(), JsonValue::Num("1".to_string()), Some(','))
    ));
    assert!(parse_object_inner_reducer(
        &mut acc,
        ("b".to_string(), JsonValue::Num("2".to_string()), Some(','))
    ));
    assert!(parse_object_inner_reducer(
        &mut acc,
        ("a".to_string(), JsonValue::Num("3".to_string()), None)
    ));
    assert_eq!(
        acc.values,
        vec![
            ("a".to_string(), JsonValue::Num("3".to_string())),
            ("b".to_string(), JsonValue::Num("2".to_string())),
        ]
    );
    assert!(!acc.comma);
    assert!(!parse_object_inner_reducer(
        &mut acc,
        ("c".to_string(), JsonValue::Null, None)
    ));
    assert_eq!(acc.values.len(), 2);
}

#[test]
fn object_item_reads_key_value_and_comma() {
    let input = " \"k\" : 7 ,rest";
    let ((key, value, comma), end) = parse_object_item(input, 0).unwrap();
    assert_eq!(key, "k");
    assert_eq!(value, JsonValue::Num("7".to_string()));
    assert_eq!(comma, Some(','));
    assert_eq!(end, 10);
}

#[test]
fn object_item_without_colon_fails() {
    assert!(parse_object_item("\"k\" 7", 0).is_err());
}
