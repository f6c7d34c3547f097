use json_store::codec::{
    chars_of, data_from_text, encode_value, parse_u64_strict, parse_u64_text, registry_from_text,
    render_data, render_registry, render_sequence,
};
use json_store::value::value_eq;
use json_store::{Info, Value};

#[test]
fn encode_scalars() {
    assert_eq!(encode_value(&Value::Null), "null");
    assert_eq!(encode_value(&Value::Bool(true)), "true");
    assert_eq!(encode_value(&Value::Bool(false)), "false");
    assert_eq!(encode_value(&Value::Int(0)), "0");
    assert_eq!(encode_value(&Value::Int(1234567890)), "1234567890");
    assert_eq!(encode_value(&Value::Int(-7)), "-7");
    assert_eq!(
        encode_value(&Value::Int(i64::MIN)),
        "-9223372036854775808"
    );
    assert_eq!(encode_value(&Value::Str("a@x.com".to_string())), "\"a@x.com\"");
}

#[test]
fn encode_escapes_quotes_and_backslashes() {
    let v = Value::Str("a\"b\\c".to_string());
    assert_eq!(encode_value(&v), "\"a\\\"b\\\\c\"");
}

#[test]
fn encode_escapes_control_characters() {
    let v = Value::Str("a\nb\tc\u{1}".to_string());
    assert_eq!(encode_value(&v), "\"a\\u000ab\\u0009c\\u0001\"");
}

#[test]
fn control_characters_round_trip() {
    let data = vec![(
        1u64,
        Value::Obj(vec![(
            "text".to_string(),
            Value::Str("line1\nline2".to_string()),
        )]),
    )];
    let text = render_data(&data);
    assert_eq!(text, "{\"1\":{\"text\":\"line1\\u000aline2\"}}");
    let back = data_from_text(&text).unwrap();
    assert!(value_eq(&back[0].1, &data[0].1));
}

#[test]
fn encode_nested_structures() {
    let v = Value::Obj(vec![
        ("a".to_string(), Value::Arr(vec![Value::Int(1), Value::Int(2)])),
        ("b".to_string(), Value::Obj(vec![])),
    ]);
    assert_eq!(encode_value(&v), "{\"a\":[1,2],\"b\":{}}");
}

#[test]
fn sequence_marker_round_trip() {
    assert_eq!(render_sequence(0), "0");
    assert_eq!(render_sequence(18446744073709551615), "18446744073709551615");
    assert_eq!(parse_u64_text(&render_sequence(987654321)), 987654321);
    assert_eq!(parse_u64_text("garbage"), 0);
    assert_eq!(parse_u64_text(""), 0);
    assert_eq!(parse_u64_text("-3"), 0);
}

#[test]
fn strict_decimal_parsing() {
    assert_eq!(parse_u64_strict("42"), Some(42));
    assert_eq!(parse_u64_strict("0"), Some(0));
    assert_eq!(parse_u64_strict("042"), None);
    assert_eq!(parse_u64_strict("4x2"), None);
    assert_eq!(parse_u64_strict(""), None);
}

#[test]
fn data_file_round_trip() {
    let data = vec![
        (
            1u64,
            Value::Obj(vec![("email".to_string(), Value::Str("a@x.com".to_string()))]),
        ),
        (
            7u64,
            Value::Obj(vec![
                ("email".to_string(), Value::Str("b@x.com".to_string())),
                ("tags".to_string(), Value::Arr(vec![Value::Str("x".to_string())])),
            ]),
        ),
    ];
    let text = render_data(&data);
    assert_eq!(
        text,
        "{\"1\":{\"email\":\"a@x.com\"},\"7\":{\"email\":\"b@x.com\",\"tags\":[\"x\"]}}"
    );
    let back = data_from_text(&text).unwrap();
    assert_eq!(back.len(), 2);
    assert_eq!(back[0].0, 1);
    assert_eq!(back[1].0, 7);
    assert!(value_eq(&back[0].1, &data[0].1));
    assert!(value_eq(&back[1].1, &data[1].1));
}

#[test]
fn data_file_rejects_non_canonical_text() {
    // whitespace is not part of the rendering, so it does not round-trip
    assert!(data_from_text("{ \"1\": {} }").is_none());
    assert!(data_from_text("{\"01\":{}}").is_none());
    assert!(data_from_text("nonsense").is_none());
}

#[test]
fn registry_file_round_trip() {
    let infos = vec![(
        "users".to_string(),
        Info::new(
            "id".to_string(),
            vec![("email".to_string(), vec!["email".to_string()])],
            2,
        ),
    )];
    let text = render_registry(&infos);
    assert_eq!(
        text,
        "{\"users\":{\"sequence_field\":\"id\",\"unique_fields\":{\"email\":[\"email\"]},\"capacity\":2}}"
    );
    let back = registry_from_text(&text).unwrap();
    assert_eq!(back.len(), 1);
    assert_eq!(back[0].0, "users");
    assert_eq!(back[0].1.sequence_field, "id");
    assert_eq!(back[0].1.capacity, 2);
    assert_eq!(back[0].1.unique_fields.len(), 1);
    assert_eq!(back[0].1.unique_fields[0].0, "email");
    assert_eq!(back[0].1.unique_fields[0].1, vec!["email".to_string()]);
}

#[test]
fn empty_renderings_always_read_back() {
    assert!(data_from_text("{}").unwrap().is_empty());
    assert!(registry_from_text("{}").unwrap().is_empty());
}

#[test]
fn chars_of_reads_characters_in_order() {
    let cs = chars_of("a\u{00e9}b");
    assert_eq!(cs, vec!['a', '\u{00e9}', 'b']);
}
