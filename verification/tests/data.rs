use ufc::data_adapter::{cell_string, convert_data, csv_records, decode_data, encode_data, value_to_csv, JsonValue};
use ufc::Format;

fn float_text(field: &str) -> Option<String> {
    field.parse::<f64>().ok().and_then(serde_json::Number::from_f64).map(|n| n.to_string())
}

fn num(t: &str) -> JsonValue {
    JsonValue::Number(t.to_string())
}

fn s(t: &str) -> JsonValue {
    JsonValue::Str(t.to_string())
}

fn obj(es: Vec<(&str, JsonValue)>) -> JsonValue {
    JsonValue::Object(es.into_iter().map(|(k, v)| (k.to_string(), v)).collect())
}

#[test]
fn csv_fields_are_typed() {
    let v = decode_data("a,b,c,d\n5,2.5,TRUE,hi\n", Format::Csv, &float_text).unwrap();
    let expected = JsonValue::Array(vec![obj(vec![
        ("a", num("5")),
        ("b", num("2.5")),
        ("c", JsonValue::Bool(true)),
        ("d", s("hi")),
    ])]);
    assert_eq!(format!("{:?}", v), format!("{:?}", expected));
}

#[test]
fn csv_keys_are_ordered_and_extra_fields_go_under_column() {
    // Objects keep their keys in order; a field past the header row is
    // stored under "column".
    let v = decode_data("z,a\n1,2\n", Format::Csv, &float_text).unwrap();
    let expected = JsonValue::Array(vec![obj(vec![("a", num("2")), ("z", num("1"))])]);
    assert_eq!(format!("{:?}", v), format!("{:?}", expected));
}

#[test]
fn csv_header_union_and_missing_cells() {
    let v = decode_data(r#"[{"a": 1}, {"b": "x"}]"#, Format::Json, &float_text).unwrap();
    let out = value_to_csv(&v).unwrap();
    assert_eq!(out, "a,b\n1,\n,x\n");
}

#[test]
fn csv_of_scalars_and_empty_array() {
    let v = decode_data("[1, true, null]", Format::Json, &float_text).unwrap();
    assert_eq!(value_to_csv(&v).unwrap(), "value\n1\ntrue\n\"\"\n");
    assert_eq!(value_to_csv(&JsonValue::Array(vec![])).unwrap(), "");
    assert_eq!(value_to_csv(&s("hello")).unwrap(), "value\nhello\n");
}

#[test]
fn csv_of_object_is_one_row() {
    let v = obj(vec![("k", num("3")), ("m", JsonValue::Array(vec![num("1")]))]);
    assert_eq!(value_to_csv(&v).unwrap(), "k,m\n3,[1]\n");
}

#[test]
fn csv_records_lay_out_the_table() {
    let v = JsonValue::Array(vec![obj(vec![("a", num("1"))]), num("7")]);
    let recs = csv_records(&v);
    assert_eq!(recs, vec![vec!["a".to_string()], vec!["1".to_string()], vec!["7".to_string()]]);
}

#[test]
fn csv_refuses_ragged_table() {
    let v = JsonValue::Array(vec![obj(vec![("a", num("1")), ("b", num("2"))]), num("7")]);
    let e = value_to_csv(&v).unwrap_err();
    assert!(e.starts_with("CSV write record error: "), "{e}");
}

#[test]
fn cell_strings() {
    assert_eq!(cell_string(&JsonValue::Null), "");
    assert_eq!(cell_string(&JsonValue::Bool(false)), "false");
    assert_eq!(cell_string(&num("12")), "12");
    assert_eq!(cell_string(&s("q")), "q");
    assert_eq!(cell_string(&obj(vec![("x", num("1"))])), "{\"x\":1}");
}

#[test]
fn toml_root_wraps_non_objects() {
    let out = encode_data(JsonValue::Array(vec![num("1"), num("2")]), Format::Toml).unwrap();
    assert_eq!(out, "data = [\n    1,\n    2,\n]\n");
}

#[test]
fn json_round_trip_through_yaml() {
    let yaml = convert_data(r#"{"b": [1, 2], "a": "x"}"#, Format::Json, Format::Yaml, &float_text).unwrap();
    assert_eq!(yaml, "a: x\nb:\n- 1\n- 2\n");
    let json = convert_data(&yaml, Format::Yaml, Format::Json, &float_text).unwrap();
    assert_eq!(json, "{\n  \"a\": \"x\",\n  \"b\": [\n    1,\n    2\n  ]\n}");
}

#[test]
fn decode_errors_name_the_format() {
    let e = decode_data("{oops", Format::Json, &float_text).unwrap_err();
    assert!(e.starts_with("invalid JSON syntax: "), "{e}");
    let e = decode_data("a = = b", Format::Toml, &float_text).unwrap_err();
    assert!(e.starts_with("invalid TOML syntax: "), "{e}");
    let e = decode_data("key: [unclosed", Format::Yaml, &float_text).unwrap_err();
    assert!(e.starts_with("invalid YAML syntax: "), "{e}");
    let e = decode_data("a,b\n1,2,3\n", Format::Csv, &float_text).unwrap_err();
    assert!(e.starts_with("CSV parse record error: "), "{e}");
}

#[test]
fn unsupported_data_formats() {
    assert_eq!(
        decode_data("x", Format::Png, &float_text).unwrap_err(),
        "unsupported source data format 'png'"
    );
    assert_eq!(
        encode_data(JsonValue::Null, Format::Markdown).unwrap_err(),
        "unsupported target data format 'md'"
    );
}

#[test]
fn toml_refuses_null() {
    let e = encode_data(obj(vec![("a", JsonValue::Null)]), Format::Toml).unwrap_err();
    assert!(e.starts_with("TOML serialization failed: "), "{e}");
}

#[test]
fn plain_text_tries_each_data_format() {
    let v = decode_data("[1]", Format::PlainText, &float_text).unwrap();
    assert_eq!(format!("{:?}", v), format!("{:?}", JsonValue::Array(vec![num("1")])));
    let v = decode_data("just words", Format::PlainText, &float_text).unwrap();
    assert_eq!(format!("{:?}", v), format!("{:?}", s("just words")));
}
