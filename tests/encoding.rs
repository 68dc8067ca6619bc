use falkordb_csv_loader::encode::{
    json_to_cypher_literal, parse_i64, parse_id_to_json, parse_id_value, parse_value_for_property,
    parse_value_to_json, ParamValue,
};

fn text_of(v: &ParamValue) -> Option<&str> {
    match v {
        ParamValue::Str(s) => Some(s.as_str()),
        _ => None,
    }
}

#[test]
fn large_integer_encodes_as_exact_string() {
    let v = parse_value_to_json("99999999999999999999");
    assert_eq!(text_of(&v), Some("99999999999999999999"));
    assert_eq!(json_to_cypher_literal(&v), "'99999999999999999999'");
}

#[test]
fn integers_in_range_encode_as_integers() {
    assert!(matches!(parse_value_to_json("42"), ParamValue::Int(42)));
    assert!(matches!(parse_value_to_json("-7"), ParamValue::Int(-7)));
    assert!(matches!(parse_value_to_json("+15"), ParamValue::Int(15)));
    assert!(matches!(
        parse_value_to_json("-9223372036854775808"),
        ParamValue::Int(i64::MIN)
    ));
    assert!(matches!(
        parse_value_to_json("9223372036854775807"),
        ParamValue::Int(i64::MAX)
    ));
    assert_eq!(text_of(&parse_value_to_json("9223372036854775808")), Some("9223372036854775808"));
}

#[test]
fn exact_floats_keep_their_text() {
    match parse_value_to_json("1.5") {
        ParamValue::Float(t) => assert_eq!(t, "1.5"),
        other => panic!("unexpected {:?}", other),
    }
    match parse_value_to_json("-2.5e10") {
        ParamValue::Float(t) => assert_eq!(t, "-2.5e10"),
        other => panic!("unexpected {:?}", other),
    }
    assert_eq!(text_of(&parse_value_to_json("1.2345678901234567")), Some("1.2345678901234567"));
    assert_eq!(text_of(&parse_value_to_json("1e400")), Some("1e400"));
    assert_eq!(text_of(&parse_value_to_json("inf")), Some("inf"));
    assert_eq!(text_of(&parse_value_to_json(".")), Some("."));
}

#[test]
fn empty_field_is_null_but_empty_id_is_empty_string() {
    assert!(matches!(parse_value_to_json(""), ParamValue::Null));
    assert_eq!(text_of(&parse_id_to_json("")), Some(""));
    assert!(matches!(parse_id_to_json("12"), ParamValue::Int(12)));
}

#[test]
fn plain_text_encodes_as_string() {
    assert_eq!(text_of(&parse_value_to_json("Alice")), Some("Alice"));
    assert_eq!(text_of(&parse_value_to_json("12ab")), Some("12ab"));
}

#[test]
fn inline_literals_quote_and_escape() {
    assert_eq!(parse_value_for_property(""), "null");
    assert_eq!(parse_value_for_property("Alice"), "'Alice'");
    assert_eq!(parse_value_for_property("it's"), "'it\\'s'");
    assert_eq!(parse_value_for_property("a\\b"), "'a\\\\b'");
    assert_eq!(parse_value_for_property("42"), "'42'");
    assert_eq!(parse_id_value(""), "''");
    assert_eq!(parse_id_value("o'k"), "'o\\'k'");
}

#[test]
fn composite_literals_nest() {
    let v = ParamValue::Array(vec![
        ParamValue::Object(vec![
            ("id".to_string(), ParamValue::Int(-3)),
            ("ok".to_string(), ParamValue::Bool(true)),
            ("x".to_string(), ParamValue::Null),
        ]),
        ParamValue::Float("0.25".to_string()),
        ParamValue::Str("q'".to_string()),
        ParamValue::Array(vec![]),
        ParamValue::Object(vec![]),
        ParamValue::Bool(false),
    ]);
    assert_eq!(
        json_to_cypher_literal(&v),
        "[{id: -3, ok: true, x: null}, 0.25, 'q\\'', [], {}, false]"
    );
}

#[test]
fn integer_reader_follows_decimal_form() {
    let chars = |s: &str| s.chars().collect::<Vec<char>>();
    assert_eq!(parse_i64(&chars("0")), Some(0));
    assert_eq!(parse_i64(&chars("007")), Some(7));
    assert_eq!(parse_i64(&chars("-")), None);
    assert_eq!(parse_i64(&chars("+")), None);
    assert_eq!(parse_i64(&chars("")), None);
    assert_eq!(parse_i64(&chars("1 ")), None);
    assert_eq!(parse_i64(&chars("-9223372036854775809")), None);
}
