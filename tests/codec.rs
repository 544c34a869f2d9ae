use tfc_var_export::codec::{classify, decode, encode, parse_json_text, to_json, CodecError};
use tfc_var_export::value::Value;

fn s(t: &str) -> Value {
    Value::Str(t.to_string())
}

fn n(t: &str) -> Value {
    Value::number(t).unwrap()
}

fn obj(ms: Vec<(&str, Value)>) -> Value {
    Value::Object(ms.into_iter().map(|(k, v)| (k.to_string(), v)).collect())
}

fn round_trip(v: &Value) -> Value {
    let c = classify(v);
    decode(c.is_hcl(), c.is_string, &encode(v)).unwrap()
}

#[test]
fn round_trip_null_bearing_object() {
    let v = obj(vec![("a", s("aaa")), ("b", s("bbb")), ("c", Value::Null)]);
    assert_eq!(encode(&v), r#"{"a":"aaa","b":"bbb","c":null}"#);
    assert!(classify(&v).is_hcl());
    assert_eq!(round_trip(&v), v);
}

#[test]
fn round_trip_nested_array_of_objects() {
    let v = Value::Array(vec![
        obj(vec![("name", s("aaa")), ("type", s("bbb"))]),
        Value::Array(vec![obj(vec![]), Value::Array(vec![])]),
    ]);
    assert_eq!(encode(&v), r#"[{"name":"aaa","type":"bbb"},[{},[]]]"#);
    assert_eq!(round_trip(&v), v);
}

#[test]
fn round_trip_negative_float_keeps_its_text() {
    let v = n("-1.2345");
    let c = classify(&v);
    assert!(c.is_primitive && !c.is_string && !c.is_hcl());
    assert_eq!(encode(&v), "-1.2345");
    assert_eq!(round_trip(&v), v);
    let precise = n("0.10000000000000000000000001");
    assert_eq!(encode(&precise), "0.10000000000000000000000001");
    assert_eq!(round_trip(&precise), precise);
}

#[test]
fn round_trip_integer_zero() {
    let v = n("0");
    assert_eq!(encode(&v), "0");
    assert!(!classify(&v).is_hcl());
    assert_eq!(round_trip(&v), v);
}

#[test]
fn round_trip_quoted_string_is_not_escaped() {
    let v = s("aaa\"bbb");
    let c = classify(&v);
    assert!(c.is_primitive && c.is_string);
    assert_eq!(encode(&v), "aaa\"bbb");
    assert_eq!(round_trip(&v), v);
}

#[test]
fn round_trip_plain_string_and_boolean() {
    let v = s("aaa");
    assert_eq!(encode(&v), "aaa");
    assert_eq!(round_trip(&v), v);
    let b = Value::Bool(false);
    assert_eq!(encode(&b), "false");
    assert!(!classify(&b).is_hcl());
    assert_eq!(round_trip(&b), b);
}

#[test]
fn round_trip_top_level_null() {
    let v = Value::Null;
    assert!(classify(&v).is_hcl());
    assert_eq!(encode(&v), "null");
    assert_eq!(round_trip(&v), v);
}

#[test]
fn classification_is_the_same_on_equal_values() {
    let a = Value::Array(vec![s("aaa"), s("bbb")]);
    let b = Value::Array(vec![s("aaa"), s("bbb")]);
    assert_eq!(classify(&a), classify(&b));
    assert_eq!(classify(&a), classify(&a));
    assert_eq!(classify(&s("x")), classify(&s("x")));
}

#[test]
fn scenario_tuple_of_strings() {
    let v = Value::Array(vec![s("aaa"), s("bbb")]);
    let c = classify(&v);
    assert!(c.is_hcl());
    assert!(!c.is_string);
    let raw = encode(&v);
    assert_eq!(raw, r#"["aaa","bbb"]"#);
    assert_eq!(decode(true, false, &raw).unwrap(), Value::Array(vec![s("aaa"), s("bbb")]));
}

#[test]
fn strings_inside_structures_are_escaped() {
    let v = Value::Array(vec![s("a\"b\\c\nd\u{1}")]);
    assert_eq!(to_json(&v), "[\"a\\\"b\\\\c\\nd\\u0001\"]");
    assert_eq!(round_trip(&v), v);
}

#[test]
fn decode_rejects_text_that_is_not_json() {
    assert_eq!(decode(true, false, "[1,"), Err(CodecError::InvalidJson));
    assert_eq!(decode(false, false, "01"), Err(CodecError::InvalidJson));
    assert_eq!(decode(true, false, "{\"a\" 1}"), Err(CodecError::InvalidJson));
    assert_eq!(decode(true, false, ""), Err(CodecError::InvalidJson));
    assert_eq!(decode(false, true, "[1,"), Ok(s("[1,")));
}

#[test]
fn parser_reads_whitespace_escapes_and_surrogate_pairs() {
    let v = parse_json_text(" { \"k\" : [ 1 , -2.5e3 , true ] ,\n\"e\": \"\\u00e9\\ud83d\\ude00\\/\" } ").unwrap();
    assert_eq!(
        v,
        obj(vec![
            ("k", Value::Array(vec![n("1"), n("-2.5e3"), Value::Bool(true)])),
            ("e", s("\u{e9}\u{1f600}/")),
        ])
    );
    assert!(parse_json_text("\"\\ud83d\"").is_none());
    assert!(parse_json_text("[1] x").is_none());
}

#[test]
fn numbers_follow_the_json_grammar() {
    assert!(Value::number("-0.5E+10").is_some());
    assert!(Value::number("12").is_some());
    assert!(Value::number("01").is_none());
    assert!(Value::number("1.").is_none());
    assert!(Value::number("-").is_none());
    assert!(Value::number("").is_none());
    assert!(Value::number("1e").is_none());
}
