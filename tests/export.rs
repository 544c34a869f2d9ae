use tfc_var_export::export::{
    construct_export_value, get_outputs, read_export_list, ExportEntry, ExportValue, InputError,
    OutputValue,
};
use tfc_var_export::value::Value;

const OUTPUTS: &str = r#"{
  "bool": {"sensitive": false, "type": "bool", "value": false},
  "list_of_object": {"sensitive": false, "type": ["object", {"a": "string", "b": "string", "c": "string"}], "value": {"a": "aaa", "b": "bbb", "c": null}},
  "map_of_string": {"sensitive": false, "type": ["map", "string"], "value": {"a": "aaa", "b": "bbb", "c": "ccc"}},
  "number_0": {"sensitive": false, "type": "number", "value": 0},
  "number_float": {"sensitive": false, "type": "number", "value": 1.2345},
  "number_negative": {"sensitive": false, "type": "number", "value": -1.2345},
  "sensitive": {"sensitive": true, "type": "string", "value": "**************"},
  "set_of_object": {"sensitive": false, "type": ["set", ["object", {"name": "string", "type": "string"}]], "value": [{"name": "aaa", "type": "bbb"}]},
  "string": {"sensitive": false, "type": "string", "value": "aaa"},
  "string_with_quote": {"sensitive": false, "type": "string", "value": "aaa\"bbb"},
  "tuple": {"sensitive": false, "type": ["tuple", ["string", "string"]], "value": ["aaa", "bbb"]}
}
"#;

fn s(t: &str) -> Value {
    Value::Str(t.to_string())
}

fn n(t: &str) -> Value {
    Value::Number(t.to_string())
}

fn obj(ms: Vec<(&str, Value)>) -> Value {
    Value::Object(ms.into_iter().map(|(k, v)| (k.to_string(), v)).collect())
}

fn expected_outputs() -> Vec<(String, Value)> {
    vec![
        ("bool".to_string(), Value::Bool(false)),
        ("list_of_object".to_string(), obj(vec![("a", s("aaa")), ("b", s("bbb")), ("c", Value::Null)])),
        ("map_of_string".to_string(), obj(vec![("a", s("aaa")), ("b", s("bbb")), ("c", s("ccc"))])),
        ("number_0".to_string(), n("0")),
        ("number_float".to_string(), n("1.2345")),
        ("number_negative".to_string(), n("-1.2345")),
        ("set_of_object".to_string(), Value::Array(vec![obj(vec![("name", s("aaa")), ("type", s("bbb"))])])),
        ("string".to_string(), s("aaa")),
        ("string_with_quote".to_string(), s("aaa\"bbb")),
        ("tuple".to_string(), Value::Array(vec![s("aaa"), s("bbb")])),
    ]
}

fn pairs(res: &[OutputValue]) -> Vec<(String, Value)> {
    res.iter()
        .map(|o| (o.get_name().to_string(), o.get_value().deep_clone()))
        .collect()
}

#[test]
fn test_get_outputs() {
    let res = get_outputs(OUTPUTS).unwrap();
    assert_eq!(pairs(&res), expected_outputs());
}

#[test]
fn get_outputs_test_get_outputs() {
    let res = get_outputs(OUTPUTS).unwrap();
    assert_eq!(res.len(), 10);
    assert_eq!(pairs(&res), expected_outputs());
}

#[test]
fn get_outputs_leaves_out_sensitive_outputs() {
    let res = get_outputs(r#"{"a":{"sensitive":true,"value":1},"b":{"value":2},"c":{"sensitive":false}}"#).unwrap();
    assert_eq!(pairs(&res), vec![("b".to_string(), n("2")), ("c".to_string(), Value::Null)]);
    assert_eq!(get_outputs("[1]"), Err(InputError::MalformedOutputs));
    assert_eq!(get_outputs("{"), Err(InputError::MalformedOutputs));
}

fn entry(source: &str, destination: &str, description: Option<&str>) -> ExportEntry {
    ExportEntry {
        source: source.to_string(),
        destination: destination.to_string(),
        description: description.map(|d| d.to_string()),
    }
}

#[test]
fn test_read_export_list_succeed() {
    let neat = "number_float,number_float_copy,number_float_description\nset_of_object,set_of_object_copy\n";
    assert_eq!(
        read_export_list(neat).unwrap(),
        vec![
            entry("number_float", "number_float_copy", Some("number_float_description")),
            entry("set_of_object", "set_of_object_copy", None),
        ]
    );

    let with_empty_lines =
        "\n\nnumber_float,number_float_copy,\n\n   \nset_of_object,set_of_object_copy,set_of_object_description\n\n";
    assert_eq!(
        read_export_list(with_empty_lines).unwrap(),
        vec![
            entry("number_float", "number_float_copy", Some("")),
            entry("set_of_object", "set_of_object_copy", Some("set_of_object_description")),
        ]
    );
}

#[test]
fn test_read_export_list_fail() {
    let no_line = "\n# only a comment\n\n";
    assert_eq!(read_export_list(no_line), Err(InputError::NoEntries));
    assert_eq!(read_export_list(""), Err(InputError::NoEntries));
}

#[test]
fn read_export_list_skips_comments_and_trims_lines() {
    let text = "# header\r\n  a,b,c  \r\n#x,y\nd,e\n";
    assert_eq!(read_export_list(text).unwrap(), vec![entry("a", "b", Some("c")), entry("d", "e", None)]);
}

#[test]
fn read_export_list_trims_unicode_whitespace() {
    let text = "\u{b}\na,b\u{a0}\n\u{3000}# note\u{2003}\n";
    assert_eq!(read_export_list(text).unwrap(), vec![entry("a", "b", None)]);
}

#[test]
fn read_export_list_rejects_a_line_without_destination() {
    assert_eq!(
        read_export_list("a,b\nlonely\n"),
        Err(InputError::MalformedEntry("lonely".to_string()))
    );
}

#[test]
fn read_export_list_rejects_duplicate_destination() {
    assert_eq!(
        read_export_list("a,out\nb,other\nc,out\n"),
        Err(InputError::DuplicateDestination("out".to_string()))
    );
}

#[test]
fn read_export_list_rejects_duplicate_source() {
    assert_eq!(
        read_export_list("a,x\na,y\n"),
        Err(InputError::DuplicateSource("a".to_string()))
    );
}

#[test]
fn test_construct_export_value() {
    let list = "number_0,number_0_out\nstring,string_out,string_description\nset_of_object,set_of_object_out,set_of_object_description\n";
    let result = construct_export_value(list, OUTPUTS).unwrap();
    assert!(result.contains(&ExportValue::new("number_0_out".to_string(), None, n("0"))));
    assert!(result.contains(&ExportValue::new(
        "string_out".to_string(),
        Some("string_description".to_string()),
        s("aaa"),
    )));
    assert!(result.contains(&ExportValue::new(
        "set_of_object_out".to_string(),
        Some("set_of_object_description".to_string()),
        Value::Array(vec![obj(vec![("name", s("aaa")), ("type", s("bbb"))])]),
    )));
    assert!(result.len() == 3);
}

#[test]
fn construct_export_value_reports_unknown_and_input_errors() {
    assert_eq!(
        construct_export_value("missing,x\n", OUTPUTS),
        Err(InputError::UnknownOutput("missing".to_string()))
    );
    assert_eq!(
        construct_export_value("sensitive,x\n", OUTPUTS),
        Err(InputError::UnknownOutput("sensitive".to_string()))
    );
    assert_eq!(
        construct_export_value("n,a\nm,a\n", OUTPUTS),
        Err(InputError::DuplicateDestination("a".to_string()))
    );
    assert_eq!(construct_export_value("n,n_out\n", "nope"), Err(InputError::MalformedOutputs));
}

#[test]
fn scenario_single_number_output() {
    let targets = construct_export_value("n,n_out", r#"{"n":{"sensitive":false,"value":0}}"#).unwrap();
    assert_eq!(targets, vec![ExportValue::new("n_out".to_string(), None, n("0"))]);
}

#[test]
fn get_outputs_orders_by_name_and_keeps_the_later_duplicate() {
    let res = get_outputs(
        r#"{"zeta":{"value":1},"alpha":{"value":2},"mid":{"value":3},"alpha":{"sensitive":false,"value":4},"Beta":{"value":5}}"#,
    )
    .unwrap();
    assert_eq!(
        pairs(&res),
        vec![
            ("Beta".to_string(), n("5")),
            ("alpha".to_string(), n("4")),
            ("mid".to_string(), n("3")),
            ("zeta".to_string(), n("1")),
        ]
    );
}
